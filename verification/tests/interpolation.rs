use rigor::interpolate::{find_opening, interpolate};
use rigor::strmap::StringMap;
use rigor::suite::Rigor;
use rigor::text::{chars_of, find_char, same_text, slice_of, split_at_char};

fn env_of(pairs: &[(&str, &str)]) -> StringMap {
    let mut env = StringMap::new();
    for (k, v) in pairs {
        env.insert(k.to_string(), v.to_string());
    }
    env
}

#[test]
fn a_known_name_gives_its_value() {
    let env = env_of(&[("HOST", "example.org")]);
    assert_eq!(interpolate("http://${HOST}/x", &env), "http://example.org/x");
}

#[test]
fn an_absent_name_gives_nothing() {
    let env = env_of(&[("HOST", "example.org")]);
    assert_eq!(interpolate("a${MISSING}b", &env), "ab");
    assert_eq!(interpolate("${MISSING}", &StringMap::new()), "");
}

#[test]
fn an_absent_name_gives_nothing_wherever_it_stands() {
    let env = env_of(&[("A", "1")]);
    assert_eq!(interpolate("${A}${MISSING}x", &env), "1x");
    assert_eq!(interpolate("p${A}q${MISSING}r${A}s", &env), "p1qr1s");
    assert_eq!(interpolate("$${MISSING}{", &env), "${");
}

#[test]
fn repeated_placeholders_are_all_replaced() {
    let env = env_of(&[("A", "1"), ("B", "22")]);
    assert_eq!(interpolate("${A}-${B}-${A}${A}", &env), "1-22-11");
}

#[test]
fn an_unclosed_opening_stays_with_all_that_follows() {
    let env = env_of(&[("A", "1")]);
    assert_eq!(interpolate("x${A", &env), "x${A");
    assert_eq!(interpolate("${A}/${A", &env), "1/${A");
    assert_eq!(interpolate("${", &env), "${");
    assert_eq!(interpolate("tail$", &env), "tail$");
}

#[test]
fn a_clean_string_stays_and_a_second_pass_changes_nothing() {
    let env = env_of(&[("A", "1")]);
    let once = interpolate("http://${A}/p", &env);
    assert_eq!(once, "http://1/p");
    assert_eq!(interpolate(&once, &env), once);
    assert_eq!(interpolate("no placeholders } here {", &env), "no placeholders } here {");
    assert_eq!(interpolate("", &env), "");
}

#[test]
fn a_value_is_not_read_again() {
    let env = env_of(&[("A", "${B}"), ("B", "deep"), ("LOOP", "${LOOP}")]);
    assert_eq!(interpolate("${A}", &env), "${B}");
    assert_eq!(interpolate("${LOOP}", &env), "${LOOP}");
}

#[test]
fn the_name_runs_to_the_first_closing_brace() {
    let env = env_of(&[("A${B", "odd"), ("", "empty")]);
    assert_eq!(interpolate("${A${B}}", &env), "odd}");
    assert_eq!(interpolate("<${}>", &env), "<empty>");
}

#[test]
fn names_with_wide_characters_are_found() {
    let env = env_of(&[("né", "ö")]);
    assert_eq!(interpolate("ä${né}ü", &env), "äöü");
}

#[test]
fn replace_with_env_rewrites_in_place() {
    let env = env_of(&[("RIGOR_ENDPOINT", "http://localhost:8080")]);
    let mut s = "${RIGOR_ENDPOINT}".to_string();
    Rigor::replace_with_env(&mut s, &env);
    assert_eq!(s, "http://localhost:8080");
}

#[test]
fn find_opening_gives_the_first_opening_or_the_length() {
    let chars = chars_of("a$b${c}${");
    assert_eq!(find_opening(&chars, 0), 3);
    assert_eq!(find_opening(&chars, 4), 7);
    assert_eq!(find_opening(&chars, 8), 9);
    assert_eq!(find_opening(&chars_of("$"), 0), 1);
}

#[test]
fn text_helpers_give_exact_values() {
    assert_eq!(chars_of("añb"), vec!['a', 'ñ', 'b']);
    assert!(same_text("añb", "añb"));
    assert!(!same_text("ab", "abc"));
    assert!(!same_text("ab", "ac"));
    let chars = chars_of("a.b.c");
    assert_eq!(find_char(&chars, '.', 0), 1);
    assert_eq!(find_char(&chars, '.', 2), 3);
    assert_eq!(find_char(&chars, '.', 4), 5);
    assert_eq!(slice_of("añbcd", 1, 3), "ñb");
    assert_eq!(slice_of("abc", 2, 2), "");
}

#[test]
fn split_keeps_empty_pieces() {
    assert_eq!(split_at_char("a.b.c", '.'), vec!["a", "b", "c"]);
    assert_eq!(split_at_char("ip", '.'), vec!["ip"]);
    assert_eq!(split_at_char("", '.'), vec![""]);
    assert_eq!(split_at_char("a..b.", '.'), vec!["a", "", "b", ""]);
    assert_eq!(split_at_char(".", '.'), vec!["", ""]);
}

#[test]
fn string_map_keeps_the_first_place_and_the_last_value() {
    let mut m = StringMap::new();
    assert_eq!(m.len(), 0);
    assert!(m.get("a").is_none());
    m.insert("a".to_string(), "1".to_string());
    m.insert("b".to_string(), "2".to_string());
    m.insert("a".to_string(), "3".to_string());
    assert_eq!(m.len(), 2);
    assert_eq!(m.key_at(0), "a");
    assert_eq!(m.value_at(0), "3");
    assert_eq!(m.key_at(1), "b");
    assert_eq!(m.get("a").map(|s| s.as_str()), Some("3"));
    assert_eq!(m.get("b").map(|s| s.as_str()), Some("2"));
    assert_eq!(m.position("b"), 1);
    assert_eq!(m.position("zz"), 2);
    m.set_value_at(1, "9".to_string());
    assert_eq!(m.get("b").map(|s| s.as_str()), Some("9"));
    let copy = m.clone();
    assert_eq!(copy.len(), 2);
    assert_eq!(copy.get("a").map(|s| s.as_str()), Some("3"));
}
