use rigor::json::{Json, Member, Number};
use rigor::redact::{
    neutralize, neutralize_field, remove_members, remove_path, skip_field, skip_fields,
    RedactError, Stuck,
};

fn text(s: &str) -> Json {
    Json::String(s.to_string())
}

fn whole(n: u64) -> Json {
    Json::Number(Number::PosInt(n))
}

fn object(members: Vec<(&str, Json)>) -> Json {
    Json::Object(
        members
            .into_iter()
            .map(|(k, v)| Member { key: k.to_string(), value: v })
            .collect(),
    )
}

fn paths(list: &[&str]) -> Option<Vec<String>> {
    Some(list.iter().map(|s| s.to_string()).collect())
}

#[test]
fn a_deep_path_removes_the_key_and_leaves_its_sibling() {
    let mut body = object(vec![("a", object(vec![("b", whole(1)), ("c", whole(2))]))]);
    assert_eq!(skip_fields(&mut body, &paths(&["a.b"])), Ok(()));
    assert_eq!(body, object(vec![("a", object(vec![("c", whole(2))]))]));
}

#[test]
fn a_top_level_string_is_emptied_and_its_key_stays() {
    let mut body = object(vec![("status", text("ok")), ("ip", text("1.2.3.4"))]);
    assert_eq!(skip_fields(&mut body, &paths(&["ip"])), Ok(()));
    assert_eq!(body, object(vec![("status", text("ok")), ("ip", text(""))]));
}

#[test]
fn every_kind_is_neutralized_to_its_own_kind() {
    let mut v = Json::Null;
    neutralize(&mut v);
    assert_eq!(v, Json::Null);
    let mut v = Json::Bool(true);
    neutralize(&mut v);
    assert_eq!(v, Json::Bool(false));
    let mut v = whole(17);
    neutralize(&mut v);
    assert_eq!(v, whole(0));
    let mut v = Json::Number(Number::NegInt(-4));
    neutralize(&mut v);
    assert_eq!(v, whole(0));
    let mut v = Json::Number(Number::Float(2.5f64.to_bits()));
    neutralize(&mut v);
    assert_eq!(v, Json::Number(Number::Float(0.0f64.to_bits())));
    let mut v = text("abc");
    neutralize(&mut v);
    assert_eq!(v, text(""));
    let mut v = Json::Array(vec![whole(1), whole(2)]);
    neutralize(&mut v);
    assert_eq!(v, Json::Array(vec![]));
    let mut v = object(vec![("k", whole(1))]);
    neutralize(&mut v);
    assert_eq!(v, object(vec![]));
}

#[test]
fn an_absent_top_level_field_is_passed_over() {
    let mut body = object(vec![("a", whole(1))]);
    assert_eq!(skip_fields(&mut body, &paths(&["nope"])), Ok(()));
    assert_eq!(body, object(vec![("a", whole(1))]));
}

#[test]
fn a_top_level_field_of_a_body_that_is_no_object_is_passed_over() {
    let mut body = Json::Array(vec![whole(1)]);
    assert_eq!(skip_fields(&mut body, &paths(&["a"])), Ok(()));
    assert_eq!(body, Json::Array(vec![whole(1)]));
    let mut body = text("plain");
    neutralize_field(&mut body, "a");
    assert_eq!(body, text("plain"));
}

#[test]
fn no_list_of_fields_leaves_the_body() {
    let mut body = object(vec![("a", whole(1))]);
    assert_eq!(skip_fields(&mut body, &None), Ok(()));
    assert_eq!(body, object(vec![("a", whole(1))]));
    assert_eq!(skip_fields(&mut body, &paths(&[])), Ok(()));
    assert_eq!(body, object(vec![("a", whole(1))]));
}

#[test]
fn a_missing_intermediate_key_is_an_error() {
    let mut body = object(vec![("a", object(vec![("b", whole(1))]))]);
    assert_eq!(
        skip_fields(&mut body, &paths(&["a.x.y"])),
        Err(RedactError { field: 0, stuck: Stuck::MissingKey { depth: 1 } })
    );
    assert_eq!(body, object(vec![("a", object(vec![("b", whole(1))]))]));
    assert_eq!(
        skip_field(&mut body, "x.y"),
        Err(Stuck::MissingKey { depth: 0 })
    );
}

#[test]
fn a_value_on_the_way_that_is_no_object_is_an_error() {
    let mut body = object(vec![("a", whole(1))]);
    assert_eq!(
        skip_fields(&mut body, &paths(&["a.b"])),
        Err(RedactError { field: 0, stuck: Stuck::NotAnObject { depth: 1 } })
    );
    let mut body = Json::Array(vec![]);
    assert_eq!(
        skip_fields(&mut body, &paths(&["a.b"])),
        Err(RedactError { field: 0, stuck: Stuck::NotAnObject { depth: 0 } })
    );
    let mut body = object(vec![("a", object(vec![("b", text("x"))]))]);
    assert_eq!(
        skip_fields(&mut body, &paths(&["a.b.c.d"])),
        Err(RedactError { field: 0, stuck: Stuck::NotAnObject { depth: 2 } })
    );
}

#[test]
fn the_fields_before_a_bad_one_are_redacted_and_the_error_names_it() {
    let mut body = object(vec![
        ("ip", text("1.2.3.4")),
        ("a", object(vec![("b", whole(1))])),
        ("t", whole(99)),
    ]);
    assert_eq!(
        skip_fields(&mut body, &paths(&["ip", "a.b", "q.r", "t"])),
        Err(RedactError { field: 2, stuck: Stuck::MissingKey { depth: 0 } })
    );
    assert_eq!(
        body,
        object(vec![("ip", text("")), ("a", object(vec![])), ("t", whole(99))])
    );
}

#[test]
fn an_absent_last_key_is_no_error() {
    let mut body = object(vec![("a", object(vec![("c", whole(2))]))]);
    assert_eq!(skip_fields(&mut body, &paths(&["a.b"])), Ok(()));
    assert_eq!(body, object(vec![("a", object(vec![("c", whole(2))]))]));
}

#[test]
fn redacting_twice_gives_the_same_body() {
    let fields = paths(&["ip", "meta.time", "meta.trace.id", "count"]);
    let mut body = object(vec![
        ("ip", text("1.2.3.4")),
        ("count", whole(7)),
        (
            "meta",
            object(vec![
                ("time", text("now")),
                ("trace", object(vec![("id", whole(5)), ("kind", text("k"))])),
            ]),
        ),
    ]);
    assert_eq!(skip_fields(&mut body, &fields), Ok(()));
    let once = body.clone();
    assert_eq!(
        once,
        object(vec![
            ("ip", text("")),
            ("count", whole(0)),
            ("meta", object(vec![("trace", object(vec![("kind", text("k"))]))])),
        ])
    );
    assert_eq!(skip_fields(&mut body, &fields), Ok(()));
    assert_eq!(body, once);
}

#[test]
fn a_second_pass_fails_where_a_later_field_took_the_way_of_an_earlier() {
    let fields = paths(&["a.b.c", "a.b"]);
    let mut body = object(vec![("a", object(vec![("b", object(vec![("c", whole(1))]))]))]);
    assert_eq!(skip_fields(&mut body, &fields), Ok(()));
    assert_eq!(body, object(vec![("a", object(vec![]))]));
    assert_eq!(
        skip_fields(&mut body, &fields),
        Err(RedactError { field: 0, stuck: Stuck::MissingKey { depth: 1 } })
    );
}

#[test]
fn remove_path_walks_from_the_given_depth() {
    let path: Vec<String> = vec!["x".into(), "a".into(), "b".into()];
    let mut v = object(vec![("a", object(vec![("b", whole(1)), ("c", whole(2))]))]);
    assert_eq!(remove_path(&mut v, &path, 1), Ok(()));
    assert_eq!(v, object(vec![("a", object(vec![("c", whole(2))]))]));
    let mut v = whole(3);
    assert_eq!(remove_path(&mut v, &path, 2), Err(Stuck::NotAnObject { depth: 2 }));
}

#[test]
fn every_member_of_the_name_goes() {
    let mut members = vec![
        Member { key: "a".into(), value: whole(1) },
        Member { key: "b".into(), value: whole(2) },
        Member { key: "a".into(), value: whole(3) },
    ];
    remove_members(&mut members, "a");
    assert_eq!(Json::Object(members), object(vec![("b", whole(2))]));
    let mut body = object(vec![("k", Json::Bool(true)), ("k", whole(4)), ("z", Json::Null)]);
    neutralize_field(&mut body, "k");
    assert_eq!(body, object(vec![("k", Json::Bool(false)), ("k", whole(0)), ("z", Json::Null)]));
}

#[test]
fn deep_equality_tells_values_apart() {
    assert_eq!(whole(1), whole(1));
    assert_ne!(whole(1), Json::Number(Number::NegInt(1)));
    assert_ne!(whole(1), Json::Number(Number::Float(1.0f64.to_bits())));
    assert_ne!(text("a"), text("b"));
    assert_ne!(Json::Null, Json::Bool(false));
    assert_ne!(Json::Array(vec![whole(1)]), Json::Array(vec![whole(1), whole(1)]));
    assert_ne!(Json::Array(vec![whole(1)]), Json::Array(vec![whole(2)]));
    assert_ne!(object(vec![("a", whole(1))]), object(vec![("b", whole(1))]));
    assert_ne!(object(vec![("a", whole(1))]), object(vec![("a", whole(2))]));
    assert_ne!(object(vec![]), Json::Array(vec![]));
    let deep = object(vec![("a", Json::Array(vec![object(vec![("b", text("c"))]), Json::Null]))]);
    assert_eq!(deep.clone(), deep);
    assert!(deep.same(&deep.clone()));
    assert!(Number::Float(7).same(&Number::Float(7)));
    assert!(!Number::PosInt(7).same(&Number::Float(7)));
}
