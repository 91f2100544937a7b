use rigor::json::{Json, Member, Number};
use rigor::redact::{RedactError, Stuck};
use rigor::request::{
    check_headers, join_url, parse_method, plan, plan_with, record, Method, RunError,
};
use rigor::strmap::StringMap;
use rigor::suite::TestCase;

fn case(name: &str, method: &str, route: &str) -> TestCase {
    TestCase {
        name: name.to_string(),
        route: route.to_string(),
        method: method.to_string(),
        payload: None,
        headers: None,
        expected_status_code: None,
        skip_payload_fields: None,
    }
}

fn headers(pairs: &[(&str, &str)]) -> StringMap {
    let mut m = StringMap::new();
    for (k, v) in pairs {
        m.insert(k.to_string(), v.to_string());
    }
    m
}

#[test]
fn the_seven_verbs_are_read_and_nothing_else() {
    assert_eq!(parse_method("GET"), Some(Method::Get));
    assert_eq!(parse_method("POST"), Some(Method::Post));
    assert_eq!(parse_method("PUT"), Some(Method::Put));
    assert_eq!(parse_method("PATCH"), Some(Method::Patch));
    assert_eq!(parse_method("DELETE"), Some(Method::Delete));
    assert_eq!(parse_method("HEAD"), Some(Method::Head));
    assert_eq!(parse_method("TRACE"), Some(Method::Trace));
    assert_eq!(parse_method("get"), None);
    assert_eq!(parse_method("OPTIONS"), None);
    assert_eq!(parse_method("CONNECT"), None);
    assert_eq!(parse_method(""), None);
    assert_eq!(parse_method("GET "), None);
    for m in [
        Method::Get,
        Method::Post,
        Method::Put,
        Method::Patch,
        Method::Delete,
        Method::Head,
        Method::Trace,
    ] {
        assert_eq!(parse_method(&m.name()), Some(m));
    }
    assert_eq!(Method::Delete.name(), "DELETE");
}

#[test]
fn the_url_is_the_endpoint_with_the_route_appended() {
    assert_eq!(join_url("http://h:1", "/a/b?c=d"), "http://h:1/a/b?c=d");
    assert_eq!(join_url("http://h/", "/x"), "http://h//x");
    assert_eq!(join_url("", ""), "");
}

#[test]
fn a_good_test_case_gives_its_request() {
    let mut c = case("greet", "POST", "/api/greet");
    c.payload = Some(Json::Object(vec![Member {
        key: "message".into(),
        value: Json::String("hi".into()),
    }]));
    c.headers = Some(headers(&[("Content-Type", "application/json"), ("X-Tab", "a\tb")]));
    let r = plan(&c, "http://localhost:8080", 3).expect("a request");
    assert_eq!(r.name, "greet");
    assert_eq!(r.method, Method::Post);
    assert_eq!(r.url, "http://localhost:8080/api/greet");
    assert_eq!(r.payload, c.payload);
    let h = r.headers.expect("headers");
    assert_eq!(h.len(), 2);
    assert_eq!(h.key_at(0), "Content-Type");
    assert_eq!(h.value_at(0), "application/json");
    assert_eq!(h.value_at(1), "a\tb");
}

#[test]
fn an_unknown_method_is_refused_first() {
    let mut c = case("t", "FETCH", "/x");
    c.headers = Some(headers(&[("bad name", "v")]));
    assert_eq!(plan(&c, "not a url", 5).err(), Some(RunError::InvalidMethod { test: 5 }));
}

#[test]
fn what_is_no_url_is_refused() {
    let c = case("t", "GET", "/x");
    assert_eq!(plan(&c, "not a url", 2).err(), Some(RunError::InvalidUrl { test: 2 }));
    assert_eq!(plan(&c, "", 0).err(), Some(RunError::InvalidUrl { test: 0 }));
    assert_eq!(plan(&c, "${RIGOR_ENDPOINT}", 0).err(), Some(RunError::InvalidUrl { test: 0 }));
    assert!(plan(&c, "http://example.org", 0).is_ok());
    assert!(plan(&c, "https://example.org:8443/base", 0).is_ok());
}

#[test]
fn the_verdict_on_the_url_decides_as_it_is_given() {
    let c = case("t", "GET", "/x");
    assert_eq!(plan_with(&c, "http://h", 1, false).err(), Some(RunError::InvalidUrl { test: 1 }));
    let r = plan_with(&c, "anything", 1, true).expect("a request");
    assert_eq!(r.url, "anything/x");
    assert_eq!(r.method, Method::Get);
    assert!(r.headers.is_none());
    assert!(r.payload.is_none());
}

#[test]
fn a_header_name_that_is_no_token_is_refused() {
    let mut c = case("t", "GET", "/x");
    c.headers = Some(headers(&[("Accept", "a"), ("bad name", "v"), ("also bad\n", "v")]));
    assert_eq!(
        plan(&c, "http://h", 4).err(),
        Some(RunError::InvalidHeaderName { test: 4, header: 1 })
    );
    for bad in ["", "a b", "a:b", "a(b", "naïve", "a\"b", "a/b", "a@b", "a[b", "a{b", "a=b", "a,b", "a;b", "a<b", "a\\b", "a?b", "a\u{7f}", "\t"] {
        assert_eq!(
            check_headers(&headers(&[(bad, "v")]), 0),
            Some(RunError::InvalidHeaderName { test: 0, header: 0 }),
            "{bad:?}"
        );
    }
    for good in ["a", "Content-Type", "x_y.z", "!#$%&'*+-.^_`|~", "0", "AZaz09"] {
        assert_eq!(check_headers(&headers(&[(good, "v")]), 0), None, "{good:?}");
    }
    let longest = "a".repeat(65535);
    assert_eq!(check_headers(&headers(&[(longest.as_str(), "v")]), 0), None);
    let too_long = "a".repeat(65536);
    assert_eq!(
        check_headers(&headers(&[(too_long.as_str(), "v")]), 9),
        Some(RunError::InvalidHeaderName { test: 9, header: 0 })
    );
}

#[test]
fn a_header_value_with_a_control_byte_is_refused() {
    let mut c = case("t", "GET", "/x");
    c.headers = Some(headers(&[("A", "fine"), ("B", "line\nbreak")]));
    assert_eq!(
        plan(&c, "http://h", 1).err(),
        Some(RunError::InvalidHeaderValue { test: 1, header: 1 })
    );
    for bad in ["\n", "a\rb", "\u{0}", "\u{1f}", "a\u{7f}"] {
        assert_eq!(
            check_headers(&headers(&[("A", bad)]), 2),
            Some(RunError::InvalidHeaderValue { test: 2, header: 0 }),
            "{bad:?}"
        );
    }
    for good in ["", " ", "\t", "plain", "ünïcödé", "~", "a b\tc"] {
        assert_eq!(check_headers(&headers(&[("A", good)]), 2), None, "{good:?}");
    }
    assert_eq!(check_headers(&StringMap::new(), 0), None);
}

#[test]
fn the_name_of_a_header_is_looked_at_before_its_value() {
    assert_eq!(
        check_headers(&headers(&[("ok", "v"), ("bad name", "bad\nvalue")]), 7),
        Some(RunError::InvalidHeaderName { test: 7, header: 1 })
    );
    assert_eq!(
        check_headers(&headers(&[("ok", "bad\nvalue"), ("bad name", "v")]), 7),
        Some(RunError::InvalidHeaderValue { test: 7, header: 0 })
    );
}

#[test]
fn a_response_becomes_an_output() {
    let mut c = case("health", "GET", "/health");
    c.expected_status_code = Some(200);
    c.skip_payload_fields = Some(vec!["ip".to_string()]);
    let body = Json::Object(vec![
        Member { key: "status".into(), value: Json::String("ok".into()) },
        Member { key: "ip".into(), value: Json::String("1.2.3.4".into()) },
    ]);
    let o = record(&c, 0, "http://h/health", 200, Some(body)).expect("an output");
    assert_eq!(o.name, "health");
    assert_eq!(o.method_str, "GET");
    assert_eq!(o.endpoint, "http://h/health");
    assert_eq!(o.status_code, 200);
    assert_eq!(o.request_payload, None);
    assert_eq!(
        o.response_body,
        Some(Json::Object(vec![
            Member { key: "status".into(), value: Json::String("ok".into()) },
            Member { key: "ip".into(), value: Json::String("".into()) },
        ]))
    );
}

#[test]
fn a_response_without_a_body_is_kept_without_one() {
    let mut c = case("t", "DELETE", "/x");
    c.payload = Some(Json::Number(Number::PosInt(3)));
    c.skip_payload_fields = Some(vec!["a.b".to_string()]);
    let o = record(&c, 0, "http://h/x", 204, None).expect("an output");
    assert_eq!(o.status_code, 204);
    assert_eq!(o.response_body, None);
    assert_eq!(o.request_payload, Some(Json::Number(Number::PosInt(3))));
}

#[test]
fn a_wrong_status_is_refused_before_the_body_is_read() {
    let mut c = case("t", "GET", "/x");
    c.expected_status_code = Some(200);
    c.skip_payload_fields = Some(vec!["a.b".to_string()]);
    assert_eq!(
        record(&c, 6, "u", 500, Some(Json::Null)).err(),
        Some(RunError::StatusMismatch { test: 6, expected: 200, actual: 500 })
    );
}

#[test]
fn any_status_is_taken_where_none_is_expected() {
    let c = case("t", "GET", "/x");
    assert_eq!(record(&c, 0, "u", 503, None).map(|o| o.status_code).ok(), Some(503));
}

#[test]
fn a_field_that_does_not_fit_the_body_is_refused() {
    let mut c = case("t", "GET", "/x");
    c.skip_payload_fields = Some(vec!["ok".to_string(), "a.b".to_string()]);
    assert_eq!(
        record(&c, 2, "u", 200, Some(Json::Array(vec![]))).err(),
        Some(RunError::Redaction {
            test: 2,
            error: RedactError { field: 1, stuck: Stuck::NotAnObject { depth: 0 } }
        })
    );
}
