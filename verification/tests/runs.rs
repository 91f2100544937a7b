use rigor::compare::Cause;
use rigor::json::{Json, Member};
use rigor::redact::{RedactError, Stuck};
use rigor::request::{Method, RunError};
use rigor::run::{Action, Event, Run, Stage};
use rigor::snapshot::Snapshot;
use rigor::strmap::StringMap;
use rigor::suite::{Rigor, TestCase};

fn text(s: &str) -> Json {
    Json::String(s.to_string())
}

fn object(members: Vec<(&str, Json)>) -> Json {
    Json::Object(
        members
            .into_iter()
            .map(|(k, v)| Member { key: k.to_string(), value: v })
            .collect(),
    )
}

fn health_suite() -> Rigor {
    Rigor {
        tests: vec![TestCase {
            name: "health".to_string(),
            route: "/health".to_string(),
            method: "GET".to_string(),
            payload: None,
            headers: None,
            expected_status_code: Some(200),
            skip_payload_fields: Some(vec!["ip".to_string()]),
        }],
        endpoint: "http://localhost:9000".to_string(),
        use_env: false,
    }
}

fn case(name: &str, method: &str, route: &str) -> TestCase {
    TestCase {
        name: name.to_string(),
        route: route.to_string(),
        method: method.to_string(),
        payload: None,
        headers: None,
        expected_status_code: None,
        skip_payload_fields: None,
    }
}

fn health_body() -> Json {
    object(vec![("status", text("ok")), ("ip", text("1.2.3.4"))])
}

fn first_run() -> Snapshot {
    let mut run = Run::load(health_suite(), None, false);
    assert!(matches!(run.advance(Event::Environment(StringMap::new())), Action::Send(_)));
    match run.advance(Event::Response { status: 200, body: Some(health_body()) }) {
        Action::Store(snapshot) => snapshot,
        other => panic!("unexpected {other:?}"),
    }
}

#[test]
fn a_first_run_gives_the_snapshot_to_store() {
    let mut run = Run::load(health_suite(), None, false);
    assert_eq!(run.stage(), Stage::Loaded);
    match run.advance(Event::Environment(StringMap::new())) {
        Action::Send(request) => {
            assert_eq!(request.name, "health");
            assert_eq!(request.method, Method::Get);
            assert_eq!(request.url, "http://localhost:9000/health");
            assert!(request.payload.is_none());
            assert!(request.headers.is_none());
        }
        other => panic!("unexpected {other:?}"),
    }
    assert_eq!(run.stage(), Stage::Executing);
    assert_eq!(run.next(), 0);
    let stored = match run.advance(Event::Response { status: 200, body: Some(health_body()) }) {
        Action::Store(snapshot) => snapshot,
        other => panic!("unexpected {other:?}"),
    };
    assert_eq!(run.stage(), Stage::Baselined);
    assert_eq!(run.next(), 1);
    assert_eq!(stored.len(), 1);
    let entry = stored.get("health").expect("the entry");
    assert_eq!(entry.status_code, 200);
    assert_eq!(entry.method_str, "GET");
    assert_eq!(entry.endpoint, "http://localhost:9000/health");
    assert_eq!(entry.request_payload, None);
    assert_eq!(
        entry.response_body,
        Some(object(vec![("status", text("ok")), ("ip", text(""))]))
    );
    assert_eq!(run.snapshot().len(), 1);
}

#[test]
fn a_second_identical_run_passes() {
    let stored = first_run();
    let mut run = Run::load(health_suite(), Some(stored), false);
    assert!(matches!(run.advance(Event::Environment(StringMap::new())), Action::Send(_)));
    let body = object(vec![("status", text("ok")), ("ip", text("9.9.9.9"))]);
    assert!(matches!(run.advance(Event::Response { status: 200, body: Some(body) }), Action::Pass));
    assert_eq!(run.stage(), Stage::Compared);
}

#[test]
fn a_second_run_with_status_500_is_given_up_before_any_diff() {
    let stored = first_run();
    let mut run = Run::load(health_suite(), Some(stored), false);
    assert!(matches!(run.advance(Event::Environment(StringMap::new())), Action::Send(_)));
    match run.advance(Event::Response { status: 500, body: Some(health_body()) }) {
        Action::Abort(e) => {
            assert_eq!(e, RunError::StatusMismatch { test: 0, expected: 200, actual: 500 })
        }
        other => panic!("unexpected {other:?}"),
    }
    assert_eq!(run.stage(), Stage::Failed);
    assert_eq!(run.snapshot().len(), 0);
    assert!(matches!(run.advance(Event::Response { status: 200, body: None }), Action::Idle));
    assert_eq!(run.stage(), Stage::Failed);
}

#[test]
fn a_changed_body_is_reported() {
    let stored = first_run();
    let mut run = Run::load(health_suite(), Some(stored), false);
    run.advance(Event::Environment(StringMap::new()));
    let body = object(vec![("status", text("down")), ("ip", text("1.2.3.4"))]);
    match run.advance(Event::Response { status: 200, body: Some(body) }) {
        Action::Report(diff) => {
            assert_eq!(diff.diffs.len(), 1);
            assert_eq!(diff.diffs[0].name, "health");
            assert_eq!(diff.diffs[0].cause, Cause::BodyMismatch);
        }
        other => panic!("unexpected {other:?}"),
    }
    assert_eq!(run.stage(), Stage::Compared);
}

#[test]
fn overwriting_starts_from_a_fresh_baseline() {
    let stored = first_run();
    let mut run = Run::load(health_suite(), Some(stored), true);
    run.advance(Event::Environment(StringMap::new()));
    let body = object(vec![("status", text("down"))]);
    match run.advance(Event::Response { status: 200, body: Some(body) }) {
        Action::Store(snapshot) => {
            assert_eq!(
                snapshot.get("health").and_then(|o| o.response_body.clone()),
                Some(object(vec![("status", text("down"))]))
            );
        }
        other => panic!("unexpected {other:?}"),
    }
    assert_eq!(run.stage(), Stage::Baselined);
}

#[test]
fn requests_are_asked_for_one_at_a_time_in_the_order_of_the_suite() {
    let suite = Rigor {
        tests: vec![case("one", "GET", "/1"), case("two", "POST", "/2"), case("three", "HEAD", "/3")],
        endpoint: "http://h".to_string(),
        use_env: false,
    };
    let mut run = Run::load(suite, None, false);
    let mut urls = Vec::new();
    let mut action = run.advance(Event::Environment(StringMap::new()));
    let mut step = 0;
    let stored = loop {
        match action {
            Action::Send(request) => {
                assert_eq!(run.next(), step);
                urls.push(request.url);
                step += 1;
                action = run.advance(Event::Response { status: 200 + step as u16, body: None });
            }
            Action::Store(snapshot) => break snapshot,
            other => panic!("unexpected {other:?}"),
        }
    };
    assert_eq!(urls, vec!["http://h/1", "http://h/2", "http://h/3"]);
    assert_eq!(stored.len(), 3);
    assert_eq!(stored.output_at(0).name, "one");
    assert_eq!(stored.output_at(1).status_code, 202);
    assert_eq!(stored.output_at(2).method_str, "HEAD");
}

#[test]
fn a_transport_failure_ends_the_run_and_skips_the_rest() {
    let suite = Rigor {
        tests: vec![case("one", "GET", "/1"), case("two", "GET", "/2")],
        endpoint: "http://h".to_string(),
        use_env: false,
    };
    let mut run = Run::load(suite, None, false);
    run.advance(Event::Environment(StringMap::new()));
    assert!(matches!(run.advance(Event::Response { status: 200, body: None }), Action::Send(_)));
    match run.advance(Event::TransportFailure) {
        Action::Abort(e) => assert_eq!(e, RunError::Transport { test: 1 }),
        other => panic!("unexpected {other:?}"),
    }
    assert_eq!(run.stage(), Stage::Failed);
    assert_eq!(run.snapshot().len(), 1);
    assert!(matches!(run.advance(Event::TransportFailure), Action::Idle));
    assert!(matches!(run.advance(Event::Environment(StringMap::new())), Action::Idle));
}

#[test]
fn a_bad_test_case_ends_the_run_when_its_turn_comes() {
    let suite = Rigor {
        tests: vec![case("one", "GET", "/1"), case("two", "FETCH", "/2")],
        endpoint: "http://h".to_string(),
        use_env: false,
    };
    let mut run = Run::load(suite, None, false);
    assert!(matches!(run.advance(Event::Environment(StringMap::new())), Action::Send(_)));
    match run.advance(Event::Response { status: 200, body: None }) {
        Action::Abort(e) => assert_eq!(e, RunError::InvalidMethod { test: 1 }),
        other => panic!("unexpected {other:?}"),
    }
    assert_eq!(run.stage(), Stage::Failed);
}

#[test]
fn an_endpoint_that_is_no_url_ends_the_run_at_once() {
    let mut suite = health_suite();
    suite.endpoint = "${RIGOR_ENDPOINT}".to_string();
    let mut run = Run::load(suite, None, false);
    match run.advance(Event::Environment(StringMap::new())) {
        Action::Abort(e) => assert_eq!(e, RunError::InvalidUrl { test: 0 }),
        other => panic!("unexpected {other:?}"),
    }
    assert_eq!(run.stage(), Stage::Failed);
}

#[test]
fn a_redaction_that_does_not_fit_ends_the_run() {
    let mut suite = health_suite();
    suite.tests[0].skip_payload_fields = Some(vec!["meta.time".to_string()]);
    let mut run = Run::load(suite, None, false);
    run.advance(Event::Environment(StringMap::new()));
    match run.advance(Event::Response { status: 200, body: Some(health_body()) }) {
        Action::Abort(e) => assert_eq!(
            e,
            RunError::Redaction {
                test: 0,
                error: RedactError { field: 0, stuck: Stuck::MissingKey { depth: 0 } }
            }
        ),
        other => panic!("unexpected {other:?}"),
    }
    assert_eq!(run.stage(), Stage::Failed);
}

#[test]
fn an_empty_suite_ends_as_soon_as_it_starts() {
    let suite = Rigor { tests: vec![], endpoint: "http://h".to_string(), use_env: false };
    let mut run = Run::load(suite, None, false);
    match run.advance(Event::Environment(StringMap::new())) {
        Action::Store(snapshot) => assert_eq!(snapshot.len(), 0),
        other => panic!("unexpected {other:?}"),
    }
    assert_eq!(run.stage(), Stage::Baselined);
    let suite = Rigor { tests: vec![], endpoint: "http://h".to_string(), use_env: false };
    let mut run = Run::load(suite, Some(first_run()), false);
    match run.advance(Event::Environment(StringMap::new())) {
        Action::Report(diff) => {
            assert_eq!(diff.diffs.len(), 1);
            assert_eq!(diff.diffs[0].cause, Cause::MissingEntry);
        }
        other => panic!("unexpected {other:?}"),
    }
}

#[test]
fn events_that_are_not_awaited_change_nothing() {
    let mut run = Run::load(health_suite(), None, false);
    assert!(matches!(run.advance(Event::Response { status: 200, body: None }), Action::Idle));
    assert!(matches!(run.advance(Event::TransportFailure), Action::Idle));
    assert_eq!(run.stage(), Stage::Loaded);
    assert!(matches!(run.advance(Event::Environment(StringMap::new())), Action::Send(_)));
    assert!(matches!(run.advance(Event::Environment(StringMap::new())), Action::Idle));
    assert_eq!(run.stage(), Stage::Executing);
}

#[test]
fn the_environment_is_used_where_the_suite_asks_for_it() {
    let mut env = StringMap::new();
    env.insert("RIGOR_ENDPOINT".to_string(), "http://svc:81".to_string());
    env.insert("TOKEN".to_string(), "s3cr3t".to_string());
    let mut headers = StringMap::new();
    headers.insert("Authorization".to_string(), "Bearer ${TOKEN}".to_string());
    headers.insert("X-${TOKEN}".to_string(), "${NONE}x".to_string());
    let mut test = case("t", "GET", "/v/${TOKEN}");
    test.headers = Some(headers);
    test.payload = Some(text("${TOKEN}"));
    let suite = Rigor { tests: vec![test], endpoint: "${RIGOR_ENDPOINT}".to_string(), use_env: true };
    let mut run = Run::load(suite, None, false);
    match run.advance(Event::Environment(env)) {
        Action::Abort(e) => assert_eq!(e, RunError::InvalidHeaderName { test: 0, header: 1 }),
        other => panic!("unexpected {other:?}"),
    }
}

#[test]
fn names_that_come_twice_leave_one_entry_with_the_last_output() {
    let suite = Rigor {
        tests: vec![case("same", "GET", "/1"), case("same", "GET", "/2")],
        endpoint: "http://h".to_string(),
        use_env: false,
    };
    let mut run = Run::load(suite, None, false);
    run.advance(Event::Environment(StringMap::new()));
    run.advance(Event::Response { status: 200, body: None });
    match run.advance(Event::Response { status: 201, body: None }) {
        Action::Store(snapshot) => {
            assert_eq!(snapshot.len(), 1);
            assert_eq!(snapshot.output_at(0).endpoint, "http://h/2");
            assert_eq!(snapshot.output_at(0).status_code, 201);
        }
        other => panic!("unexpected {other:?}"),
    }
}
