use rigor::compare::{compare, Cause, Diff, Side};
use rigor::json::{Json, Member, Number};
use rigor::snapshot::{clone_optional, same_optional, Output, Snapshot};

fn body_of(key: &str, value: &str) -> Json {
    Json::Object(vec![Member { key: key.to_string(), value: Json::String(value.to_string()) }])
}

fn output(name: &str, status: u16) -> Output {
    Output {
        name: name.to_string(),
        method_str: "GET".to_string(),
        endpoint: format!("http://host/{name}"),
        status_code: status,
        request_payload: None,
        response_body: Some(body_of("status", "ok")),
    }
}

fn snapshot_of(outputs: Vec<Output>) -> Snapshot {
    Snapshot::from_outputs(outputs)
}

fn names(s: &Snapshot) -> Vec<String> {
    (0..s.len()).map(|i| s.output_at(i).name.clone()).collect()
}

#[test]
fn the_last_write_wins_and_the_first_place_stays() {
    let mut s = Snapshot::new();
    s.insert(output("a", 200));
    s.insert(output("b", 200));
    s.insert(output("a", 404));
    assert_eq!(s.len(), 2);
    assert_eq!(names(&s), vec!["a", "b"]);
    assert_eq!(s.get("a").map(|o| o.status_code), Some(404));
    assert_eq!(s.get("b").map(|o| o.status_code), Some(200));
    assert!(s.get("c").is_none());
    assert_eq!(s.position("b"), 1);
    assert_eq!(s.position("c"), 2);
}

#[test]
fn listing_the_outputs_and_collecting_them_again_gives_the_same_snapshot() {
    let s = snapshot_of(vec![output("x", 200), output("y", 201), output("z", 500)]);
    let again = Snapshot::from_outputs(s.outputs());
    assert_eq!(names(&again), names(&s));
    assert!(compare(&s, &again).is_empty());
    assert!(compare(&again, &s).is_empty());
    let copy = s.clone();
    assert_eq!(names(&copy), vec!["x", "y", "z"]);
    assert_eq!(copy.output_at(2).status_code, 500);
}

#[test]
fn collecting_drops_earlier_outputs_of_a_name() {
    let s = snapshot_of(vec![output("x", 200), output("y", 201), output("x", 500)]);
    assert_eq!(names(&s), vec!["x", "y"]);
    assert_eq!(s.output_at(0).status_code, 500);
}

#[test]
fn outputs_are_the_same_entry_by_name_alone() {
    assert!(output("a", 200).same_entry(&output("a", 500)));
    assert!(!output("a", 200).same_entry(&output("b", 200)));
    let o = output("a", 200);
    let c = o.clone();
    assert_eq!(c.name, "a");
    assert_eq!(c.method_str, "GET");
    assert_eq!(c.endpoint, "http://host/a");
    assert_eq!(c.status_code, 200);
    assert_eq!(c.request_payload, None);
    assert_eq!(c.response_body, Some(body_of("status", "ok")));
}

#[test]
fn optional_values_are_compared_and_copied() {
    let a = Some(body_of("k", "v"));
    assert!(same_optional(&a, &Some(body_of("k", "v"))));
    assert!(!same_optional(&a, &Some(body_of("k", "w"))));
    assert!(!same_optional(&a, &None));
    assert!(!same_optional(&None, &a));
    assert!(same_optional(&None, &None));
    assert_eq!(clone_optional(&a), a);
    assert_eq!(clone_optional(&None), None);
}

#[test]
fn a_snapshot_compared_with_itself_gives_no_diff() {
    let s = snapshot_of(vec![output("x", 200), output("y", 201)]);
    let d = compare(&s, &s);
    assert!(d.is_empty());
    assert_eq!(d.diffs.len(), 0);
    assert!(compare(&Snapshot::new(), &Snapshot::new()).is_empty());
}

#[test]
fn the_order_of_entries_does_not_count() {
    let a = snapshot_of(vec![output("x", 200), output("y", 201)]);
    let b = snapshot_of(vec![output("y", 201), output("x", 200)]);
    assert!(compare(&a, &b).is_empty());
}

#[test]
fn a_changed_status_gives_exactly_one_status_mismatch() {
    let prior = snapshot_of(vec![output("x", 200), output("y", 201), output("z", 202)]);
    let run = snapshot_of(vec![output("x", 200), output("y", 500), output("z", 202)]);
    let d = compare(&prior, &run);
    assert_eq!(d.diffs.len(), 1);
    let diff = &d.diffs[0];
    assert_eq!(diff.name, "y");
    assert_eq!(diff.cause, Cause::StatusMismatch);
    assert_eq!(diff.cause.label(), "status mismatch");
    assert_eq!(diff.description, "the status code differs from the snapshot");
    assert!(matches!(diff.data.actual, Side::Status(500)));
    assert!(matches!(diff.data.expected, Side::Status(201)));
}

#[test]
fn a_changed_status_gives_one_diff_whatever_the_order_of_the_run() {
    let prior = snapshot_of(vec![output("x", 200), output("y", 201), output("z", 202)]);
    let run = snapshot_of(vec![output("z", 202), output("y", 404), output("x", 200)]);
    let d = compare(&prior, &run);
    assert_eq!(d.diffs.len(), 1);
    assert_eq!(d.diffs[0].name, "y");
    assert_eq!(d.diffs[0].cause, Cause::StatusMismatch);
    assert!(matches!(d.diffs[0].data.actual, Side::Status(404)));
    assert!(matches!(d.diffs[0].data.expected, Side::Status(201)));
}

#[test]
fn an_entry_that_only_the_run_has_is_reported_once_as_extra() {
    let prior = snapshot_of(vec![output("x", 200)]);
    let run = snapshot_of(vec![output("new", 200), output("x", 200)]);
    let d = compare(&prior, &run);
    assert_eq!(d.diffs.len(), 1);
    assert_eq!(d.diffs[0].name, "new");
    assert_eq!(d.diffs[0].cause, Cause::ExtraEntry);
    assert!(matches!(d.diffs[0].data.expected, Side::Absent));
    match &d.diffs[0].data.actual {
        Side::Entry(o) => assert_eq!(o.endpoint, "http://host/new"),
        other => panic!("unexpected {other:?}"),
    }
}

#[test]
fn an_entry_that_the_run_lacks_is_reported_once_as_missing() {
    let prior = snapshot_of(vec![output("x", 200), output("gone", 204)]);
    let run = snapshot_of(vec![output("x", 200)]);
    let d = compare(&prior, &run);
    assert_eq!(d.diffs.len(), 1);
    assert_eq!(d.diffs[0].name, "gone");
    assert_eq!(d.diffs[0].cause, Cause::MissingEntry);
    assert_eq!(d.diffs[0].description, "the snapshot has an entry that the run did not give");
    assert!(matches!(d.diffs[0].data.actual, Side::Absent));
    match &d.diffs[0].data.expected {
        Side::Entry(o) => assert_eq!(o.status_code, 204),
        other => panic!("unexpected {other:?}"),
    }
}

#[test]
fn every_field_that_differs_gives_its_own_diff_in_order() {
    let prior = snapshot_of(vec![output("x", 200)]);
    let run = snapshot_of(vec![Output {
        name: "x".to_string(),
        method_str: "POST".to_string(),
        endpoint: "http://other/x".to_string(),
        status_code: 201,
        request_payload: Some(Json::Number(Number::PosInt(1))),
        response_body: None,
    }]);
    let d = compare(&prior, &run);
    let causes: Vec<Cause> = d.diffs.iter().map(|x| x.cause).collect();
    assert_eq!(
        causes,
        vec![
            Cause::MethodMismatch,
            Cause::EndpointMismatch,
            Cause::StatusMismatch,
            Cause::PayloadMismatch,
            Cause::BodyMismatch,
        ]
    );
    assert!(d.diffs.iter().all(|x| x.name == "x"));
    match (&d.diffs[0].data.actual, &d.diffs[0].data.expected) {
        (Side::Text(a), Side::Text(e)) => {
            assert_eq!(a, "POST");
            assert_eq!(e, "GET");
        }
        other => panic!("unexpected {other:?}"),
    }
    match (&d.diffs[1].data.actual, &d.diffs[1].data.expected) {
        (Side::Text(a), Side::Text(e)) => {
            assert_eq!(a, "http://other/x");
            assert_eq!(e, "http://host/x");
        }
        other => panic!("unexpected {other:?}"),
    }
    match (&d.diffs[3].data.actual, &d.diffs[3].data.expected) {
        (Side::Value(a), Side::Value(e)) => {
            assert_eq!(a, &Some(Json::Number(Number::PosInt(1))));
            assert_eq!(e, &None);
        }
        other => panic!("unexpected {other:?}"),
    }
    match (&d.diffs[4].data.actual, &d.diffs[4].data.expected) {
        (Side::Value(a), Side::Value(e)) => {
            assert_eq!(a, &None);
            assert_eq!(e, &Some(body_of("status", "ok")));
        }
        other => panic!("unexpected {other:?}"),
    }
}

#[test]
fn stored_entries_come_first_and_extra_ones_after() {
    let prior = snapshot_of(vec![output("a", 200), output("b", 200), output("c", 200)]);
    let run = snapshot_of(vec![output("n1", 200), output("c", 201), output("n2", 200), output("a", 200)]);
    let d = compare(&prior, &run);
    let seen: Vec<(String, Cause)> = d.diffs.iter().map(|x| (x.name.clone(), x.cause)).collect();
    assert_eq!(
        seen,
        vec![
            ("b".to_string(), Cause::MissingEntry),
            ("c".to_string(), Cause::StatusMismatch),
            ("n1".to_string(), Cause::ExtraEntry),
            ("n2".to_string(), Cause::ExtraEntry),
        ]
    );
}

#[test]
fn causes_have_words() {
    let all = [
        (Cause::MethodMismatch, "method mismatch", "the method differs from the snapshot"),
        (Cause::EndpointMismatch, "endpoint mismatch", "the endpoint differs from the snapshot"),
        (Cause::StatusMismatch, "status mismatch", "the status code differs from the snapshot"),
        (Cause::PayloadMismatch, "payload mismatch", "the request payload differs from the snapshot"),
        (Cause::BodyMismatch, "body mismatch", "the response body differs from the snapshot"),
        (Cause::MissingEntry, "missing entry", "the snapshot has an entry that the run did not give"),
        (Cause::ExtraEntry, "extra entry", "the run gave an entry that the snapshot lacks"),
    ];
    for (cause, label, description) in all {
        assert_eq!(cause.label(), label);
        assert_eq!(cause.description(), description);
    }
    let d = Diff::new(&"n".to_string(), Cause::BodyMismatch, Side::Absent, Side::Status(3));
    assert_eq!(d.name, "n");
    assert_eq!(d.description, "the response body differs from the snapshot");
    assert_eq!(d.cause, Cause::BodyMismatch);
    assert!(matches!(d.data.actual, Side::Absent));
    assert!(matches!(d.data.expected, Side::Status(3)));
}
