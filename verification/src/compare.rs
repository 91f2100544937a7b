//! The comparator: what differs between a stored snapshot and the outputs of
//! a new run.
//!
//! Entries are matched by name. An entry of the stored snapshot that the run
//! lacks is reported as missing, one that only the run has as extra. Entries
//! that both have are compared field by field, and each field that differs
//! gives one diff. The diffs of the stored entries come first, in their
//! order, then the extra entries in the order of the run.

use vstd::prelude::*;
use vstd::string::*;
use crate::json::{Json, JsonView};
use crate::snapshot::{
    clone_optional, index_of_name, optional_view, same_optional, Output, OutputView, Snapshot,
};

verus! {

/// The kind of a difference.
#[derive(Copy, Clone, Debug, PartialEq, Eq, Structural)]
pub enum Cause {
    MethodMismatch,
    EndpointMismatch,
    StatusMismatch,
    PayloadMismatch,
    BodyMismatch,
    /// The stored snapshot has an entry that the run did not give.
    MissingEntry,
    /// The run gave an entry that the stored snapshot lacks.
    ExtraEntry,
}

/// What one side holds where the two differ.
#[derive(Debug)]
pub enum Side {
    /// This side has no entry of the name.
    Absent,
    Text(String),
    Status(u16),
    Value(Option<Json>),
    Entry(Output),
}

/// The mathematical value of a [`Side`].
pub enum SideView {
    Absent,
    Text(Seq<char>),
    Status(u16),
    Value(Option<JsonView>),
    Entry(OutputView),
}

/// What the run gave and what the stored snapshot holds.
#[derive(Debug)]
pub struct DiffData {
    pub actual: Side,
    pub expected: Side,
}

/// One difference between a run and the stored snapshot.
#[derive(Debug)]
pub struct Diff {
    /// The name of the entry that differs.
    pub name: String,
    /// Which field differs, in words.
    pub description: String,
    pub data: DiffData,
    pub cause: Cause,
}

/// The mathematical value of a [`Diff`].
pub struct DiffView {
    pub name: Seq<char>,
    pub description: Seq<char>,
    pub actual: SideView,
    pub expected: SideView,
    pub cause: Cause,
}

/// All the differences between a run and the stored snapshot, in order.
#[derive(Debug)]
pub struct SnapshotDiff {
    pub diffs: Vec<Diff>,
}

impl View for Side {
    type V = SideView;

    open spec fn view(&self) -> SideView {
        match self {
            Side::Absent => SideView::Absent,
            Side::Text(s) => SideView::Text(s@),
            Side::Status(c) => SideView::Status(*c),
            Side::Value(v) => SideView::Value(optional_view(*v)),
            Side::Entry(o) => SideView::Entry(o@),
        }
    }
}

impl View for Diff {
    type V = DiffView;

    open spec fn view(&self) -> DiffView {
        DiffView {
            name: self.name@,
            description: self.description@,
            actual: self.data.actual@,
            expected: self.data.expected@,
            cause: self.cause,
        }
    }
}

/// The views of a list of diffs, one by one.
pub open spec fn diffs_view(list: Seq<Diff>) -> Seq<DiffView> {
    Seq::new(list.len(), |i: int| list[i]@)
}

impl View for SnapshotDiff {
    type V = Seq<DiffView>;

    open spec fn view(&self) -> Seq<DiffView> {
        diffs_view(self.diffs@)
    }
}

/// The name of a cause, in words.
pub open spec fn label_of(cause: Cause) -> Seq<char> {
    match cause {
        Cause::MethodMismatch => "method mismatch"@,
        Cause::EndpointMismatch => "endpoint mismatch"@,
        Cause::StatusMismatch => "status mismatch"@,
        Cause::PayloadMismatch => "payload mismatch"@,
        Cause::BodyMismatch => "body mismatch"@,
        Cause::MissingEntry => "missing entry"@,
        Cause::ExtraEntry => "extra entry"@,
    }
}

/// What a diff of this cause says of the field that differs.
pub open spec fn description_of(cause: Cause) -> Seq<char> {
    match cause {
        Cause::MethodMismatch => "the method differs from the snapshot"@,
        Cause::EndpointMismatch => "the endpoint differs from the snapshot"@,
        Cause::StatusMismatch => "the status code differs from the snapshot"@,
        Cause::PayloadMismatch => "the request payload differs from the snapshot"@,
        Cause::BodyMismatch => "the response body differs from the snapshot"@,
        Cause::MissingEntry => "the snapshot has an entry that the run did not give"@,
        Cause::ExtraEntry => "the run gave an entry that the snapshot lacks"@,
    }
}

/// The diff of one field of the entry `name`.
pub open spec fn field_diff(name: Seq<char>, cause: Cause, actual: SideView, expected: SideView) -> DiffView {
    DiffView { name, description: description_of(cause), actual, expected, cause }
}

/// The diff of a stored entry that the run lacks.
pub open spec fn missing_entry(expected: OutputView) -> DiffView {
    field_diff(expected.name, Cause::MissingEntry, SideView::Absent, SideView::Entry(expected))
}

/// The diff of an entry that only the run has.
pub open spec fn extra_entry(actual: OutputView) -> DiffView {
    field_diff(actual.name, Cause::ExtraEntry, SideView::Entry(actual), SideView::Absent)
}

/// The diff of the method, where it differs.
pub open spec fn method_diffs(expected: OutputView, actual: OutputView) -> Seq<DiffView> {
    if expected.method_str != actual.method_str {
        seq![
            field_diff(
                expected.name,
                Cause::MethodMismatch,
                SideView::Text(actual.method_str),
                SideView::Text(expected.method_str),
            ),
        ]
    } else {
        Seq::empty()
    }
}

/// The diff of the endpoint, where it differs.
pub open spec fn endpoint_diffs(expected: OutputView, actual: OutputView) -> Seq<DiffView> {
    if expected.endpoint != actual.endpoint {
        seq![
            field_diff(
                expected.name,
                Cause::EndpointMismatch,
                SideView::Text(actual.endpoint),
                SideView::Text(expected.endpoint),
            ),
        ]
    } else {
        Seq::empty()
    }
}

/// The diff of the status code, where it differs.
pub open spec fn status_diffs(expected: OutputView, actual: OutputView) -> Seq<DiffView> {
    if expected.status_code != actual.status_code {
        seq![
            field_diff(
                expected.name,
                Cause::StatusMismatch,
                SideView::Status(actual.status_code),
                SideView::Status(expected.status_code),
            ),
        ]
    } else {
        Seq::empty()
    }
}

/// The diff of the request payload, where it differs.
pub open spec fn payload_diffs(expected: OutputView, actual: OutputView) -> Seq<DiffView> {
    if expected.request_payload != actual.request_payload {
        seq![
            field_diff(
                expected.name,
                Cause::PayloadMismatch,
                SideView::Value(actual.request_payload),
                SideView::Value(expected.request_payload),
            ),
        ]
    } else {
        Seq::empty()
    }
}

/// The diff of the response body, where it differs.
pub open spec fn body_diffs(expected: OutputView, actual: OutputView) -> Seq<DiffView> {
    if expected.response_body != actual.response_body {
        seq![
            field_diff(
                expected.name,
                Cause::BodyMismatch,
                SideView::Value(actual.response_body),
                SideView::Value(expected.response_body),
            ),
        ]
    } else {
        Seq::empty()
    }
}

/// The diffs of two entries of the same name: one for each field that
/// differs, in the order method, endpoint, status code, request payload,
/// response body.
pub open spec fn field_diffs(expected: OutputView, actual: OutputView) -> Seq<DiffView> {
    method_diffs(expected, actual) + endpoint_diffs(expected, actual) + status_diffs(
        expected,
        actual,
    ) + payload_diffs(expected, actual) + body_diffs(expected, actual)
}

/// The diffs that one stored entry gives against the run.
pub open spec fn entry_diffs(expected: OutputView, candidate: Seq<OutputView>) -> Seq<DiffView> {
    let at = index_of_name(candidate, expected.name);
    if 0 <= at < candidate.len() {
        field_diffs(expected, candidate[at])
    } else {
        seq![missing_entry(expected)]
    }
}

/// The diffs that the first `n` stored entries give against the run.
pub open spec fn stored_diffs(prior: Seq<OutputView>, candidate: Seq<OutputView>, n: nat) -> Seq<
    DiffView,
>
    decreases n,
{
    if n == 0 {
        Seq::empty()
    } else {
        stored_diffs(prior, candidate, (n - 1) as nat) + entry_diffs(prior[n - 1], candidate)
    }
}

/// The diff that one entry of the run gives where the stored snapshot lacks
/// its name.
pub open spec fn extra_diffs(prior: Seq<OutputView>, actual: OutputView) -> Seq<DiffView> {
    let at = index_of_name(prior, actual.name);
    if 0 <= at < prior.len() {
        Seq::empty()
    } else {
        seq![extra_entry(actual)]
    }
}

/// The diffs of the first `n` entries of the run that the stored snapshot
/// lacks.
pub open spec fn added_diffs(prior: Seq<OutputView>, candidate: Seq<OutputView>, n: nat) -> Seq<
    DiffView,
>
    decreases n,
{
    if n == 0 {
        Seq::empty()
    } else {
        added_diffs(prior, candidate, (n - 1) as nat) + extra_diffs(prior, candidate[n - 1])
    }
}

/// All the diffs between the stored entries `prior` and those of the run,
/// `candidate`.
pub open spec fn compared(prior: Seq<OutputView>, candidate: Seq<OutputView>) -> Seq<DiffView> {
    stored_diffs(prior, candidate, prior.len()) + added_diffs(prior, candidate, candidate.len())
}

impl Cause {
    /// The name of the cause, in words.
    pub fn label(&self) -> (s: String)
        ensures
            s@ == label_of(*self),
    {
        match self {
            Cause::MethodMismatch => "method mismatch".to_owned(),
            Cause::EndpointMismatch => "endpoint mismatch".to_owned(),
            Cause::StatusMismatch => "status mismatch".to_owned(),
            Cause::PayloadMismatch => "payload mismatch".to_owned(),
            Cause::BodyMismatch => "body mismatch".to_owned(),
            Cause::MissingEntry => "missing entry".to_owned(),
            Cause::ExtraEntry => "extra entry".to_owned(),
        }
    }

    /// What a diff of this cause says of the field that differs.
    pub fn description(&self) -> (s: String)
        ensures
            s@ == description_of(*self),
    {
        match self {
            Cause::MethodMismatch => "the method differs from the snapshot".to_owned(),
            Cause::EndpointMismatch => "the endpoint differs from the snapshot".to_owned(),
            Cause::StatusMismatch => "the status code differs from the snapshot".to_owned(),
            Cause::PayloadMismatch => "the request payload differs from the snapshot".to_owned(),
            Cause::BodyMismatch => "the response body differs from the snapshot".to_owned(),
            Cause::MissingEntry => "the snapshot has an entry that the run did not give".to_owned(),
            Cause::ExtraEntry => "the run gave an entry that the snapshot lacks".to_owned(),
        }
    }
}

impl Diff {
    /// The diff of the entry `name` for `cause`, with what each side holds.
    pub fn new(name: &String, cause: Cause, actual: Side, expected: Side) -> (d: Diff)
        ensures
            d@ == field_diff(name@, cause, actual@, expected@),
    {
        Diff {
            name: name.clone(),
            description: cause.description(),
            data: DiffData { actual, expected },
            cause,
        }
    }
}

/// Appends the diffs of two entries of the same name.
pub fn push_field_diffs(out: &mut Vec<Diff>, expected: &Output, actual: &Output)
    ensures
        diffs_view(final(out)@) == diffs_view(old(out)@) + field_diffs(expected@, actual@),
{
    let ghost start = diffs_view(out@);
    if expected.method_str != actual.method_str {
        let ghost before = diffs_view(out@);
        out.push(
            Diff::new(
                &expected.name,
                Cause::MethodMismatch,
                Side::Text(actual.method_str.clone()),
                Side::Text(expected.method_str.clone()),
            ),
        );
        assert(diffs_view(out@) =~= before + method_diffs(expected@, actual@));
    }
    assert(diffs_view(out@) =~= start + method_diffs(expected@, actual@));
    if expected.endpoint != actual.endpoint {
        let ghost before = diffs_view(out@);
        out.push(
            Diff::new(
                &expected.name,
                Cause::EndpointMismatch,
                Side::Text(actual.endpoint.clone()),
                Side::Text(expected.endpoint.clone()),
            ),
        );
        assert(diffs_view(out@) =~= before + endpoint_diffs(expected@, actual@));
    }
    assert(diffs_view(out@) =~= start + method_diffs(expected@, actual@) + endpoint_diffs(
        expected@,
        actual@,
    ));
    if expected.status_code != actual.status_code {
        let ghost before = diffs_view(out@);
        out.push(
            Diff::new(
                &expected.name,
                Cause::StatusMismatch,
                Side::Status(actual.status_code),
                Side::Status(expected.status_code),
            ),
        );
        assert(diffs_view(out@) =~= before + status_diffs(expected@, actual@));
    }
    assert(diffs_view(out@) =~= start + method_diffs(expected@, actual@) + endpoint_diffs(
        expected@,
        actual@,
    ) + status_diffs(expected@, actual@));
    if !same_optional(&expected.request_payload, &actual.request_payload) {
        let ghost before = diffs_view(out@);
        out.push(
            Diff::new(
                &expected.name,
                Cause::PayloadMismatch,
                Side::Value(clone_optional(&actual.request_payload)),
                Side::Value(clone_optional(&expected.request_payload)),
            ),
        );
        assert(diffs_view(out@) =~= before + payload_diffs(expected@, actual@));
    }
    assert(diffs_view(out@) =~= start + method_diffs(expected@, actual@) + endpoint_diffs(
        expected@,
        actual@,
    ) + status_diffs(expected@, actual@) + payload_diffs(expected@, actual@));
    if !same_optional(&expected.response_body, &actual.response_body) {
        let ghost before = diffs_view(out@);
        out.push(
            Diff::new(
                &expected.name,
                Cause::BodyMismatch,
                Side::Value(clone_optional(&actual.response_body)),
                Side::Value(clone_optional(&expected.response_body)),
            ),
        );
        assert(diffs_view(out@) =~= before + body_diffs(expected@, actual@));
    }
    assert(diffs_view(out@) =~= start + field_diffs(expected@, actual@));
}

/// Compares the outputs of a run, `candidate`, with the stored snapshot
/// `prior`.
pub fn compare(prior: &Snapshot, candidate: &Snapshot) -> (r: SnapshotDiff)
    ensures
        r@ == compared(prior.entries(), candidate.entries()),
{
    let mut diffs: Vec<Diff> = Vec::new();
    let mut i: usize = 0;
    assert(diffs_view(diffs@) =~= Seq::<DiffView>::empty());
    while i < prior.len()
        invariant
            i <= prior.entries().len(),
            diffs_view(diffs@) == stored_diffs(prior.entries(), candidate.entries(), i as nat),
        decreases prior.entries().len() - i,
    {
        let expected = prior.output_at(i);
        let at = candidate.position(expected.name.as_str());
        let ghost before = diffs_view(diffs@);
        if at < candidate.len() {
            push_field_diffs(&mut diffs, expected, candidate.output_at(at));
        } else {
            diffs.push(
                Diff::new(
                    &expected.name,
                    Cause::MissingEntry,
                    Side::Absent,
                    Side::Entry(expected.clone()),
                ),
            );
            assert(diffs_view(diffs@) =~= before + seq![missing_entry(expected@)]);
        }
        i = i + 1;
    }
    let ghost stored = diffs_view(diffs@);
    let mut j: usize = 0;
    assert(diffs_view(diffs@) =~= stored + Seq::<DiffView>::empty());
    while j < candidate.len()
        invariant
            j <= candidate.entries().len(),
            stored == stored_diffs(prior.entries(), candidate.entries(), prior.entries().len()),
            diffs_view(diffs@) == stored + added_diffs(
                prior.entries(),
                candidate.entries(),
                j as nat,
            ),
        decreases candidate.entries().len() - j,
    {
        let actual = candidate.output_at(j);
        let at = prior.position(actual.name.as_str());
        let ghost before = diffs_view(diffs@);
        if at >= prior.len() {
            diffs.push(
                Diff::new(
                    &actual.name,
                    Cause::ExtraEntry,
                    Side::Entry(actual.clone()),
                    Side::Absent,
                ),
            );
            assert(diffs_view(diffs@) =~= before + seq![extra_entry(actual@)]);
        }
        j = j + 1;
        assert(diffs_view(diffs@) =~= stored + added_diffs(
            prior.entries(),
            candidate.entries(),
            j as nat,
        ));
    }
    SnapshotDiff { diffs }
}

impl SnapshotDiff {
    /// Whether the run and the stored snapshot agree.
    pub fn is_empty(&self) -> (r: bool)
        ensures
            r == (self@.len() == 0),
    {
        self.diffs.len() == 0
    }
}

} // verus!
