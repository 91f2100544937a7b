//! What the comparator's verdict means.
//!
//! The comparison gives no diff exactly when the two snapshots hold the same
//! entries under the same names. A changed status code gives one diff and
//! no other. An entry that only one side has is reported once.

use vstd::prelude::*;
use crate::compare::{
    added_diffs, body_diffs, compared, endpoint_diffs, entry_diffs, extra_diffs, extra_entry,
    field_diff, field_diffs, method_diffs, missing_entry, payload_diffs, status_diffs,
    stored_diffs, Cause, DiffView, SideView,
};
use crate::snapshot::{
    by_name, distinct_names, index_of_name, lemma_index_of_name, lemma_index_of_own_name,
    names_of, OutputView,
};

verus! {

/// How many of `diffs` speak of the entry `name` and give `cause`.
pub open spec fn count_of(diffs: Seq<DiffView>, name: Seq<char>, cause: Cause) -> nat
    decreases diffs.len(),
{
    if diffs.len() == 0 {
        0
    } else {
        count_of(diffs.drop_last(), name, cause) + if diffs.last().name == name
            && diffs.last().cause == cause {
            1nat
        } else {
            0nat
        }
    }
}

/// The count of two lists joined is the sum of their counts.
pub proof fn lemma_count_of_joined(a: Seq<DiffView>, b: Seq<DiffView>, name: Seq<char>, cause: Cause)
    ensures
        count_of(a + b, name, cause) == count_of(a, name, cause) + count_of(b, name, cause),
    decreases b.len(),
{
    if b.len() == 0 {
        assert(a + b =~= a);
    } else {
        assert((a + b).drop_last() =~= a + b.drop_last());
        lemma_count_of_joined(a, b.drop_last(), name, cause);
    }
}

/// A list whose diffs all speak of other entries counts nothing for `name`.
pub proof fn lemma_count_of_others(diffs: Seq<DiffView>, name: Seq<char>, cause: Cause)
    requires
        forall|i: int| 0 <= i < diffs.len() ==> diffs[i].name != name,
    ensures
        count_of(diffs, name, cause) == 0,
    decreases diffs.len(),
{
    if diffs.len() > 0 {
        lemma_count_of_others(diffs.drop_last(), name, cause);
    }
}

/// A list without a diff of the cause `cause` counts nothing for it.
pub proof fn lemma_count_of_other_causes(diffs: Seq<DiffView>, name: Seq<char>, cause: Cause)
    requires
        forall|i: int| 0 <= i < diffs.len() ==> diffs[i].cause != cause,
    ensures
        count_of(diffs, name, cause) == 0,
    decreases diffs.len(),
{
    if diffs.len() > 0 {
        lemma_count_of_other_causes(diffs.drop_last(), name, cause);
    }
}

/// The diffs of two entries of one name all carry that name, and none is of
/// a missing or an extra entry.
pub proof fn lemma_field_diffs_names(expected: OutputView, actual: OutputView)
    ensures
        forall|i: int|
            0 <= i < field_diffs(expected, actual).len() ==> {
                &&& (#[trigger] field_diffs(expected, actual)[i]).name == expected.name
                &&& field_diffs(expected, actual)[i].cause != Cause::MissingEntry
                &&& field_diffs(expected, actual)[i].cause != Cause::ExtraEntry
            },
{
}

/// An entry compared with itself gives no diff.
pub proof fn lemma_field_diffs_of_same(entry: OutputView)
    ensures
        field_diffs(entry, entry) == Seq::<DiffView>::empty(),
{
    assert(field_diffs(entry, entry) =~= Seq::<DiffView>::empty());
}

/// A snapshot compared with itself gives no diff.
pub proof fn lemma_same_snapshot_no_diffs(list: Seq<OutputView>)
    requires
        distinct_names(list),
    ensures
        compared(list, list) == Seq::<DiffView>::empty(),
{
    lemma_same_maps_no_diffs(list, list, list.len(), list.len());
    assert(compared(list, list) =~= Seq::<DiffView>::empty());
}

/// The diff of a status code that changed.
pub open spec fn status_mismatch(name: Seq<char>, actual: u16, expected: u16) -> DiffView {
    field_diff(
        name,
        Cause::StatusMismatch,
        SideView::Status(actual),
        SideView::Status(expected),
    )
}

/// Two snapshots that differ in the status code of one entry and in nothing
/// else give exactly one diff: a status mismatch for that entry's name. The
/// order of the run's entries does not count.
pub proof fn lemma_status_change_gives_one_diff(
    prior: Seq<OutputView>,
    candidate: Seq<OutputView>,
    at: int,
    status: u16,
)
    requires
        distinct_names(prior),
        0 <= at < prior.len(),
        status != prior[at].status_code,
        by_name(candidate) == by_name(prior).insert(
            prior[at].name,
            OutputView { status_code: status, ..prior[at] },
        ),
    ensures
        compared(prior, candidate) == seq![
            status_mismatch(prior[at].name, status, prior[at].status_code),
        ],
{
    lemma_changed_stored(prior, candidate, at, status, prior.len());
    lemma_changed_added(prior, candidate, at, status, candidate.len());
    assert(compared(prior, candidate) =~= seq![
        status_mismatch(prior[at].name, status, prior[at].status_code),
    ]);
}

/// The diffs of the first `n` stored entries, where one entry's status code
/// changed: none before that entry, the one status mismatch from it on.
proof fn lemma_changed_stored(
    prior: Seq<OutputView>,
    candidate: Seq<OutputView>,
    at: int,
    status: u16,
    n: nat,
)
    requires
        distinct_names(prior),
        0 <= at < prior.len(),
        status != prior[at].status_code,
        by_name(candidate) == by_name(prior).insert(
            prior[at].name,
            OutputView { status_code: status, ..prior[at] },
        ),
        n <= prior.len(),
    ensures
        stored_diffs(prior, candidate, n) == (if n <= at {
            Seq::<DiffView>::empty()
        } else {
            seq![status_mismatch(prior[at].name, status, prior[at].status_code)]
        }),
    decreases n,
{
    let changed = OutputView { status_code: status, ..prior[at] };
    if n > 0 {
        lemma_changed_stored(prior, candidate, at, status, (n - 1) as nat);
        let expected = prior[n - 1];
        lemma_index_of_own_name(prior, n - 1);
        lemma_index_of_own_name(prior, at);
        lemma_index_of_name(candidate, expected.name);
        assert(by_name(prior).contains_key(expected.name));
        assert(by_name(prior)[expected.name] == expected);
        assert(by_name(candidate).contains_key(expected.name));
        let found = index_of_name(candidate, expected.name);
        assert(by_name(candidate)[expected.name] == candidate[found]);
        let one = seq![status_mismatch(prior[at].name, status, prior[at].status_code)];
        if n - 1 == at {
            assert(candidate[found] == changed);
            assert(field_diffs(prior[at], changed) =~= one);
            assert(stored_diffs(prior, candidate, n) =~= one);
        } else {
            assert(candidate[found] == expected);
            lemma_field_diffs_of_same(expected);
            if n - 1 < at {
                assert(stored_diffs(prior, candidate, n) =~= Seq::<DiffView>::empty());
            } else {
                assert(stored_diffs(prior, candidate, n) =~= one);
            }
        }
    }
}

/// Where one entry's status code changed, no entry of the run is extra.
proof fn lemma_changed_added(
    prior: Seq<OutputView>,
    candidate: Seq<OutputView>,
    at: int,
    status: u16,
    n: nat,
)
    requires
        distinct_names(prior),
        0 <= at < prior.len(),
        by_name(candidate) == by_name(prior).insert(
            prior[at].name,
            OutputView { status_code: status, ..prior[at] },
        ),
        n <= candidate.len(),
    ensures
        added_diffs(prior, candidate, n) == Seq::<DiffView>::empty(),
    decreases n,
{
    if n > 0 {
        lemma_changed_added(prior, candidate, at, status, (n - 1) as nat);
        let actual = candidate[n - 1];
        lemma_index_of_name(candidate, actual.name);
        assert(names_of(candidate)[n - 1] == actual.name);
        assert(by_name(candidate).contains_key(actual.name));
        lemma_index_of_own_name(prior, at);
        assert(by_name(prior).contains_key(prior[at].name));
        assert(by_name(prior).contains_key(actual.name));
        lemma_index_of_name(prior, actual.name);
        assert(added_diffs(prior, candidate, n) =~= Seq::<DiffView>::empty());
    }
}

/// The diffs of the stored entries speak of stored names only.
proof fn lemma_stored_names(prior: Seq<OutputView>, candidate: Seq<OutputView>, n: nat)
    requires
        n <= prior.len(),
    ensures
        forall|i: int|
            0 <= i < stored_diffs(prior, candidate, n).len() ==> exists|k: int|
                0 <= k < n && prior[k].name == (#[trigger] stored_diffs(prior, candidate, n)[i]).name,
        forall|i: int|
            0 <= i < stored_diffs(prior, candidate, n).len() ==> (#[trigger] stored_diffs(
                prior,
                candidate,
                n,
            )[i]).cause != Cause::ExtraEntry,
    decreases n,
{
    if n > 0 {
        lemma_stored_names(prior, candidate, (n - 1) as nat);
        let before = stored_diffs(prior, candidate, (n - 1) as nat);
        let step = entry_diffs(prior[n - 1], candidate);
        let at = index_of_name(candidate, prior[n - 1].name);
        if 0 <= at < candidate.len() {
            lemma_field_diffs_names(prior[n - 1], candidate[at]);
        }
        assert forall|i: int| 0 <= i < (before + step).len() implies exists|k: int|
            0 <= k < n && prior[k].name == (#[trigger] (before + step)[i]).name by {
            if i < before.len() {
                let k = choose|k: int| 0 <= k < n - 1 && prior[k].name == before[i].name;
                assert(0 <= k < n && prior[k].name == (before + step)[i].name);
            } else {
                assert((before + step)[i] == step[i - before.len()]);
                assert(prior[n - 1].name == (before + step)[i].name);
            }
        }
        assert forall|i: int| 0 <= i < (before + step).len() implies (#[trigger] (before
            + step)[i]).cause != Cause::ExtraEntry by {
            if i >= before.len() {
                assert((before + step)[i] == step[i - before.len()]);
            }
        }
    }
}

/// The diffs of the run's own entries are of extra entries all, and speak
/// of the run's names only.
proof fn lemma_added_names(prior: Seq<OutputView>, candidate: Seq<OutputView>, n: nat)
    requires
        n <= candidate.len(),
    ensures
        forall|i: int|
            0 <= i < added_diffs(prior, candidate, n).len() ==> exists|k: int|
                0 <= k < n && candidate[k].name == (#[trigger] added_diffs(
                    prior,
                    candidate,
                    n,
                )[i]).name,
        forall|i: int|
            0 <= i < added_diffs(prior, candidate, n).len() ==> (#[trigger] added_diffs(
                prior,
                candidate,
                n,
            )[i]).cause == Cause::ExtraEntry,
    decreases n,
{
    if n > 0 {
        lemma_added_names(prior, candidate, (n - 1) as nat);
        let before = added_diffs(prior, candidate, (n - 1) as nat);
        let step = extra_diffs(prior, candidate[n - 1]);
        assert forall|i: int| 0 <= i < (before + step).len() implies exists|k: int|
            0 <= k < n && candidate[k].name == (#[trigger] (before + step)[i]).name by {
            if i < before.len() {
                let k = choose|k: int| 0 <= k < n - 1 && candidate[k].name == before[i].name;
                assert(0 <= k < n && candidate[k].name == (before + step)[i].name);
            } else {
                assert((before + step)[i] == step[i - before.len()]);
                assert(candidate[n - 1].name == (before + step)[i].name);
            }
        }
        assert forall|i: int| 0 <= i < (before + step).len() implies (#[trigger] (before
            + step)[i]).cause == Cause::ExtraEntry by {
            if i >= before.len() {
                assert((before + step)[i] == step[i - before.len()]);
            }
        }
    }
}

/// How often the first `n` entries of the run are reported as extra under
/// `name`: once if the entry of that name is among them, else never.
proof fn lemma_added_count(
    prior: Seq<OutputView>,
    candidate: Seq<OutputView>,
    at: int,
    n: nat,
)
    requires
        distinct_names(candidate),
        0 <= at < candidate.len(),
        forall|k: int| 0 <= k < prior.len() ==> prior[k].name != candidate[at].name,
        n <= candidate.len(),
    ensures
        count_of(added_diffs(prior, candidate, n), candidate[at].name, Cause::ExtraEntry) == (if n
            > at {
            1nat
        } else {
            0nat
        }),
    decreases n,
{
    let name = candidate[at].name;
    if n > 0 {
        lemma_added_count(prior, candidate, at, (n - 1) as nat);
        let before = added_diffs(prior, candidate, (n - 1) as nat);
        let step = extra_diffs(prior, candidate[n - 1]);
        lemma_count_of_joined(before, step, name, Cause::ExtraEntry);
        lemma_index_of_name(prior, candidate[n - 1].name);
        if n - 1 == at {
            assert(step =~= seq![extra_entry(candidate[at])]);
            assert(step.drop_last() =~= Seq::<DiffView>::empty());
            assert(count_of(step.drop_last(), name, Cause::ExtraEntry) == 0);
            assert(step.last() == extra_entry(candidate[at]));
            assert(count_of(step, name, Cause::ExtraEntry) == 1);
        } else {
            assert forall|i: int| 0 <= i < step.len() implies step[i].name != name by {}
            lemma_count_of_others(step, name, Cause::ExtraEntry);
        }
    }
}

/// An entry of the run whose name the stored snapshot lacks is reported
/// exactly once, as an extra entry, whatever else the two snapshots hold.
pub proof fn lemma_extra_entry_reported_once(
    prior: Seq<OutputView>,
    candidate: Seq<OutputView>,
    at: int,
)
    requires
        distinct_names(candidate),
        0 <= at < candidate.len(),
        forall|k: int| 0 <= k < prior.len() ==> prior[k].name != candidate[at].name,
    ensures
        count_of(compared(prior, candidate), candidate[at].name, Cause::ExtraEntry) == 1,
        count_of(compared(prior, candidate), candidate[at].name, Cause::MissingEntry) == 0,
{
    let name = candidate[at].name;
    let stored = stored_diffs(prior, candidate, prior.len());
    let added = added_diffs(prior, candidate, candidate.len());
    lemma_stored_names(prior, candidate, prior.len());
    assert forall|i: int| 0 <= i < stored.len() implies stored[i].name != name by {
        let k = choose|k: int| 0 <= k < prior.len() && prior[k].name == stored[i].name;
    }
    lemma_count_of_others(stored, name, Cause::ExtraEntry);
    lemma_count_of_others(stored, name, Cause::MissingEntry);
    lemma_added_count(prior, candidate, at, candidate.len());
    lemma_added_names(prior, candidate, candidate.len());
    lemma_count_of_other_causes(added, name, Cause::MissingEntry);
    lemma_count_of_joined(stored, added, name, Cause::ExtraEntry);
    lemma_count_of_joined(stored, added, name, Cause::MissingEntry);
}

/// How often the first `n` stored entries are reported as missing under
/// `name`: once if the entry of that name is among them, else never.
proof fn lemma_stored_count(
    prior: Seq<OutputView>,
    candidate: Seq<OutputView>,
    at: int,
    n: nat,
)
    requires
        distinct_names(prior),
        0 <= at < prior.len(),
        forall|k: int| 0 <= k < candidate.len() ==> candidate[k].name != prior[at].name,
        n <= prior.len(),
    ensures
        count_of(stored_diffs(prior, candidate, n), prior[at].name, Cause::MissingEntry) == (if n
            > at {
            1nat
        } else {
            0nat
        }),
    decreases n,
{
    let name = prior[at].name;
    if n > 0 {
        lemma_stored_count(prior, candidate, at, (n - 1) as nat);
        let before = stored_diffs(prior, candidate, (n - 1) as nat);
        let step = entry_diffs(prior[n - 1], candidate);
        lemma_count_of_joined(before, step, name, Cause::MissingEntry);
        lemma_index_of_name(candidate, prior[n - 1].name);
        let found = index_of_name(candidate, prior[n - 1].name);
        if n - 1 == at {
            assert(step =~= seq![missing_entry(prior[at])]);
            assert(step.drop_last() =~= Seq::<DiffView>::empty());
            assert(count_of(step.drop_last(), name, Cause::MissingEntry) == 0);
            assert(step.last() == missing_entry(prior[at]));
            assert(count_of(step, name, Cause::MissingEntry) == 1);
        } else {
            if 0 <= found < candidate.len() {
                lemma_field_diffs_names(prior[n - 1], candidate[found]);
            }
            assert forall|i: int| 0 <= i < step.len() implies step[i].name != name by {}
            lemma_count_of_others(step, name, Cause::MissingEntry);
        }
    }
}

/// A stored entry whose name the run lacks is reported exactly once, as a
/// missing entry, whatever else the two snapshots hold.
pub proof fn lemma_missing_entry_reported_once(
    prior: Seq<OutputView>,
    candidate: Seq<OutputView>,
    at: int,
)
    requires
        distinct_names(prior),
        0 <= at < prior.len(),
        forall|k: int| 0 <= k < candidate.len() ==> candidate[k].name != prior[at].name,
    ensures
        count_of(compared(prior, candidate), prior[at].name, Cause::MissingEntry) == 1,
        count_of(compared(prior, candidate), prior[at].name, Cause::ExtraEntry) == 0,
{
    let name = prior[at].name;
    let stored = stored_diffs(prior, candidate, prior.len());
    let added = added_diffs(prior, candidate, candidate.len());
    lemma_stored_count(prior, candidate, at, prior.len());
    lemma_stored_names(prior, candidate, prior.len());
    lemma_count_of_other_causes(stored, name, Cause::ExtraEntry);
    lemma_added_names(prior, candidate, candidate.len());
    assert forall|i: int| 0 <= i < added.len() implies added[i].name != name by {
        let k = choose|k: int| 0 <= k < candidate.len() && candidate[k].name == added[i].name;
    }
    lemma_count_of_others(added, name, Cause::MissingEntry);
    lemma_count_of_others(added, name, Cause::ExtraEntry);
    lemma_count_of_joined(stored, added, name, Cause::MissingEntry);
    lemma_count_of_joined(stored, added, name, Cause::ExtraEntry);
}

/// Where the stored entries give no diff, each of the first `n` has its
/// equal in the run.
proof fn lemma_no_stored_diffs(prior: Seq<OutputView>, candidate: Seq<OutputView>, n: nat, k: int)
    requires
        n <= prior.len(),
        stored_diffs(prior, candidate, n).len() == 0,
        0 <= k < n,
    ensures
        0 <= index_of_name(candidate, prior[k].name) < candidate.len(),
        candidate[index_of_name(candidate, prior[k].name)] == prior[k],
    decreases n,
{
    let before = stored_diffs(prior, candidate, (n - 1) as nat);
    let step = entry_diffs(prior[n - 1], candidate);
    assert((before + step).len() == before.len() + step.len());
    if k < n - 1 {
        lemma_no_stored_diffs(prior, candidate, (n - 1) as nat, k);
    } else {
        let expected = prior[k];
        lemma_index_of_name(candidate, expected.name);
        let at = index_of_name(candidate, expected.name);
        let actual = candidate[at];
        assert(field_diffs(expected, actual).len() == method_diffs(expected, actual).len()
            + endpoint_diffs(expected, actual).len() + status_diffs(expected, actual).len()
            + payload_diffs(expected, actual).len() + body_diffs(expected, actual).len());
    }
}

/// Where the run's own entries give no diff, the stored snapshot has the
/// name of each of the first `n`.
proof fn lemma_no_added_diffs(prior: Seq<OutputView>, candidate: Seq<OutputView>, n: nat, k: int)
    requires
        n <= candidate.len(),
        added_diffs(prior, candidate, n).len() == 0,
        0 <= k < n,
    ensures
        0 <= index_of_name(prior, candidate[k].name) < prior.len(),
    decreases n,
{
    let before = added_diffs(prior, candidate, (n - 1) as nat);
    let step = extra_diffs(prior, candidate[n - 1]);
    assert((before + step).len() == before.len() + step.len());
    if k < n - 1 {
        lemma_no_added_diffs(prior, candidate, (n - 1) as nat, k);
    } else {
        lemma_index_of_name(prior, candidate[k].name);
    }
}

/// Where two snapshots hold the same entries under the same names, the
/// first `n` stored entries give no diff, and neither do the first `m` of
/// the run.
proof fn lemma_same_maps_no_diffs(
    prior: Seq<OutputView>,
    candidate: Seq<OutputView>,
    n: nat,
    m: nat,
)
    requires
        distinct_names(prior),
        by_name(prior) == by_name(candidate),
        n <= prior.len(),
        m <= candidate.len(),
    ensures
        stored_diffs(prior, candidate, n) == Seq::<DiffView>::empty(),
        added_diffs(prior, candidate, m) == Seq::<DiffView>::empty(),
    decreases n + m,
{
    if n > 0 {
        lemma_same_maps_no_diffs(prior, candidate, (n - 1) as nat, 0);
        let expected = prior[n - 1];
        lemma_index_of_own_name(prior, n - 1);
        assert(by_name(prior).contains_key(expected.name));
        assert(by_name(candidate).contains_key(expected.name));
        assert(by_name(candidate)[expected.name] == by_name(prior)[expected.name]);
        lemma_index_of_name(candidate, expected.name);
        lemma_field_diffs_of_same(expected);
        let at = index_of_name(candidate, expected.name);
        assert(by_name(prior)[expected.name] == expected);
        assert(by_name(candidate)[expected.name] == candidate[at]);
        assert(candidate[at] == expected);
        assert(entry_diffs(expected, candidate) == Seq::<DiffView>::empty());
        assert(stored_diffs(prior, candidate, n) =~= Seq::<DiffView>::empty());
    }
    if m > 0 {
        lemma_same_maps_no_diffs(prior, candidate, 0, (m - 1) as nat);
        let actual = candidate[m - 1];
        lemma_index_of_name(candidate, actual.name);
        assert(names_of(candidate)[m - 1] == actual.name);
        assert(by_name(candidate).contains_key(actual.name));
        assert(by_name(prior).contains_key(actual.name));
        lemma_index_of_name(prior, actual.name);
        assert(added_diffs(prior, candidate, m) =~= Seq::<DiffView>::empty());
    }
}

/// The comparison gives no diff exactly when the two snapshots hold the
/// same entries under the same names.
pub proof fn lemma_no_diffs_iff_same(prior: Seq<OutputView>, candidate: Seq<OutputView>)
    requires
        distinct_names(prior),
    ensures
        compared(prior, candidate).len() == 0 <==> by_name(prior) == by_name(candidate),
{
    let stored = stored_diffs(prior, candidate, prior.len());
    let added = added_diffs(prior, candidate, candidate.len());
    assert(compared(prior, candidate).len() == stored.len() + added.len());
    if compared(prior, candidate).len() == 0 {
        assert forall|q: Seq<char>| #[trigger]
            by_name(prior).contains_key(q) == by_name(candidate).contains_key(q) && (by_name(
                prior,
            ).contains_key(q) ==> by_name(prior)[q] == by_name(candidate)[q]) by {
            lemma_index_of_name(prior, q);
            lemma_index_of_name(candidate, q);
            if by_name(prior).contains_key(q) {
                lemma_no_stored_diffs(prior, candidate, prior.len(), index_of_name(prior, q));
            }
            if by_name(candidate).contains_key(q) {
                lemma_no_added_diffs(prior, candidate, candidate.len(), index_of_name(candidate, q));
                if !by_name(prior).contains_key(q) {
                    lemma_index_of_name(prior, candidate[index_of_name(candidate, q)].name);
                }
            }
        }
        assert(by_name(prior) =~= by_name(candidate));
    }
    if by_name(prior) == by_name(candidate) {
        lemma_same_maps_no_diffs(prior, candidate, prior.len(), candidate.len());
    }
}

} // verus!
