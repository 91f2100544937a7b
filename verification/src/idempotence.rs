//! Redacting a redacted body once more changes nothing.
//!
//! Each single redaction is idempotent. A whole list of fields is, too, as
//! long as the second pass finds every path that it walks: a later field of
//! the list may have removed or emptied an object that an earlier, longer
//! path passes through, and then the second pass stops at that path.

use vstd::prelude::*;
use crate::json::{JsonView, MemberView};
use crate::redact::{
    member_keys, neutral, neutral_under, neutralized, redacted, redacted_field, redacted_from,
    removed, without_key, Stuck,
};
use crate::text::{
    find_from, lemma_find_from, lemma_find_from_push, lemma_split_is_not_empty, split,
};

verus! {

/// To neutralize twice is to neutralize once.
pub proof fn lemma_neutral_is_idempotent(v: JsonView)
    ensures
        neutral(neutral(v)) == neutral(v),
{
}

/// Nothing of the name `key` is left where its members were removed.
pub proof fn lemma_without_key_has_none(ms: Seq<MemberView>, key: Seq<char>)
    ensures
        forall|i: int| 0 <= i < without_key(ms, key).len() ==> without_key(ms, key)[i].key != key,
        without_key(ms, key).len() <= ms.len(),
    decreases ms.len(),
{
    if ms.len() > 0 {
        lemma_without_key_has_none(ms.drop_last(), key);
    }
}

/// Removing a name that no member bears removes nothing.
pub proof fn lemma_without_absent_key(ms: Seq<MemberView>, key: Seq<char>)
    requires
        forall|i: int| 0 <= i < ms.len() ==> ms[i].key != key,
    ensures
        without_key(ms, key) == ms,
    decreases ms.len(),
{
    if ms.len() > 0 {
        lemma_without_absent_key(ms.drop_last(), key);
        assert(ms.drop_last().push(ms.last()) =~= ms);
    }
}

/// The place of the first member of a name.
pub open spec fn place_of(ms: Seq<MemberView>, name: Seq<char>) -> int {
    find_from(member_keys(ms), name, 0)
}

/// `place_of` stays in range, lands on the name, and skips no member of it.
pub proof fn lemma_place_of(ms: Seq<MemberView>, name: Seq<char>)
    ensures
        0 <= place_of(ms, name) <= ms.len(),
        place_of(ms, name) < ms.len() ==> ms[place_of(ms, name)].key == name,
        forall|j: int| 0 <= j < place_of(ms, name) ==> ms[j].key != name,
{
    lemma_find_from(member_keys(ms), name, 0);
    let at = place_of(ms, name);
    if at < ms.len() {
        assert(member_keys(ms)[at] == name);
    }
    assert forall|j: int| 0 <= j < at implies ms[j].key != name by {
        assert(member_keys(ms)[j] != name);
    }
}

/// Removing the members of one name leaves the first member of any other
/// name what it was, and leaves absent what was absent.
pub proof fn lemma_without_key_keeps_others(ms: Seq<MemberView>, key: Seq<char>, name: Seq<char>)
    requires
        name != key,
    ensures
        place_of(ms, name) < ms.len() <==> place_of(without_key(ms, key), name) < without_key(
            ms,
            key,
        ).len(),
        place_of(ms, name) < ms.len() ==> without_key(ms, key)[place_of(
            without_key(ms, key),
            name,
        )] == ms[place_of(ms, name)],
    decreases ms.len(),
{
    lemma_place_of(ms, name);
    lemma_place_of(without_key(ms, key), name);
    if ms.len() > 0 {
        let init = ms.drop_last();
        let last = ms.last();
        lemma_without_key_keeps_others(init, key, name);
        lemma_place_of(init, name);
        lemma_place_of(without_key(init, key), name);
        assert(init.push(last) =~= ms);
        assert(member_keys(ms) =~= member_keys(init).push(last.key));
        lemma_find_from_push(member_keys(init), name, last.key);
        if last.key != key {
            let kept = without_key(init, key);
            assert(member_keys(kept.push(last)) =~= member_keys(kept).push(last.key));
            lemma_find_from_push(member_keys(kept), name, last.key);
        }
    }
}

/// Giving a member a new value moves no name.
pub proof fn lemma_update_keeps_places(ms: Seq<MemberView>, at: int, value: JsonView)
    requires
        0 <= at < ms.len(),
    ensures
        member_keys(ms.update(at, MemberView { key: ms[at].key, value })) == member_keys(ms),
{
    assert(member_keys(ms.update(at, MemberView { key: ms[at].key, value })) =~= member_keys(ms));
}

/// Neutralizing under a name moves no name.
pub proof fn lemma_neutral_under_keeps_places(ms: Seq<MemberView>, key: Seq<char>)
    ensures
        member_keys(neutral_under(ms, key)) == member_keys(ms),
{
    assert(member_keys(neutral_under(ms, key)) =~= member_keys(ms));
}

/// To neutralize a member twice is to neutralize it once.
pub proof fn lemma_neutralized_is_idempotent(body: JsonView, key: Seq<char>)
    ensures
        neutralized(neutralized(body, key), key) == neutralized(body, key),
{
    match body {
        JsonView::Object(ms) => {
            assert(neutral_under(neutral_under(ms, key), key) =~= neutral_under(ms, key));
        },
        _ => {},
    }
}

/// To remove along a path twice is to remove once.
pub proof fn lemma_removed_is_idempotent(v: JsonView, path: Seq<Seq<char>>, depth: int)
    requires
        0 <= depth < path.len(),
        removed(v, path, depth) is Ok,
    ensures
        removed(removed(v, path, depth)->Ok_0, path, depth) == removed(v, path, depth),
    decreases path.len() - depth,
{
    match v {
        JsonView::Object(ms) => {
            if depth + 1 >= path.len() {
                lemma_without_key_has_none(ms, path[depth]);
                lemma_without_absent_key(without_key(ms, path[depth]), path[depth]);
            } else {
                let at = place_of(ms, path[depth]);
                lemma_place_of(ms, path[depth]);
                let inner = removed(ms[at].value, path, depth + 1)->Ok_0;
                lemma_removed_is_idempotent(ms[at].value, path, depth + 1);
                let after = ms.update(at, MemberView { key: ms[at].key, value: inner });
                lemma_update_keeps_places(ms, at, inner);
                assert(after.update(at, MemberView { key: after[at].key, value: inner }) =~= after);
            }
        },
        _ => {},
    }
}

/// The redaction of one field is idempotent.
pub proof fn lemma_field_is_idempotent(body: JsonView, field: Seq<char>)
    requires
        redacted_field(body, field) is Ok,
    ensures
        redacted_field(redacted_field(body, field)->Ok_0, field) == redacted_field(body, field),
{
    let path = split(field, '.');
    lemma_split_is_not_empty(field, '.');
    if path.len() == 1 {
        lemma_neutralized_is_idempotent(body, field);
    } else {
        lemma_removed_is_idempotent(body, path, 0);
    }
}

/// A walk that stops in a value stops in what is left of it when it is
/// neutralized.
pub proof fn lemma_stuck_in_neutral(v: JsonView, path: Seq<Seq<char>>, depth: int)
    requires
        0 <= depth < path.len(),
        removed(v, path, depth) is Err,
    ensures
        removed(neutral(v), path, depth) is Err,
{
    match v {
        JsonView::Object(ms) => {
            assert(member_keys(Seq::<MemberView>::empty()) =~= Seq::<Seq<char>>::empty());
        },
        _ => {},
    }
}

/// A walk that stops in a body stops in it after a member was neutralized.
pub proof fn lemma_stuck_after_neutralized(
    v: JsonView,
    path: Seq<Seq<char>>,
    depth: int,
    key: Seq<char>,
)
    requires
        0 <= depth < path.len(),
        removed(v, path, depth) is Err,
    ensures
        removed(neutralized(v, key), path, depth) is Err,
{
    match v {
        JsonView::Object(ms) => {
            lemma_neutral_under_keeps_places(ms, key);
            let at = place_of(ms, path[depth]);
            lemma_place_of(ms, path[depth]);
            if at < ms.len() {
                lemma_stuck_in_neutral(ms[at].value, path, depth + 1);
            }
        },
        _ => {},
    }
}

/// A walk that stops in a value stops in it after another path was removed
/// from it.
pub proof fn lemma_stuck_after_removed(
    v: JsonView,
    path: Seq<Seq<char>>,
    depth: int,
    other: Seq<Seq<char>>,
    other_depth: int,
)
    requires
        0 <= depth < path.len(),
        0 <= other_depth < other.len(),
        removed(v, path, depth) is Err,
        removed(v, other, other_depth) is Ok,
    ensures
        removed(removed(v, other, other_depth)->Ok_0, path, depth) is Err,
    decreases path.len() - depth,
{
    match v {
        JsonView::Object(ms) => {
            let at = place_of(ms, path[depth]);
            lemma_place_of(ms, path[depth]);
            if other_depth + 1 >= other.len() {
                let left = without_key(ms, other[other_depth]);
                lemma_place_of(left, path[depth]);
                if path[depth] == other[other_depth] {
                    lemma_without_key_has_none(ms, other[other_depth]);
                } else {
                    lemma_without_key_keeps_others(ms, other[other_depth], path[depth]);
                }
            } else {
                let hit = place_of(ms, other[other_depth]);
                lemma_place_of(ms, other[other_depth]);
                let inner = removed(ms[hit].value, other, other_depth + 1)->Ok_0;
                lemma_update_keeps_places(ms, hit, inner);
                if at < ms.len() && at == hit {
                    lemma_stuck_after_removed(
                        ms[at].value,
                        path,
                        depth + 1,
                        other,
                        other_depth + 1,
                    );
                }
            }
        },
        _ => {},
    }
}

/// A path that finds nothing to remove in a value finds nothing in what is
/// left of it when it is neutralized, if it can be walked there at all.
pub proof fn lemma_settled_in_neutral(v: JsonView, path: Seq<Seq<char>>, depth: int)
    requires
        0 <= depth < path.len(),
        removed(v, path, depth) == Ok::<JsonView, Stuck>(v),
        removed(neutral(v), path, depth) is Ok,
    ensures
        removed(neutral(v), path, depth) == Ok::<JsonView, Stuck>(neutral(v)),
{
    match v {
        JsonView::Object(ms) => {
            assert(member_keys(Seq::<MemberView>::empty()) =~= Seq::<Seq<char>>::empty());
            assert(without_key(Seq::<MemberView>::empty(), path[depth]) =~= Seq::<
                MemberView,
            >::empty());
        },
        _ => {},
    }
}

/// Where a path is settled in an object, the member that it passes through
/// holds a value in which the rest of the path is settled.
proof fn lemma_settled_inside(ms: Seq<MemberView>, path: Seq<Seq<char>>, depth: int)
    requires
        0 <= depth,
        depth + 1 < path.len(),
        removed(JsonView::Object(ms), path, depth) == Ok::<JsonView, Stuck>(JsonView::Object(ms)),
    ensures
        0 <= place_of(ms, path[depth]) < ms.len(),
        removed(ms[place_of(ms, path[depth])].value, path, depth + 1) == Ok::<JsonView, Stuck>(
            ms[place_of(ms, path[depth])].value,
        ),
{
    let at = place_of(ms, path[depth]);
    lemma_place_of(ms, path[depth]);
    let inner = removed(ms[at].value, path, depth + 1)->Ok_0;
    let after = ms.update(at, MemberView { key: ms[at].key, value: inner });
    assert(after[at].value == inner);
}

/// A path that finds nothing to remove in a body finds nothing in it after
/// a member was neutralized, if it can be walked there at all.
pub proof fn lemma_settled_after_neutralized(
    v: JsonView,
    path: Seq<Seq<char>>,
    depth: int,
    key: Seq<char>,
)
    requires
        0 <= depth < path.len(),
        removed(v, path, depth) == Ok::<JsonView, Stuck>(v),
        removed(neutralized(v, key), path, depth) is Ok,
    ensures
        removed(neutralized(v, key), path, depth) == Ok::<JsonView, Stuck>(neutralized(v, key)),
{
    match v {
        JsonView::Object(ms) => {
            let after = neutral_under(ms, key);
            lemma_neutral_under_keeps_places(ms, key);
            if depth + 1 >= path.len() {
                lemma_without_key_has_none(ms, path[depth]);
                assert forall|i: int| 0 <= i < after.len() implies after[i].key != path[depth] by {
                    assert(ms[i].key != path[depth]);
                }
                lemma_without_absent_key(after, path[depth]);
            } else {
                lemma_settled_inside(ms, path, depth);
                let at = place_of(ms, path[depth]);
                if ms[at].key == key {
                    lemma_settled_in_neutral(ms[at].value, path, depth + 1);
                }
                assert(after.update(at, MemberView { key: after[at].key, value: after[at].value })
                    =~= after);
            }
        },
        _ => {},
    }
}

/// A path that finds nothing to remove in a value finds nothing in it after
/// another path was removed from it, if it can be walked there at all.
pub proof fn lemma_settled_after_removed(
    v: JsonView,
    path: Seq<Seq<char>>,
    depth: int,
    other: Seq<Seq<char>>,
    other_depth: int,
)
    requires
        0 <= depth < path.len(),
        0 <= other_depth < other.len(),
        removed(v, path, depth) == Ok::<JsonView, Stuck>(v),
        removed(v, other, other_depth) is Ok,
        removed(removed(v, other, other_depth)->Ok_0, path, depth) is Ok,
    ensures
        removed(removed(v, other, other_depth)->Ok_0, path, depth) == removed(
            v,
            other,
            other_depth,
        ),
    decreases path.len() - depth,
{
    match v {
        JsonView::Object(ms) => {
            lemma_place_of(ms, path[depth]);
            lemma_place_of(ms, other[other_depth]);
            if other_depth + 1 >= other.len() {
                let left = without_key(ms, other[other_depth]);
                lemma_place_of(left, path[depth]);
                lemma_without_key_has_none(ms, other[other_depth]);
                if depth + 1 >= path.len() {
                    lemma_without_key_has_none(ms, path[depth]);
                    if path[depth] != other[other_depth] {
                        lemma_without_key_keeps_others(ms, other[other_depth], path[depth]);
                        assert forall|i: int| 0 <= i < left.len() implies left[i].key
                            != path[depth] by {
                            if left[i].key == path[depth] {
                                assert(member_keys(left)[i] == path[depth]);
                                lemma_find_from(member_keys(left), path[depth], 0);
                            }
                        }
                    }
                    lemma_without_absent_key(left, path[depth]);
                } else {
                    lemma_settled_inside(ms, path, depth);
                    if path[depth] != other[other_depth] {
                        lemma_without_key_keeps_others(ms, other[other_depth], path[depth]);
                        let at = place_of(left, path[depth]);
                        assert(left.update(
                            at,
                            MemberView { key: left[at].key, value: left[at].value },
                        ) =~= left);
                    }
                }
            } else {
                let hit = place_of(ms, other[other_depth]);
                let inner = removed(ms[hit].value, other, other_depth + 1)->Ok_0;
                let after = ms.update(hit, MemberView { key: ms[hit].key, value: inner });
                lemma_update_keeps_places(ms, hit, inner);
                if depth + 1 >= path.len() {
                    lemma_without_key_has_none(ms, path[depth]);
                    assert forall|i: int| 0 <= i < after.len() implies after[i].key
                        != path[depth] by {
                        assert(ms[i].key != path[depth]);
                    }
                    lemma_without_absent_key(after, path[depth]);
                } else {
                    lemma_settled_inside(ms, path, depth);
                    let at = place_of(ms, path[depth]);
                    if at == hit {
                        lemma_settled_after_removed(
                            ms[at].value,
                            path,
                            depth + 1,
                            other,
                            other_depth + 1,
                        );
                    }
                    assert(after.update(
                        at,
                        MemberView { key: after[at].key, value: after[at].value },
                    ) =~= after);
                }
            }
        },
        _ => {},
    }
}

/// A member that is neutral stays neutral when another is neutralized.
pub proof fn lemma_neutral_after_neutralized(v: JsonView, key: Seq<char>, other: Seq<char>)
    requires
        neutralized(v, key) == v,
    ensures
        neutralized(neutralized(v, other), key) == neutralized(v, other),
{
    match v {
        JsonView::Object(ms) => {
            assert forall|i: int| 0 <= i < ms.len() implies #[trigger] neutral_under(
                neutral_under(ms, other),
                key,
            )[i] == neutral_under(ms, other)[i] by {
                assert(neutral_under(ms, key)[i] == ms[i]);
            }
            assert(neutral_under(neutral_under(ms, other), key) =~= neutral_under(ms, other));
        },
        _ => {},
    }
}

/// A member that is neutral stays neutral when a path is removed from the
/// body.
pub proof fn lemma_neutral_after_removed(v: JsonView, key: Seq<char>, other: Seq<Seq<char>>)
    requires
        neutralized(v, key) == v,
        other.len() >= 2,
        removed(v, other, 0) is Ok,
    ensures
        neutralized(removed(v, other, 0)->Ok_0, key) == removed(v, other, 0)->Ok_0,
{
    match v {
        JsonView::Object(ms) => {
            let hit = place_of(ms, other[0]);
            lemma_place_of(ms, other[0]);
            let inner = removed(ms[hit].value, other, 1)->Ok_0;
            let after = ms.update(hit, MemberView { key: ms[hit].key, value: inner });
            assert(neutral_under(ms, key)[hit] == ms[hit]);
            if ms[hit].key == key {
                match ms[hit].value {
                    JsonView::Object(inside) => {
                        assert(inside =~= Seq::<MemberView>::empty());
                        assert(member_keys(inside) =~= Seq::<Seq<char>>::empty());
                        assert(without_key(inside, other[1]) =~= inside);
                    },
                    _ => {},
                }
                assert(inner == ms[hit].value);
            }
            assert forall|i: int| 0 <= i < after.len() implies #[trigger] neutral_under(
                after,
                key,
            )[i] == after[i] by {
                assert(neutral_under(ms, key)[i] == ms[i]);
            }
            assert(neutral_under(after, key) =~= after);
        },
        _ => {},
    }
}

/// A field that does not fit a body does not fit it after another field
/// was redacted.
pub proof fn lemma_field_stays_stuck(body: JsonView, field: Seq<char>, other: Seq<char>)
    requires
        redacted_field(body, field) is Err,
        redacted_field(body, other) is Ok,
    ensures
        redacted_field(redacted_field(body, other)->Ok_0, field) is Err,
{
    let path = split(field, '.');
    let other_path = split(other, '.');
    lemma_split_is_not_empty(field, '.');
    lemma_split_is_not_empty(other, '.');
    if other_path.len() == 1 {
        lemma_stuck_after_neutralized(body, path, 0, other);
    } else {
        lemma_stuck_after_removed(body, path, 0, other_path, 0);
    }
}

/// A field that finds nothing to redact in a body finds nothing in it after
/// another field was redacted, if it fits the body then.
pub proof fn lemma_field_stays_settled(body: JsonView, field: Seq<char>, other: Seq<char>)
    requires
        redacted_field(body, field) == Ok::<JsonView, Stuck>(body),
        redacted_field(body, other) is Ok,
        redacted_field(redacted_field(body, other)->Ok_0, field) is Ok,
    ensures
        redacted_field(redacted_field(body, other)->Ok_0, field) == redacted_field(body, other),
{
    let path = split(field, '.');
    let other_path = split(other, '.');
    lemma_split_is_not_empty(field, '.');
    lemma_split_is_not_empty(other, '.');
    if path.len() == 1 {
        if other_path.len() == 1 {
            lemma_neutral_after_neutralized(body, field, other);
        } else {
            lemma_neutral_after_removed(body, field, other_path);
        }
    } else {
        if other_path.len() == 1 {
            lemma_settled_after_neutralized(body, path, 0, other);
        } else {
            lemma_settled_after_removed(body, path, 0, other_path, 0);
        }
    }
}

/// The body after the first `n` fields, where they all fit.
pub open spec fn body_after(body: JsonView, fields: Seq<Seq<char>>, n: nat) -> JsonView
    decreases n,
{
    if n == 0 {
        body
    } else {
        match redacted_field(body_after(body, fields, (n - 1) as nat), fields[n - 1]) {
            Ok(next) => next,
            Err(_) => body_after(body, fields, (n - 1) as nat),
        }
    }
}

/// Where all fields fit, the redaction can be taken up after any number of
/// them, and the next one fits what the ones before it left.
pub proof fn lemma_taken_up(body: JsonView, fields: Seq<Seq<char>>, n: nat)
    requires
        redacted(body, fields).1 is None,
        n <= fields.len(),
    ensures
        redacted_from(body_after(body, fields, n), fields, n as int) == redacted(body, fields),
        n < fields.len() ==> redacted_field(body_after(body, fields, n), fields[n as int]) is Ok,
    decreases n,
{
    if n > 0 {
        lemma_taken_up(body, fields, (n - 1) as nat);
    }
}

/// A field that does not fit a body does not fit it after any fields that
/// fit were redacted.
pub proof fn lemma_stuck_through(
    body: JsonView,
    fields: Seq<Seq<char>>,
    from: int,
    field: Seq<char>,
)
    requires
        0 <= from <= fields.len(),
        redacted_from(body, fields, from).1 is None,
        redacted_field(body, field) is Err,
    ensures
        redacted_field(redacted_from(body, fields, from).0, field) is Err,
    decreases fields.len() - from,
{
    if from < fields.len() {
        lemma_field_stays_stuck(body, field, fields[from]);
        lemma_stuck_through(redacted_field(body, fields[from])->Ok_0, fields, from + 1, field);
    }
}

/// A field that finds nothing to redact in a body finds nothing in it after
/// any fields that fit were redacted, if it fits the body then.
pub proof fn lemma_settled_through(
    body: JsonView,
    fields: Seq<Seq<char>>,
    from: int,
    field: Seq<char>,
)
    requires
        0 <= from <= fields.len(),
        redacted_from(body, fields, from).1 is None,
        redacted_field(body, field) == Ok::<JsonView, Stuck>(body),
        redacted_field(redacted_from(body, fields, from).0, field) is Ok,
    ensures
        redacted_field(redacted_from(body, fields, from).0, field) == Ok::<JsonView, Stuck>(
            redacted_from(body, fields, from).0,
        ),
    decreases fields.len() - from,
{
    if from < fields.len() {
        let next = redacted_field(body, fields[from])->Ok_0;
        if redacted_field(next, field) is Err {
            lemma_stuck_through(next, fields, from + 1, field);
        }
        lemma_field_stays_settled(body, field, fields[from]);
        lemma_settled_through(next, fields, from + 1, field);
    }
}

/// In a second pass that fits, the first `n` fields change nothing.
proof fn lemma_second_pass(body: JsonView, fields: Seq<Seq<char>>, n: nat)
    requires
        redacted(body, fields).1 is None,
        redacted(redacted(body, fields).0, fields).1 is None,
        n <= fields.len(),
    ensures
        redacted_from(redacted(body, fields).0, fields, n as int) == redacted(
            redacted(body, fields).0,
            fields,
        ),
    decreases n,
{
    if n > 0 {
        let done = redacted(body, fields).0;
        let field = fields[n - 1];
        lemma_second_pass(body, fields, (n - 1) as nat);
        lemma_taken_up(body, fields, (n - 1) as nat);
        lemma_taken_up(body, fields, n);
        let before = body_after(body, fields, (n - 1) as nat);
        let here = body_after(body, fields, n);
        lemma_field_is_idempotent(before, field);
        lemma_settled_through(here, fields, n as int, field);
    }
}

/// Redacting a redacted body with the same fields once more gives the same
/// body: what was neutralized stays neutral, what was removed stays absent.
///
/// This holds wherever the second pass fits the body. It does not fit where
/// a later field of the list took away what an earlier, longer path walks
/// through.
pub proof fn lemma_redaction_is_idempotent(body: JsonView, fields: Seq<Seq<char>>)
    requires
        redacted(body, fields).1 is None,
        redacted(redacted(body, fields).0, fields).1 is None,
    ensures
        redacted(redacted(body, fields).0, fields).0 == redacted(body, fields).0,
{
    lemma_second_pass(body, fields, fields.len());
}

} // verus!
