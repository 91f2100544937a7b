//! Redaction: fields of a response body that vary from run to run are
//! neutralized or removed before the body is stored or compared.
//!
//! A field is named by a dotted path. A path of one segment names a member of
//! the body itself: its value is neutralized and the key stays. A longer path
//! is walked from the body through objects, and the member that its last
//! segment names is removed from the object that the walk ends in. The walk
//! must pass through objects only and find each key but the last: a path that
//! does not fit the body is an error.

use vstd::prelude::*;
use crate::json::{Json, JsonView, Member, MemberView, Number, lemma_array_view, lemma_object_view, members_view};
use crate::text::{find_from, lemma_find_from_is, split, split_at_char, texts};

verus! {

/// Why the walk along a path stopped.
#[derive(Copy, Clone, Debug, PartialEq, Eq, Structural)]
pub enum Stuck {
    /// The value reached after `depth` segments is not an object.
    NotAnObject { depth: usize },
    /// The object reached after `depth` segments has no member of the name
    /// that the next segment gives.
    MissingKey { depth: usize },
}

/// A path that does not fit the body: the field's place in the list, and
/// where its walk stopped.
#[derive(Copy, Clone, Debug, PartialEq, Eq, Structural)]
pub struct RedactError {
    pub field: usize,
    pub stuck: Stuck,
}

/// A number of the same kind that holds zero.
pub open spec fn zero_like(n: Number) -> Number {
    match n {
        Number::Float(_) => Number::Float(0),
        _ => Number::PosInt(0),
    }
}

/// The value of the same kind that holds nothing: `false`, zero, the empty
/// string, the empty array, the empty object; `null` stays.
pub open spec fn neutral(v: JsonView) -> JsonView {
    match v {
        JsonView::Null => JsonView::Null,
        JsonView::Bool(_) => JsonView::Bool(false),
        JsonView::Number(n) => JsonView::Number(zero_like(n)),
        JsonView::String(_) => JsonView::String(Seq::empty()),
        JsonView::Array(_) => JsonView::Array(Seq::empty()),
        JsonView::Object(_) => JsonView::Object(Seq::empty()),
    }
}

/// The keys of a list of members, in order.
pub open spec fn member_keys(ms: Seq<MemberView>) -> Seq<Seq<char>> {
    Seq::new(ms.len(), |i: int| ms[i].key)
}

/// The members with every value under `key` neutralized.
pub open spec fn neutral_under(ms: Seq<MemberView>, key: Seq<char>) -> Seq<MemberView> {
    Seq::new(
        ms.len(),
        |i: int|
            if ms[i].key == key {
                MemberView { key: ms[i].key, value: neutral(ms[i].value) }
            } else {
                ms[i]
            },
    )
}

/// The members without those of the name `key`, the others in their order.
pub open spec fn without_key(ms: Seq<MemberView>, key: Seq<char>) -> Seq<MemberView>
    decreases ms.len(),
{
    if ms.len() == 0 {
        ms
    } else if ms.last().key == key {
        without_key(ms.drop_last(), key)
    } else {
        without_key(ms.drop_last(), key).push(ms.last())
    }
}

/// The body with its member `key` neutralized; a body that is no object, or
/// has no such member, stays as it is.
pub open spec fn neutralized(body: JsonView, key: Seq<char>) -> JsonView {
    match body {
        JsonView::Object(ms) => JsonView::Object(neutral_under(ms, key)),
        _ => body,
    }
}

/// The value with the member at the end of `path` removed, the walk being at
/// segment `depth`; or where the walk stops.
pub open spec fn removed(v: JsonView, path: Seq<Seq<char>>, depth: int) -> Result<JsonView, Stuck>
    decreases path.len() - depth,
{
    match v {
        JsonView::Object(ms) => {
            if depth < 0 || depth + 1 >= path.len() {
                Ok(JsonView::Object(without_key(ms, path[depth])))
            } else {
                let at = find_from(member_keys(ms), path[depth], 0);
                if 0 <= at < ms.len() {
                    match removed(ms[at].value, path, depth + 1) {
                        Ok(inner) => Ok(
                            JsonView::Object(
                                ms.update(at, MemberView { key: ms[at].key, value: inner }),
                            ),
                        ),
                        Err(stuck) => Err(stuck),
                    }
                } else {
                    Err(Stuck::MissingKey { depth: depth as usize })
                }
            }
        },
        _ => Err(Stuck::NotAnObject { depth: depth as usize }),
    }
}

/// The body after the redaction of one field.
pub open spec fn redacted_field(body: JsonView, field: Seq<char>) -> Result<JsonView, Stuck> {
    let path = split(field, '.');
    if path.len() == 1 {
        Ok(neutralized(body, field))
    } else {
        removed(body, path, 0)
    }
}

/// The body after the redaction of the fields from place `from` on, in
/// order, up to the first that does not fit; and that one's error.
pub open spec fn redacted_from(body: JsonView, fields: Seq<Seq<char>>, from: int) -> (
    JsonView,
    Option<RedactError>,
)
    decreases fields.len() - from,
{
    if from < 0 || from >= fields.len() {
        (body, None)
    } else {
        match redacted_field(body, fields[from]) {
            Ok(next) => redacted_from(next, fields, from + 1),
            Err(stuck) => (body, Some(RedactError { field: from as usize, stuck })),
        }
    }
}

/// The body after the redaction of all `fields`, in order.
pub open spec fn redacted(body: JsonView, fields: Seq<Seq<char>>) -> (
    JsonView,
    Option<RedactError>,
) {
    redacted_from(body, fields, 0)
}

/// What a suite's optional list of fields names: nothing where it is absent.
pub open spec fn field_list(fields: Option<Vec<String>>) -> Seq<Seq<char>> {
    match fields {
        Some(list) => texts(list@),
        None => Seq::empty(),
    }
}

/// Discards what `v` holds and keeps its kind.
pub fn neutralize(v: &mut Json)
    ensures
        final(v)@ == neutral(old(v)@),
{
    match v {
        Json::Null => {},
        Json::Bool(b) => {
            *b = false;
        },
        Json::Number(n) => {
            let zero = match n {
                Number::Float(_) => Number::Float(0),
                _ => Number::PosInt(0),
            };
            *n = zero;
        },
        Json::String(s) => {
            *s = String::new();
        },
        Json::Array(items) => {
            items.clear();
            proof {
                lemma_array_view(*items);
            }
        },
        Json::Object(members) => {
            members.clear();
            proof {
                lemma_object_view(*members);
            }
        },
    }
    proof {
        let ghost now = *v;
        match now {
            Json::Array(items) => {
                assert(now@->Array_0 =~= Seq::<JsonView>::empty());
            },
            Json::Object(members) => {
                assert(now@->Object_0 =~= Seq::<MemberView>::empty());
            },
            _ => {},
        }
    }
}

/// Neutralizes the value of every member of `body` named `key`.
pub fn neutralize_field(body: &mut Json, key: &str)
    ensures
        final(body)@ == neutralized(old(body)@, key@),
{
    let wanted = key.to_owned();
    match body {
        Json::Object(members) => {
            let ghost before = *members;
            let mut i: usize = 0;
            while i < members.len()
                invariant
                    i <= members.len(),
                    wanted@ == key@,
                    members.len() == before.len(),
                    forall|j: int| 0 <= j < i ==> members@[j]@ == neutral_under(members_view(before@), key@)[j],
                    forall|j: int| i <= j < members.len() ==> members@[j] == before@[j],
                decreases members.len() - i,
            {
                if members[i].key == wanted {
                    neutralize(&mut members[i].value);
                }
                i = i + 1;
            }
            proof {
                lemma_object_view(before);
                lemma_object_view(*members);
                assert(members_view(members@) =~= neutral_under(members_view(before@), key@));
            }
        },
        _ => {},
    }
}

/// Removes every member of `members` named `key`.
pub fn remove_members(members: &mut Vec<Member>, key: &str)
    ensures
        members_view(final(members)@) == without_key(members_view(old(members)@), key@),
{
    let wanted = key.to_owned();
    let ghost before = members_view(members@);
    let ghost seen: int = 0;
    let mut i: usize = 0;
    proof {
        assert(before.take(0) =~= Seq::<MemberView>::empty());
        assert(members_view(members@).take(0) =~= Seq::<MemberView>::empty());
        assert(members_view(members@).skip(0) =~= before.skip(0));
    }
    while i < members.len()
        invariant
            wanted@ == key@,
            0 <= i <= members.len(),
            i <= seen <= before.len(),
            members.len() - i == before.len() - seen,
            members_view(members@).take(i as int) == without_key(before.take(seen), key@),
            members_view(members@).skip(i as int) == before.skip(seen),
        decreases members.len() - i,
    {
        let ghost now = members_view(members@);
        proof {
            assert(now[i as int] == now.skip(i as int)[0]);
            assert(before[seen] == before.skip(seen)[0]);
            assert(before.take(seen + 1).drop_last() =~= before.take(seen));
            assert(before.take(seen + 1).last() == before[seen]);
        }
        if members[i].key == wanted {
            members.remove(i);
            proof {
                let after = members_view(members@);
                assert(after =~= now.remove(i as int));
                assert(after.take(i as int) =~= now.take(i as int));
                assert(after.skip(i as int) =~= now.skip(i as int).skip(1));
                assert(before.skip(seen + 1) =~= before.skip(seen).skip(1));
                seen = seen + 1;
            }
        } else {
            i = i + 1;
            proof {
                assert(now.take(i as int) =~= now.take(i - 1).push(now[i - 1]));
                assert(now.skip(i as int) =~= now.skip(i - 1).skip(1));
                assert(before.skip(seen + 1) =~= before.skip(seen).skip(1));
                seen = seen + 1;
            }
        }
    }
    proof {
        assert(before.take(seen) =~= before);
        assert(members_view(members@).take(i as int) =~= members_view(members@));
    }
}

/// Removes the member at the end of `path` from the object that the walk
/// from `v` along the segments from `depth` on ends in. Where the walk stops,
/// `v` is left as it was.
pub fn remove_path(v: &mut Json, path: &Vec<String>, depth: usize) -> (r: Result<(), Stuck>)
    requires
        depth < path.len(),
    ensures
        match removed(old(v)@, texts(path@), depth as int) {
            Ok(after) => r is Ok && final(v)@ == after,
            Err(stuck) => r == Err::<(), Stuck>(stuck) && final(v)@ == old(v)@,
        },
    decreases path.len() - depth,
{
    let ghost segments = texts(path@);
    match v {
        Json::Object(members) => {
            let ghost before = *members;
            proof {
                lemma_object_view(before);
            }
            if depth + 1 >= path.len() {
                remove_members(members, path[depth].as_str());
                proof {
                    lemma_object_view(*members);
                }
                Ok(())
            } else {
                let mut at: usize = 0;
                while at < members.len() && members[at].key != path[depth]
                    invariant
                        at <= members.len(),
                        depth < path.len(),
                        *members == before,
                        forall|j: int| 0 <= j < at ==> member_keys(members_view(before@))[j] != path@[depth as int]@,
                    decreases members.len() - at,
                {
                    at = at + 1;
                }
                proof {
                    lemma_find_from_is(
                        member_keys(members_view(before@)),
                        segments[depth as int],
                        0,
                        at as int,
                    );
                }
                if at < members.len() {
                    let r = remove_path(&mut members[at].value, path, depth + 1);
                    proof {
                        lemma_object_view(*members);
                        match removed(before@[at as int].value@, segments, depth + 1) {
                            Ok(inner) => {
                                assert(members_view(members@) =~= members_view(before@).update(
                                    at as int,
                                    MemberView { key: before@[at as int].key@, value: inner },
                                ));
                            },
                            Err(_) => {
                                assert(members_view(members@) =~= members_view(before@));
                            },
                        }
                    }
                    r
                } else {
                    Err(Stuck::MissingKey { depth })
                }
            }
        },
        _ => Err(Stuck::NotAnObject { depth }),
    }
}

/// Redacts one field of `body`: neutralizes the member that a path of one
/// segment names, removes the one at the end of a longer path.
pub fn skip_field(body: &mut Json, field: &str) -> (r: Result<(), Stuck>)
    ensures
        match redacted_field(old(body)@, field@) {
            Ok(after) => r is Ok && final(body)@ == after,
            Err(stuck) => r == Err::<(), Stuck>(stuck) && final(body)@ == old(body)@,
        },
{
    let path = split_at_char(field, '.');
    if path.len() == 1 {
        neutralize_field(body, field);
        Ok(())
    } else {
        remove_path(body, &path, 0)
    }
}

/// Redacts `fields` in `body`, in order. The first field that does not fit
/// the body ends the work with its error; the fields before it have been
/// redacted, that one and those after it have not.
pub fn skip_fields(body: &mut Json, fields: &Option<Vec<String>>) -> (r: Result<(), RedactError>)
    ensures
        final(body)@ == redacted(old(body)@, field_list(*fields)).0,
        match redacted(old(body)@, field_list(*fields)).1 {
            None => r is Ok,
            Some(error) => r == Err::<(), RedactError>(error),
        },
{
    match fields {
        None => Ok(()),
        Some(list) => {
            let ghost names = texts(list@);
            let mut i: usize = 0;
            while i < list.len()
                invariant
                    i <= list.len(),
                    names == texts(list@),
                    names == field_list(*fields),
                    redacted_from(body@, names, i as int) == redacted(old(body)@, names),
                decreases list.len() - i,
            {
                let ghost here = body@;
                assert(names[i as int] == list@[i as int]@);
                match skip_field(body, list[i].as_str()) {
                    Ok(()) => {},
                    Err(stuck) => {
                        assert(redacted_from(here, names, i as int) == (
                            here,
                            Some(RedactError { field: i, stuck }),
                        ));
                        return Err(RedactError { field: i, stuck });
                    },
                }
                i = i + 1;
            }
            Ok(())
        },
    }
}

} // verus!
