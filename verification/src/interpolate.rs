//! Placeholders of the form `${NAME}` and their replacement from an
//! environment.
//!
//! A string is read once, from left to right. A placeholder opens at the first
//! `${` and closes at the first `}` after it; what stands between is its name.
//! It gives way to the value that the environment holds for the name, or to
//! nothing where the environment lacks it. What a value holds is not read
//! again. An opening without a closing brace ends the reading: it and all
//! after it stay as they are.

use vstd::prelude::*;
use vstd::string::*;
use crate::strmap::StringMap;
use crate::text::{
    chars_of, find_char, find_from, lemma_find_from, lemma_find_from_is, lemma_find_from_prefix,
    lemma_find_from_suffix,
};

verus! {

/// A placeholder opens at `i`: `s` holds `${` there.
pub open spec fn opens_at(s: Seq<char>, i: int) -> bool {
    0 <= i && i + 1 < s.len() && s[i] == '$' && s[i + 1] == '{'
}

/// The least index at or after `from` at which a placeholder opens, or the
/// length of `s` where none does.
pub open spec fn find_open(s: Seq<char>, from: int) -> int
    decreases s.len() - from,
{
    if from < 0 || from >= s.len() {
        s.len() as int
    } else if opens_at(s, from) {
        from
    } else {
        find_open(s, from + 1)
    }
}

/// What the environment gives for `name`: its value, or nothing.
pub open spec fn lookup(env: Map<Seq<char>, Seq<char>>, name: Seq<char>) -> Seq<char> {
    if env.contains_key(name) {
        env[name]
    } else {
        Seq::empty()
    }
}

/// `s` with its placeholders replaced from `env`.
pub open spec fn interpolated(s: Seq<char>, env: Map<Seq<char>, Seq<char>>) -> Seq<char>
    decreases s.len(),
{
    let start = find_open(s, 0);
    let end = find_from(s, '}', start + 2);
    if 0 <= start && start + 2 <= end < s.len() {
        s.subrange(0, start) + lookup(env, s.subrange(start + 2, end)) + interpolated(
            s.subrange(end + 1, s.len() as int),
            env,
        )
    } else {
        s
    }
}

/// `find_open` stays in range, lands on an opening, and skips none.
pub proof fn lemma_find_open(s: Seq<char>, from: int)
    requires
        0 <= from <= s.len(),
    ensures
        from <= find_open(s, from) <= s.len(),
        find_open(s, from) < s.len() ==> opens_at(s, find_open(s, from)),
        forall|j: int| from <= j < find_open(s, from) ==> !opens_at(s, j),
    decreases s.len() - from,
{
    if from < s.len() && !opens_at(s, from) {
        lemma_find_open(s, from + 1);
    }
}

/// An index that lands on an opening (or on the end) with no opening between
/// `from` and it is the one that `find_open` gives.
pub proof fn lemma_find_open_is(s: Seq<char>, from: int, at: int)
    requires
        0 <= from <= at <= s.len(),
        at < s.len() ==> opens_at(s, at),
        forall|j: int| from <= j < at ==> !opens_at(s, j),
    ensures
        find_open(s, from) == at,
    decreases at - from,
{
    if from < at {
        lemma_find_open_is(s, from + 1, at);
    }
}

/// Searching in a suffix finds the same opening as searching in the whole.
pub proof fn lemma_find_open_suffix(s: Seq<char>, cut: int, from: int)
    requires
        0 <= cut <= from <= s.len(),
    ensures
        find_open(s.subrange(cut, s.len() as int), from - cut) == find_open(s, from) - cut,
{
    lemma_find_open(s, from);
    let rest = s.subrange(cut, s.len() as int);
    let at = find_open(s, from);
    assert forall|j: int| from - cut <= j < at - cut implies !opens_at(rest, j) by {
        assert(!opens_at(s, j + cut));
    }
    lemma_find_open_is(rest, from - cut, at - cut);
}

/// The first place at or after `from` where a placeholder opens in `chars`.
pub fn find_opening(chars: &Vec<char>, from: usize) -> (at: usize)
    requires
        from <= chars.len(),
    ensures
        at == find_open(chars@, from as int),
        from <= at <= chars.len(),
        at < chars.len() ==> opens_at(chars@, at as int),
{
    let n = chars.len();
    let mut i: usize = from;
    while i < n && !(i + 1 < n && chars[i] == '$' && chars[i + 1] == '{')
        invariant
            n == chars.len(),
            from <= i <= n,
            forall|j: int| from <= j < i ==> !opens_at(chars@, j),
        decreases n - i,
    {
        i = i + 1;
    }
    proof {
        lemma_find_open_is(chars@, from as int, i as int);
    }
    i
}

/// Replaces the placeholders of `src` from `env`.
pub fn interpolate(src: &str, env: &StringMap) -> (out: String)
    ensures
        out@ == interpolated(src@, env@),
{
    let chars = chars_of(src);
    let n = chars.len();
    let mut out = String::new();
    let mut pos: usize = 0;
    let mut start = find_opening(&chars, 0);
    let mut end = if start < n {
        find_char(&chars, '}', start + 2)
    } else {
        n
    };
    proof {
        lemma_find_open(chars@, 0);
        assert(src@.subrange(0, n as int) =~= src@);
        assert(out@ + interpolated(src@, env@) =~= interpolated(src@, env@));
    }
    while start < n && end < n
        invariant
            chars@ == src@,
            n == chars.len(),
            pos <= n,
            start == find_open(chars@, pos as int),
            pos <= start <= n,
            start < n ==> start + 2 <= end <= n && end == find_from(chars@, '}', start + 2),
            out@ + interpolated(src@.subrange(pos as int, n as int), env@) == interpolated(
                src@,
                env@,
            ),
        decreases n - pos,
    {
        let ghost rest = src@.subrange(pos as int, n as int);
        let ghost done = out@;
        proof {
            lemma_find_open_suffix(src@, pos as int, pos as int);
            lemma_find_from_suffix(src@, '}', pos as int, start + 2);
            assert(rest.subrange(0, start - pos) =~= src@.subrange(pos as int, start as int));
            assert(rest.subrange(start - pos + 2, end - pos) =~= src@.subrange(
                start + 2,
                end as int,
            ));
            assert(rest.subrange(end - pos + 1, rest.len() as int) =~= src@.subrange(
                end + 1,
                n as int,
            ));
        }
        out.append(src.substring_char(pos, start));
        match env.get(src.substring_char(start + 2, end)) {
            Some(value) => {
                out.append(value.as_str());
            },
            None => {},
        }
        pos = end + 1;
        start = find_opening(&chars, pos);
        end = if start < n {
            find_char(&chars, '}', start + 2)
        } else {
            n
        };
        proof {
            lemma_find_open(chars@, pos as int);
            assert(out@ + interpolated(src@.subrange(pos as int, n as int), env@) =~= done
                + interpolated(rest, env@));
        }
    }
    proof {
        lemma_find_open_suffix(src@, pos as int, pos as int);
        if start < n {
            lemma_find_from_suffix(src@, '}', pos as int, start + 2);
        }
        assert(interpolated(src@.subrange(pos as int, n as int), env@) == src@.subrange(
            pos as int,
            n as int,
        ));
    }
    out.append(src.substring_char(pos, n));
    out
}

/// A string in which no placeholder opens stays as it is.
pub proof fn lemma_clean_is_kept(s: Seq<char>, env: Map<Seq<char>, Seq<char>>)
    requires
        forall|i: int| !opens_at(s, i),
    ensures
        interpolated(s, env) == s,
{
    lemma_find_open(s, 0);
}

/// An opening that is never closed stays, and so does all that follows it.
pub proof fn lemma_unclosed_is_kept(s: Seq<char>, env: Map<Seq<char>, Seq<char>>)
    requires
        forall|i: int| find_open(s, 0) <= i < s.len() ==> s[i] != '}',
    ensures
        interpolated(s, env) == s,
{
    lemma_find_open(s, 0);
    let start = find_open(s, 0);
    if start < s.len() {
        lemma_find_from(s, '}', start + 2);
    }
}

/// The first placeholder of a string gives way to what the environment
/// holds for its name, and the reading goes on behind it.
///
/// `before` holds no opening and `name` no closing brace.
pub proof fn lemma_first_placeholder(
    before: Seq<char>,
    name: Seq<char>,
    after: Seq<char>,
    env: Map<Seq<char>, Seq<char>>,
)
    requires
        forall|i: int| !opens_at(before, i),
        forall|i: int| 0 <= i < name.len() ==> name[i] != '}',
    ensures
        interpolated(before + seq!['$', '{'] + name + seq!['}'] + after, env) == before + lookup(
            env,
            name,
        ) + interpolated(after, env),
{
    let s = before + seq!['$', '{'] + name + seq!['}'] + after;
    let start = before.len() as int;
    let end = start + 2 + name.len();
    assert forall|j: int| 0 <= j < start implies !opens_at(s, j) by {
        if opens_at(s, j) {
            if j + 1 < start {
                assert(opens_at(before, j));
            } else {
                assert(s[j + 1] == '$');
            }
        }
    }
    assert(opens_at(s, start));
    lemma_find_open_is(s, 0, start);
    assert(s[end] == '}');
    assert forall|j: int| start + 2 <= j < end implies s[j] != '}' by {
        assert(s[j] == name[j - start - 2]);
    }
    lemma_find_from_is(s, '}', start + 2, end);
    assert(s.subrange(0, start) =~= before);
    assert(s.subrange(start + 2, end) =~= name);
    assert(s.subrange(end + 1, s.len() as int) =~= after);
}

/// Every placeholder that opens in `s` closes in `s`.
pub open spec fn closed(s: Seq<char>) -> bool
    decreases s.len(),
{
    let start = find_open(s, 0);
    let end = find_from(s, '}', start + 2);
    if start >= s.len() {
        true
    } else if 0 <= start && start + 2 <= end < s.len() {
        closed(s.subrange(end + 1, s.len() as int))
    } else {
        false
    }
}

/// No placeholder opens across the seam of `a` and `b`: not `$` at the end
/// of the one and `{` at the start of the other.
pub open spec fn joins(a: Seq<char>, b: Seq<char>) -> bool {
    !(a.len() > 0 && b.len() > 0 && a.last() == '$' && b[0] == '{')
}

/// A prefix in which no placeholder opens goes before what its
/// continuation gives.
pub proof fn lemma_clean_prefix(a: Seq<char>, b: Seq<char>, env: Map<Seq<char>, Seq<char>>)
    requires
        forall|i: int| !opens_at(a, i),
        joins(a, b),
    ensures
        interpolated(a + b, env) == a + interpolated(b, env),
{
    let s = a + b;
    lemma_find_open(b, 0);
    let start = find_open(b, 0);
    assert forall|j: int| 0 <= j < a.len() + start implies !opens_at(s, j) by {
        if opens_at(s, j) {
            if j + 1 < a.len() {
                assert(opens_at(a, j));
            } else if j >= a.len() {
                assert(opens_at(b, j - a.len()));
            }
        }
    }
    if start < b.len() {
        assert(opens_at(s, a.len() + start));
    }
    lemma_find_open_is(s, 0, a.len() + start);
    if start < b.len() {
        lemma_find_from_prefix(a, b, '}', start + 2);
        let end = find_from(b, '}', start + 2);
        lemma_find_from(b, '}', start + 2);
        if end < b.len() {
            assert(s.subrange(0, a.len() + start) =~= a + b.subrange(0, start));
            assert(s.subrange(a.len() + start + 2, a.len() + end) =~= b.subrange(start + 2, end));
            assert(s.subrange(a.len() + end + 1, s.len() as int) =~= b.subrange(
                end + 1,
                b.len() as int,
            ));
            assert(interpolated(s, env) =~= a + interpolated(b, env));
        }
    }
}

/// A prefix whose placeholders all close is read on its own: what it gives
/// goes before what its continuation gives.
pub proof fn lemma_closed_prefix(a: Seq<char>, b: Seq<char>, env: Map<Seq<char>, Seq<char>>)
    requires
        closed(a),
        joins(a, b),
    ensures
        interpolated(a + b, env) == interpolated(a, env) + interpolated(b, env),
    decreases a.len(),
{
    lemma_find_open(a, 0);
    let start = find_open(a, 0);
    if start >= a.len() {
        lemma_clean_prefix(a, b, env);
    } else {
        let end = find_from(a, '}', start + 2);
        lemma_find_from(a, '}', start + 2);
        let before = a.subrange(0, start);
        let name = a.subrange(start + 2, end);
        let after = a.subrange(end + 1, a.len() as int);
        assert forall|i: int| !opens_at(before, i) by {
            if opens_at(before, i) {
                assert(opens_at(a, i));
            }
        }
        assert(a =~= before + seq!['$', '{'] + name + seq!['}'] + after);
        assert(a + b =~= before + seq!['$', '{'] + name + seq!['}'] + (after + b));
        lemma_first_placeholder(before, name, after, env);
        lemma_first_placeholder(before, name, after + b, env);
        if after.len() > 0 {
            assert(after.last() == a.last());
        }
        lemma_closed_prefix(after, b, env);
        assert(interpolated(a + b, env) =~= interpolated(a, env) + interpolated(b, env));
    }
}

/// A placeholder gives way to what the environment holds for its name,
/// wherever it stands: what is before it and what is after it are read on
/// their own.
///
/// The placeholders before it all close, and `name` holds no closing brace.
pub proof fn lemma_placeholder_gives_value(
    before: Seq<char>,
    name: Seq<char>,
    after: Seq<char>,
    env: Map<Seq<char>, Seq<char>>,
)
    requires
        closed(before),
        forall|i: int| 0 <= i < name.len() ==> name[i] != '}',
    ensures
        interpolated(before + seq!['$', '{'] + name + seq!['}'] + after, env) == interpolated(
            before,
            env,
        ) + lookup(env, name) + interpolated(after, env),
{
    let none = Seq::<char>::empty();
    let rest = none + seq!['$', '{'] + name + seq!['}'] + after;
    assert(before + seq!['$', '{'] + name + seq!['}'] + after =~= before + rest);
    assert(rest[0] == '$');
    lemma_closed_prefix(before, rest, env);
    lemma_first_placeholder(none, name, after, env);
    assert(interpolated(before, env) + (none + lookup(env, name) + interpolated(after, env))
        =~= interpolated(before, env) + lookup(env, name) + interpolated(after, env));
}

/// A placeholder whose name the environment lacks gives way to nothing,
/// wherever it stands.
///
/// The placeholders before it all close, and `name` holds no closing brace.
pub proof fn lemma_absent_name_gives_nothing(
    before: Seq<char>,
    name: Seq<char>,
    after: Seq<char>,
    env: Map<Seq<char>, Seq<char>>,
)
    requires
        closed(before),
        forall|i: int| 0 <= i < name.len() ==> name[i] != '}',
        !env.contains_key(name),
    ensures
        interpolated(before + seq!['$', '{'] + name + seq!['}'] + after, env) == interpolated(
            before,
            env,
        ) + interpolated(after, env),
{
    lemma_placeholder_gives_value(before, name, after, env);
    assert(interpolated(before, env) + lookup(env, name) + interpolated(after, env)
        =~= interpolated(before, env) + interpolated(after, env));
}

} // verus!
