//! Searching in sequences and strings, stated over views.

use vstd::prelude::*;
use vstd::string::*;

verus! {

/// The least index at or after `from` at which `s` holds `x`, or the length
/// of `s` where there is none.
pub open spec fn find_from<A>(s: Seq<A>, x: A, from: int) -> int
    decreases s.len() - from,
{
    if from < 0 || from >= s.len() {
        s.len() as int
    } else if s[from] == x {
        from
    } else {
        find_from(s, x, from + 1)
    }
}

/// `find_from` stays in range, lands on `x`, and skips nothing that holds `x`.
pub proof fn lemma_find_from<A>(s: Seq<A>, x: A, from: int)
    requires
        0 <= from <= s.len(),
    ensures
        from <= find_from(s, x, from) <= s.len(),
        find_from(s, x, from) < s.len() ==> s[find_from(s, x, from)] == x,
        forall|j: int| from <= j < find_from(s, x, from) ==> s[j] != x,
    decreases s.len() - from,
{
    if from < s.len() && s[from] != x {
        lemma_find_from(s, x, from + 1);
    }
}

/// An index that lands on `x` (or on the end) with no `x` between `from` and
/// it is the one that `find_from` gives.
pub proof fn lemma_find_from_is<A>(s: Seq<A>, x: A, from: int, at: int)
    requires
        0 <= from <= at <= s.len(),
        at < s.len() ==> s[at] == x,
        forall|j: int| from <= j < at ==> s[j] != x,
    ensures
        find_from(s, x, from) == at,
    decreases at - from,
{
    if from < at {
        lemma_find_from_is(s, x, from + 1, at);
    }
}

/// Where the search from the start lands once one more item stands at the
/// end: where it landed before, if it landed; on the new item, if that is
/// what is looked for; past the end, if not.
pub proof fn lemma_find_from_push<A>(s: Seq<A>, x: A, y: A)
    ensures
        find_from(s.push(y), x, 0) == (if find_from(s, x, 0) < s.len() {
            find_from(s, x, 0)
        } else if y == x {
            s.len() as int
        } else {
            s.len() as int + 1
        }),
{
    lemma_find_from(s, x, 0);
    let at = find_from(s, x, 0);
    if at < s.len() {
        lemma_find_from_is(s.push(y), x, 0, at);
    } else if y == x {
        lemma_find_from_is(s.push(y), x, 0, s.len() as int);
    } else {
        lemma_find_from_is(s.push(y), x, 0, s.len() as int + 1);
    }
}

/// Searching in a suffix finds the same place as searching in the whole.
pub proof fn lemma_find_from_suffix<A>(s: Seq<A>, x: A, cut: int, from: int)
    requires
        0 <= cut <= from <= s.len(),
    ensures
        find_from(s.subrange(cut, s.len() as int), x, from - cut) == find_from(s, x, from) - cut,
{
    lemma_find_from(s, x, from);
    lemma_find_from_is(s.subrange(cut, s.len() as int), x, from - cut, find_from(s, x, from) - cut);
}

/// Searching behind a prefix finds the same place as searching in what
/// follows the prefix.
pub proof fn lemma_find_from_prefix<A>(a: Seq<A>, b: Seq<A>, x: A, from: int)
    requires
        0 <= from <= b.len(),
    ensures
        find_from(a + b, x, a.len() + from) == a.len() + find_from(b, x, from),
{
    lemma_find_from(b, x, from);
    let at = find_from(b, x, from);
    assert forall|j: int| a.len() + from <= j < a.len() + at implies (a + b)[j] != x by {
        assert((a + b)[j] == b[j - a.len()]);
    }
    if at < b.len() {
        assert((a + b)[a.len() + at] == b[at]);
    }
    lemma_find_from_is(a + b, x, a.len() + from, a.len() + at);
}

/// The views of a list of strings, one by one.
pub open spec fn texts(list: Seq<String>) -> Seq<Seq<char>> {
    Seq::new(list.len(), |i: int| list[i]@)
}

/// The pieces of `s` between the occurrences of `sep`: one more than there
/// are occurrences, empty ones among them.
pub open spec fn split(s: Seq<char>, sep: char) -> Seq<Seq<char>>
    decreases s.len(),
{
    let at = find_from(s, sep, 0);
    if 0 <= at < s.len() {
        seq![s.subrange(0, at)] + split(s.subrange(at + 1, s.len() as int), sep)
    } else {
        seq![s]
    }
}

/// There is always at least one piece.
pub proof fn lemma_split_is_not_empty(s: Seq<char>, sep: char)
    ensures
        split(s, sep).len() >= 1,
{
}

/// The characters of `s`, in order.
pub fn chars_of(s: &str) -> (out: Vec<char>)
    ensures
        out@ == s@,
{
    let mut out: Vec<char> = Vec::new();
    for c in it: s.chars()
        invariant
            it.seq() == s@,
            out@ == it.seq().subrange(0, it.index() as int),
    {
        out.push(c);
    }
    out
}

/// Whether two strings hold the same characters.
pub fn same_text(a: &str, b: &str) -> (r: bool)
    ensures
        r == (a@ == b@),
{
    let x = chars_of(a);
    let y = chars_of(b);
    if x.len() != y.len() {
        return false;
    }
    let mut i: usize = 0;
    while i < x.len()
        invariant
            i <= x.len(),
            x.len() == y.len(),
            x@ == a@,
            y@ == b@,
            forall|j: int| 0 <= j < i ==> x@[j] == y@[j],
        decreases x.len() - i,
    {
        if x[i] != y[i] {
            return false;
        }
        i = i + 1;
    }
    assert(x@ =~= y@);
    true
}

/// The first place at or after `from` where `chars` holds `c`.
pub fn find_char(chars: &Vec<char>, c: char, from: usize) -> (at: usize)
    requires
        from <= chars.len(),
    ensures
        at == find_from(chars@, c, from as int),
        from <= at <= chars.len(),
{
    let mut i: usize = from;
    while i < chars.len() && chars[i] != c
        invariant
            from <= i <= chars.len(),
            forall|j: int| from <= j < i ==> chars@[j] != c,
        decreases chars.len() - i,
    {
        i = i + 1;
    }
    proof {
        lemma_find_from_is(chars@, c, from as int, i as int);
    }
    i
}

/// The pieces of `s` between the occurrences of `sep`.
pub fn split_at_char(s: &str, sep: char) -> (pieces: Vec<String>)
    ensures
        texts(pieces@) == split(s@, sep),
        pieces.len() >= 1,
{
    let chars = chars_of(s);
    let n = chars.len();
    let mut pieces: Vec<String> = Vec::new();
    let mut pos: usize = 0;
    let mut at = find_char(&chars, sep, 0);
    proof {
        assert(s@.subrange(0, n as int) =~= s@);
        assert(texts(pieces@) + split(s@, sep) =~= split(s@, sep));
    }
    while at < n
        invariant
            chars@ == s@,
            n == chars.len(),
            pos <= at <= n,
            at == find_from(chars@, sep, pos as int),
            texts(pieces@) + split(s@.subrange(pos as int, n as int), sep) == split(s@, sep),
        decreases n - pos,
    {
        let ghost rest = s@.subrange(pos as int, n as int);
        let ghost done = pieces@;
        proof {
            lemma_find_from_suffix(s@, sep, pos as int, pos as int);
            assert(rest.subrange(0, at - pos) =~= s@.subrange(pos as int, at as int));
            assert(rest.subrange(at - pos + 1, rest.len() as int) =~= s@.subrange(
                at + 1,
                n as int,
            ));
        }
        pieces.push(slice_of(s, pos, at));
        pos = at + 1;
        at = find_char(&chars, sep, pos);
        proof {
            assert(texts(pieces@) =~= texts(done) + seq![rest.subrange(0, find_from(rest, sep, 0))]);
        }
    }
    let ghost done = pieces@;
    proof {
        lemma_find_from_suffix(s@, sep, pos as int, pos as int);
    }
    pieces.push(slice_of(s, pos, n));
    proof {
        assert(texts(pieces@) =~= texts(done) + seq![s@.subrange(pos as int, n as int)]);
    }
    pieces
}

/// The characters of `s` from `from` up to `to`, as a string of their own.
pub fn slice_of(s: &str, from: usize, to: usize) -> (out: String)
    requires
        from <= to <= s@.len(),
    ensures
        out@ == s@.subrange(from as int, to as int),
{
    s.substring_char(from, to).to_owned()
}

} // verus!
