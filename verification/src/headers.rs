//! Headers written as lines of the form `Name: value`.

use vstd::prelude::*;
use vstd::string::*;
use crate::strmap::{Pair, StringMap};
use crate::text::{chars_of, find_char, find_from, slice_of, texts};

verus! {

/// A character of white space, as Unicode counts it.
pub open spec fn is_space(c: char) -> bool {
    let n = c as u32;
    ||| 0x09 <= n <= 0x0d
    ||| n == 0x20
    ||| n == 0x85
    ||| n == 0xa0
    ||| n == 0x1680
    ||| 0x2000 <= n <= 0x200a
    ||| n == 0x2028
    ||| n == 0x2029
    ||| n == 0x202f
    ||| n == 0x205f
    ||| n == 0x3000
}

/// The least index from `from` on, below `to`, that holds no white space; or
/// `to` where all of it is white space.
pub open spec fn skip_spaces(s: Seq<char>, from: int, to: int) -> int
    decreases to - from,
{
    if from >= to || from < 0 || to > s.len() {
        to
    } else if !is_space(s[from]) {
        from
    } else {
        skip_spaces(s, from + 1, to)
    }
}

/// The end of what is left of `s` between `from` and `to` when the white
/// space before `to` is dropped.
pub open spec fn drop_spaces(s: Seq<char>, from: int, to: int) -> int
    decreases to - from,
{
    if to <= from || from < 0 || to > s.len() {
        from
    } else if !is_space(s[to - 1]) {
        to
    } else {
        drop_spaces(s, from, to - 1)
    }
}

/// `s` between `from` and `to`, without the white space at its two ends.
pub open spec fn trimmed_between(s: Seq<char>, from: int, to: int) -> Seq<char> {
    let start = skip_spaces(s, from, to);
    s.subrange(start, drop_spaces(s, start, to))
}

/// What a line says: the text before its first colon is the name, the text
/// after it the value, both without white space at their ends. A line
/// without a colon says nothing.
pub open spec fn header_of(line: Seq<char>) -> Option<Pair> {
    let colon = find_from(line, ':', 0);
    if 0 <= colon < line.len() {
        Some(
            Pair {
                key: trimmed_between(line, 0, colon),
                value: trimmed_between(line, colon + 1, line.len() as int),
            },
        )
    } else {
        None
    }
}

/// The entries that the first `n` lines give, written one after the other
/// into an empty map: a name that comes again takes the later value.
pub open spec fn headers_of(lines: Seq<Seq<char>>, n: nat) -> Seq<Pair>
    decreases n,
{
    if n == 0 {
        Seq::empty()
    } else {
        let sofar = headers_of(lines, (n - 1) as nat);
        match header_of(lines[n - 1]) {
            Some(pair) => written(sofar, pair),
            None => sofar,
        }
    }
}

/// The entries with `pair` written into them: over the value of the first
/// entry of its key where there is one, at the end where there is none.
pub open spec fn written(pairs: Seq<Pair>, pair: Pair) -> Seq<Pair> {
    let at = find_from(crate::strmap::keys_of(pairs), pair.key, 0);
    if 0 <= at < pairs.len() {
        pairs.update(at, pair)
    } else {
        pairs.push(pair)
    }
}

/// Whether `c` is white space.
pub fn is_white(c: char) -> (r: bool)
    ensures
        r == is_space(c),
{
    let n: u32 = c as u32;
    (0x09 <= n && n <= 0x0d) || n == 0x20 || n == 0x85 || n == 0xa0 || n == 0x1680 || (0x2000 <= n
        && n <= 0x200a) || n == 0x2028 || n == 0x2029 || n == 0x202f || n == 0x205f || n == 0x3000
}

/// The text of `chars` between `from` and `to`, without the white space at
/// its two ends.
pub fn trim_between(text: &str, chars: &Vec<char>, from: usize, to: usize) -> (out: String)
    requires
        chars@ == text@,
        from <= to <= chars.len(),
    ensures
        out@ == trimmed_between(text@, from as int, to as int),
{
    let mut start: usize = from;
    while start < to && is_white(chars[start])
        invariant
            from <= start <= to <= chars.len(),
            skip_spaces(chars@, start as int, to as int) == skip_spaces(
                chars@,
                from as int,
                to as int,
            ),
        decreases to - start,
    {
        start = start + 1;
    }
    let mut end: usize = to;
    while end > start && is_white(chars[end - 1])
        invariant
            start <= end <= to <= chars.len(),
            drop_spaces(chars@, start as int, end as int) == drop_spaces(
                chars@,
                start as int,
                to as int,
            ),
        decreases end - start,
    {
        end = end - 1;
    }
    slice_of(text, start, end)
}

/// Reads one line of the form `Name: value`.
pub fn parse_header_line(line: &str) -> (r: Option<(String, String)>)
    ensures
        match (header_of(line@), r) {
            (Some(pair), Some((name, value))) => name@ == pair.key && value@ == pair.value,
            (None, None) => true,
            _ => false,
        },
{
    let chars = chars_of(line);
    let colon = find_char(&chars, ':', 0);
    if colon < chars.len() {
        let name = trim_between(line, &chars, 0, colon);
        let value = trim_between(line, &chars, colon + 1, chars.len());
        Some((name, value))
    } else {
        None
    }
}

/// Reads lines of the form `Name: value` into a map. Lines without a colon
/// are passed over.
pub fn headers_from_lines(lines: &Vec<String>) -> (headers: StringMap)
    ensures
        headers.pairs() == headers_of(texts(lines@), lines@.len()),
        headers.wf(),
{
    let mut headers = StringMap::new();
    let mut i: usize = 0;
    while i < lines.len()
        invariant
            i <= lines.len(),
            headers.pairs() == headers_of(texts(lines@), i as nat),
            headers.wf(),
        decreases lines.len() - i,
    {
        proof {
            crate::text::lemma_find_from(
                crate::strmap::keys_of(headers.pairs()),
                header_of(lines@[i as int]@)->0.key,
                0,
            );
        }
        match parse_header_line(lines[i].as_str()) {
            Some((name, value)) => {
                headers.insert(name, value);
            },
            None => {},
        }
        i = i + 1;
    }
    headers
}

} // verus!
