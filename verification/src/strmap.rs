//! A finite map from strings to strings, kept as a list of entries.
//!
//! The list keeps the order in which keys first came in. Looking a key up
//! finds its first entry, so the map is defined on every list; lists built
//! through [`StringMap::insert`] hold each key once.

use vstd::prelude::*;
use crate::text::{find_from, lemma_find_from, lemma_find_from_is, lemma_find_from_push};

verus! {

/// One entry of a [`StringMap`], as a mathematical value.
pub struct Pair {
    pub key: Seq<char>,
    pub value: Seq<char>,
}

#[derive(Debug)]
struct Entry {
    key: String,
    value: String,
}

/// A finite map from strings to strings.
#[derive(Debug)]
pub struct StringMap {
    entries: Vec<Entry>,
}

/// The keys of a list of pairs, in order.
pub open spec fn keys_of(pairs: Seq<Pair>) -> Seq<Seq<char>> {
    Seq::new(pairs.len(), |i: int| pairs[i].key)
}

/// The map that a list of pairs stands for: each key goes to the value of its
/// first entry.
pub open spec fn map_of(pairs: Seq<Pair>) -> Map<Seq<char>, Seq<char>> {
    Map::new(
        |k: Seq<char>| find_from(keys_of(pairs), k, 0) < pairs.len(),
        |k: Seq<char>| pairs[find_from(keys_of(pairs), k, 0)].value,
    )
}

/// No key stands in two entries.
pub open spec fn distinct_keys(pairs: Seq<Pair>) -> bool {
    forall|i: int, j: int| 0 <= i < j < pairs.len() ==> pairs[i].key != pairs[j].key
}

/// A key is in the map exactly when some entry holds it.
pub proof fn lemma_map_of_domain(pairs: Seq<Pair>, k: Seq<char>)
    ensures
        map_of(pairs).contains_key(k) <==> exists|i: int| 0 <= i < pairs.len() && pairs[i].key == k,
{
    let keys = keys_of(pairs);
    lemma_find_from(keys, k, 0);
    if map_of(pairs).contains_key(k) {
        let i = find_from(keys, k, 0);
        assert(pairs[i].key == k);
    }
    if exists|i: int| 0 <= i < pairs.len() && pairs[i].key == k {
        let i = choose|i: int| 0 <= i < pairs.len() && pairs[i].key == k;
        assert(keys[i] == k);
    }
}

/// Where keys are distinct, every entry is what the map holds for its key.
pub proof fn lemma_map_of_entry(pairs: Seq<Pair>, i: int)
    requires
        distinct_keys(pairs),
        0 <= i < pairs.len(),
    ensures
        map_of(pairs).contains_key(pairs[i].key),
        map_of(pairs)[pairs[i].key] == pairs[i].value,
{
    let keys = keys_of(pairs);
    let k = pairs[i].key;
    lemma_find_from(keys, k, 0);
    assert(keys[i] == k);
    let at = find_from(keys, k, 0);
    assert(keys[at] == k);
}

/// Replacing the value of the first entry of `k` sets `k` in the map.
pub proof fn lemma_map_of_update(pairs: Seq<Pair>, k: Seq<char>, v: Seq<char>)
    requires
        map_of(pairs).contains_key(k),
    ensures
        map_of(pairs.update(find_from(keys_of(pairs), k, 0), Pair { key: k, value: v }))
            == map_of(pairs).insert(k, v),
{
    let keys = keys_of(pairs);
    let at = find_from(keys, k, 0);
    lemma_find_from(keys, k, 0);
    let after = pairs.update(at, Pair { key: k, value: v });
    assert(keys_of(after) =~= keys);
    assert forall|q: Seq<char>| #[trigger]
        map_of(after).contains_key(q) == map_of(pairs).insert(k, v).contains_key(q) && (map_of(
            after,
        ).contains_key(q) ==> map_of(after)[q] == map_of(pairs).insert(k, v)[q]) by {
        lemma_find_from(keys, q, 0);
    }
    assert(map_of(after) =~= map_of(pairs).insert(k, v));
}

/// Appending an entry for a key that the map lacks sets that key in the map.
pub proof fn lemma_map_of_push(pairs: Seq<Pair>, k: Seq<char>, v: Seq<char>)
    requires
        !map_of(pairs).contains_key(k),
    ensures
        map_of(pairs.push(Pair { key: k, value: v })) == map_of(pairs).insert(k, v),
{
    let keys = keys_of(pairs);
    let after = pairs.push(Pair { key: k, value: v });
    let keys_after = keys_of(after);
    assert(keys_after =~= keys.push(k));
    assert forall|q: Seq<char>| #[trigger]
        map_of(after).contains_key(q) == map_of(pairs).insert(k, v).contains_key(q) && (map_of(
            after,
        ).contains_key(q) ==> map_of(after)[q] == map_of(pairs).insert(k, v)[q]) by {
        lemma_find_from(keys, q, 0);
        lemma_find_from_push(keys, q, k);
    }
    assert(map_of(after) =~= map_of(pairs).insert(k, v));
}

impl View for StringMap {
    type V = Map<Seq<char>, Seq<char>>;

    open spec fn view(&self) -> Map<Seq<char>, Seq<char>> {
        map_of(self.pairs())
    }
}

impl StringMap {
    /// The entries, in the order in which their keys first came in.
    pub closed spec fn pairs(&self) -> Seq<Pair> {
        Seq::new(
            self.entries@.len(),
            |i: int| Pair { key: self.entries@[i].key@, value: self.entries@[i].value@ },
        )
    }

    /// Each key stands in one entry only.
    pub open spec fn wf(&self) -> bool {
        distinct_keys(self.pairs())
    }

    /// The empty map.
    pub fn new() -> (m: StringMap)
        ensures
            m.pairs() == Seq::<Pair>::empty(),
            m.wf(),
    {
        let m = StringMap { entries: Vec::new() };
        assert(m.pairs() =~= Seq::<Pair>::empty());
        m
    }

    /// The number of entries.
    pub fn len(&self) -> (n: usize)
        ensures
            n == self.pairs().len(),
    {
        self.entries.len()
    }

    /// The key of entry `i`.
    pub fn key_at(&self, i: usize) -> (k: &String)
        requires
            i < self.pairs().len(),
        ensures
            k@ == self.pairs()[i as int].key,
    {
        &self.entries[i].key
    }

    /// The value of entry `i`.
    pub fn value_at(&self, i: usize) -> (v: &String)
        requires
            i < self.pairs().len(),
        ensures
            v@ == self.pairs()[i as int].value,
    {
        &self.entries[i].value
    }

    /// The index of the first entry of `key`, or the number of entries where
    /// the map lacks it.
    pub fn position(&self, key: &str) -> (at: usize)
        ensures
            at == find_from(keys_of(self.pairs()), key@, 0),
            at <= self.pairs().len(),
    {
        let wanted = key.to_owned();
        let mut i: usize = 0;
        while i < self.entries.len() && self.entries[i].key != wanted
            invariant
                i <= self.entries.len(),
                wanted@ == key@,
                forall|j: int| 0 <= j < i ==> keys_of(self.pairs())[j] != key@,
            decreases self.entries.len() - i,
        {
            i = i + 1;
        }
        proof {
            lemma_find_from_is(keys_of(self.pairs()), key@, 0, i as int);
        }
        i
    }

    /// The value that the map holds for `key`.
    pub fn get(&self, key: &str) -> (r: Option<&String>)
        ensures
            r is Some <==> self@.contains_key(key@),
            r is Some ==> r->0@ == self@[key@],
    {
        let at = self.position(key);
        if at < self.entries.len() {
            Some(&self.entries[at].value)
        } else {
            None
        }
    }

    /// Sets `key` to `value`: in place where the map has the key, at the end
    /// where it has not.
    pub fn insert(&mut self, key: String, value: String)
        ensures
            final(self)@ == old(self)@.insert(key@, value@),
            old(self)@.contains_key(key@) ==> final(self).pairs() == old(self).pairs().update(
                find_from(keys_of(old(self).pairs()), key@, 0),
                Pair { key: key@, value: value@ },
            ),
            !old(self)@.contains_key(key@) ==> final(self).pairs() == old(self).pairs().push(
                Pair { key: key@, value: value@ },
            ),
            old(self).wf() ==> final(self).wf(),
    {
        let at = self.position(key.as_str());
        let ghost before = self.pairs();
        proof {
            lemma_find_from(keys_of(before), key@, 0);
        }
        if at < self.entries.len() {
            self.entries[at].value = value;
            proof {
                assert(self.pairs() =~= before.update(at as int, Pair { key: key@, value: value@ }));
                lemma_map_of_update(before, key@, value@);
            }
        } else {
            self.entries.push(Entry { key, value });
            proof {
                assert(self.pairs() =~= before.push(Pair { key: key@, value: value@ }));
                lemma_map_of_push(before, key@, value@);
                if distinct_keys(before) {
                    assert forall|i: int, j: int| 0 <= i < j < self.pairs().len() implies self.pairs()[i].key
                        != self.pairs()[j].key by {
                        if j == before.len() {
                            assert(keys_of(before)[i] == before[i].key);
                        }
                    }
                }
            }
        }
    }

    /// Gives entry `i` a new value; its key stays.
    pub fn set_value_at(&mut self, i: usize, value: String)
        requires
            i < old(self).pairs().len(),
        ensures
            final(self).pairs() == old(self).pairs().update(
                i as int,
                Pair { key: old(self).pairs()[i as int].key, value: value@ },
            ),
            old(self).wf() ==> final(self).wf(),
    {
        let ghost before = self.pairs();
        self.entries[i].value = value;
        assert(self.pairs() =~= before.update(
            i as int,
            Pair { key: before[i as int].key, value: value@ },
        ));
    }
}

impl Clone for StringMap {
    fn clone(&self) -> (m: Self)
        ensures
            m.pairs() == self.pairs(),
    {
        let mut entries: Vec<Entry> = Vec::new();
        let mut i: usize = 0;
        while i < self.entries.len()
            invariant
                i <= self.entries.len(),
                entries.len() == i,
                forall|j: int|
                    0 <= j < i ==> entries@[j].key@ == self.entries@[j].key@ && entries@[j].value@
                        == self.entries@[j].value@,
            decreases self.entries.len() - i,
        {
            entries.push(
                Entry { key: self.entries[i].key.clone(), value: self.entries[i].value.clone() },
            );
            i = i + 1;
        }
        let m = StringMap { entries };
        assert(m.pairs() =~= self.pairs());
        m
    }
}

} // verus!
