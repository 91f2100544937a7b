//! Outputs of a run and the snapshot that collects them by name.

use vstd::prelude::*;
use vstd::string::*;
use crate::json::{Json, JsonView};
use crate::text::{find_from, lemma_find_from, lemma_find_from_is, lemma_find_from_push};

verus! {

/// What one executed test case gave.
///
/// In a snapshot an output is known by its `name` alone: two outputs of the
/// same name are the same entry, whatever else they hold.
#[derive(Debug)]
pub struct Output {
    pub name: String,
    pub method_str: String,
    /// The full URL that was asked.
    pub endpoint: String,
    pub status_code: u16,
    pub request_payload: Option<Json>,
    /// The response body after redaction, if the response had one.
    pub response_body: Option<Json>,
}

/// The mathematical value of an [`Output`].
pub struct OutputView {
    pub name: Seq<char>,
    pub method_str: Seq<char>,
    pub endpoint: Seq<char>,
    pub status_code: u16,
    pub request_payload: Option<JsonView>,
    pub response_body: Option<JsonView>,
}

/// The mathematical value of an optional JSON value.
pub open spec fn optional_view(v: Option<Json>) -> Option<JsonView> {
    match v {
        Some(j) => Some(j@),
        None => None,
    }
}

impl View for Output {
    type V = OutputView;

    open spec fn view(&self) -> OutputView {
        OutputView {
            name: self.name@,
            method_str: self.method_str@,
            endpoint: self.endpoint@,
            status_code: self.status_code,
            request_payload: optional_view(self.request_payload),
            response_body: optional_view(self.response_body),
        }
    }
}

impl Output {
    /// Whether the two outputs are the same entry of a snapshot: whether they
    /// bear the same name.
    pub fn same_entry(&self, other: &Output) -> (r: bool)
        ensures
            r == (self@.name == other@.name),
    {
        self.name == other.name
    }
}

impl Clone for Output {
    fn clone(&self) -> (r: Self)
        ensures
            r@ == self@,
    {
        Output {
            name: self.name.clone(),
            method_str: self.method_str.clone(),
            endpoint: self.endpoint.clone(),
            status_code: self.status_code,
            request_payload: clone_optional(&self.request_payload),
            response_body: clone_optional(&self.response_body),
        }
    }
}

/// A copy of an optional JSON value.
pub fn clone_optional(v: &Option<Json>) -> (r: Option<Json>)
    ensures
        optional_view(r) == optional_view(*v),
{
    match v {
        Some(j) => Some(j.clone()),
        None => None,
    }
}

/// Whether two optional JSON values are both absent, or present and deeply
/// equal.
pub fn same_optional(a: &Option<Json>, b: &Option<Json>) -> (r: bool)
    ensures
        r == (optional_view(*a) == optional_view(*b)),
{
    match a {
        Some(x) => match b {
            Some(y) => x.same(y),
            None => false,
        },
        None => b.is_none(),
    }
}

/// The views of a list of outputs, one by one.
pub open spec fn outputs_view(list: Seq<Output>) -> Seq<OutputView> {
    Seq::new(list.len(), |i: int| list[i]@)
}

/// The names of a list of outputs, in order.
pub open spec fn names_of(list: Seq<OutputView>) -> Seq<Seq<char>> {
    Seq::new(list.len(), |i: int| list[i].name)
}

/// No name stands in two entries.
pub open spec fn distinct_names(list: Seq<OutputView>) -> bool {
    forall|i: int, j: int| 0 <= i < j < list.len() ==> list[i].name != list[j].name
}

/// The index of the first entry of the name `name`, or the length of the
/// list where there is none.
pub open spec fn index_of_name(list: Seq<OutputView>, name: Seq<char>) -> int {
    find_from(names_of(list), name, 0)
}

/// The list with `o` written into it: over the first entry of its name where
/// there is one, at the end where there is none.
pub open spec fn put(list: Seq<OutputView>, o: OutputView) -> Seq<OutputView> {
    let at = index_of_name(list, o.name);
    if 0 <= at < list.len() {
        list.update(at, o)
    } else {
        list.push(o)
    }
}

/// The entries that come of writing the first `n` of `list` one after the
/// other into an empty snapshot: one entry for each name, at the place where
/// the name came first, holding what came last.
pub open spec fn collected(list: Seq<OutputView>, n: nat) -> Seq<OutputView>
    decreases n,
{
    if n == 0 {
        Seq::empty()
    } else {
        put(collected(list, (n - 1) as nat), list[n - 1])
    }
}

/// The map that a list of entries stands for: each name goes to its first
/// entry.
pub open spec fn by_name(list: Seq<OutputView>) -> Map<Seq<char>, OutputView> {
    Map::new(
        |name: Seq<char>| index_of_name(list, name) < list.len(),
        |name: Seq<char>| list[index_of_name(list, name)],
    )
}

/// `index_of_name` stays in range, lands on the name, and skips nothing of
/// that name.
pub proof fn lemma_index_of_name(list: Seq<OutputView>, name: Seq<char>)
    ensures
        0 <= index_of_name(list, name) <= list.len(),
        index_of_name(list, name) < list.len() ==> list[index_of_name(list, name)].name == name,
        forall|j: int| 0 <= j < index_of_name(list, name) ==> list[j].name != name,
{
    lemma_find_from(names_of(list), name, 0);
    let at = index_of_name(list, name);
    if at < list.len() {
        assert(names_of(list)[at] == name);
    }
    assert forall|j: int| 0 <= j < at implies list[j].name != name by {
        assert(names_of(list)[j] != name);
    }
}

/// Where names are distinct, an entry is found at its own place.
pub proof fn lemma_index_of_own_name(list: Seq<OutputView>, i: int)
    requires
        distinct_names(list),
        0 <= i < list.len(),
    ensures
        index_of_name(list, list[i].name) == i,
{
    assert forall|j: int| 0 <= j < i implies names_of(list)[j] != list[i].name by {}
    assert(names_of(list)[i] == list[i].name);
    lemma_find_from_is(names_of(list), list[i].name, 0, i);
}

/// Writing an output keeps names distinct.
pub proof fn lemma_put_keeps_distinct(list: Seq<OutputView>, o: OutputView)
    requires
        distinct_names(list),
    ensures
        distinct_names(put(list, o)),
{
    lemma_index_of_name(list, o.name);
    let at = index_of_name(list, o.name);
    let after = put(list, o);
    assert forall|i: int, j: int| 0 <= i < j < after.len() implies after[i].name
        != after[j].name by {
        if at < list.len() {
            assert(after[i].name == list[i].name);
            assert(after[j].name == list[j].name);
        } else if j == list.len() {
            assert(after[i].name == list[i].name);
        }
    }
}

/// Writing an output sets its name in the map and touches no other.
pub proof fn lemma_put_is_insert(list: Seq<OutputView>, o: OutputView)
    ensures
        by_name(put(list, o)) == by_name(list).insert(o.name, o),
{
    lemma_index_of_name(list, o.name);
    let at = index_of_name(list, o.name);
    let after = put(list, o);
    assert forall|q: Seq<char>| #[trigger]
        by_name(after).contains_key(q) == by_name(list).insert(o.name, o).contains_key(q) && (
        by_name(after).contains_key(q) ==> by_name(after)[q] == by_name(list).insert(o.name, o)[q]) by {
        lemma_index_of_name(list, q);
        lemma_index_of_name(after, q);
        if at < list.len() {
            assert(names_of(after) =~= names_of(list));
        } else {
            assert(names_of(after) =~= names_of(list).push(o.name));
            lemma_find_from_push(names_of(list), q, o.name);
        }
    }
    assert(by_name(after) =~= by_name(list).insert(o.name, o));
}

/// What has been collected holds each name once.
pub proof fn lemma_collected_is_distinct(list: Seq<OutputView>, n: nat)
    requires
        n <= list.len(),
    ensures
        distinct_names(collected(list, n)),
    decreases n,
{
    if n > 0 {
        lemma_collected_is_distinct(list, (n - 1) as nat);
        lemma_put_keeps_distinct(collected(list, (n - 1) as nat), list[n - 1]);
    }
}

/// Of a list of distinct names, the first `n` are collected as they stand.
pub proof fn lemma_collect_distinct_is_same(list: Seq<OutputView>, n: nat)
    requires
        distinct_names(list),
        n <= list.len(),
    ensures
        collected(list, n) == list.take(n as int),
    decreases n,
{
    if n > 0 {
        lemma_collect_distinct_is_same(list, (n - 1) as nat);
        let sofar = list.take(n - 1);
        let o = list[n - 1];
        assert forall|j: int| 0 <= j < sofar.len() implies names_of(sofar)[j] != o.name by {
            assert(sofar[j] == list[j]);
        }
        lemma_find_from_is(names_of(sofar), o.name, 0, sofar.len() as int);
        assert(put(sofar, o) =~= list.take(n as int));
    } else {
        assert(list.take(0) =~= Seq::<OutputView>::empty());
    }
}

/// A list of distinct names is collected as it stands: to list the outputs
/// of a snapshot and to collect them again gives the same snapshot.
pub proof fn lemma_listed_and_collected_is_same(list: Seq<OutputView>)
    requires
        distinct_names(list),
    ensures
        collected(list, list.len()) == list,
{
    lemma_collect_distinct_is_same(list, list.len());
    assert(list.take(list.len() as int) =~= list);
}

/// The outputs of a run, one for each name.
#[derive(Debug)]
pub struct Snapshot {
    outputs: Vec<Output>,
}

impl View for Snapshot {
    type V = Map<Seq<char>, OutputView>;

    open spec fn view(&self) -> Map<Seq<char>, OutputView> {
        by_name(self.entries())
    }
}

impl Snapshot {
    /// The entries, in the order in which their names first came in.
    pub closed spec fn entries(&self) -> Seq<OutputView> {
        outputs_view(self.outputs@)
    }

    /// Each name stands in one entry only.
    pub open spec fn wf(&self) -> bool {
        distinct_names(self.entries())
    }

    /// The empty snapshot.
    pub fn new() -> (s: Snapshot)
        ensures
            s.entries() == Seq::<OutputView>::empty(),
            s.wf(),
    {
        let s = Snapshot { outputs: Vec::new() };
        assert(s.entries() =~= Seq::<OutputView>::empty());
        s
    }

    /// The number of entries.
    pub fn len(&self) -> (n: usize)
        ensures
            n == self.entries().len(),
    {
        self.outputs.len()
    }

    /// Entry `i`.
    pub fn output_at(&self, i: usize) -> (o: &Output)
        requires
            i < self.entries().len(),
        ensures
            o@ == self.entries()[i as int],
    {
        &self.outputs[i]
    }

    /// The index of the first entry of the name `name`, or the number of
    /// entries where there is none.
    pub fn position(&self, name: &str) -> (at: usize)
        ensures
            at == index_of_name(self.entries(), name@),
            at <= self.entries().len(),
    {
        let wanted = name.to_owned();
        let mut i: usize = 0;
        while i < self.outputs.len() && self.outputs[i].name != wanted
            invariant
                i <= self.outputs.len(),
                wanted@ == name@,
                forall|j: int| 0 <= j < i ==> names_of(self.entries())[j] != name@,
            decreases self.outputs.len() - i,
        {
            i = i + 1;
        }
        proof {
            lemma_find_from_is(names_of(self.entries()), name@, 0, i as int);
        }
        i
    }

    /// The entry of the name `name`.
    pub fn get(&self, name: &str) -> (r: Option<&Output>)
        ensures
            r is Some <==> self@.contains_key(name@),
            r is Some ==> r->0@ == self@[name@],
    {
        let at = self.position(name);
        if at < self.outputs.len() {
            Some(&self.outputs[at])
        } else {
            None
        }
    }

    /// Writes `output` into the snapshot. An entry of the same name gives way
    /// to it: the last write wins.
    pub fn insert(&mut self, output: Output)
        ensures
            final(self).entries() == put(old(self).entries(), output@),
            final(self)@ == old(self)@.insert(output.name@, output@),
            old(self).wf() ==> final(self).wf(),
    {
        let at = self.position(output.name.as_str());
        let ghost before = self.entries();
        proof {
            lemma_put_is_insert(before, output@);
            if distinct_names(before) {
                lemma_put_keeps_distinct(before, output@);
            }
        }
        if at < self.outputs.len() {
            self.outputs[at] = output;
            assert(self.entries() =~= before.update(at as int, output@));
        } else {
            self.outputs.push(output);
            assert(self.entries() =~= before.push(output@));
        }
    }

    /// The snapshot that collects `outputs` in their order.
    pub fn from_outputs(outputs: Vec<Output>) -> (s: Snapshot)
        ensures
            s.entries() == collected(outputs_view(outputs@), outputs@.len()),
            s.wf(),
    {
        let ghost list = outputs_view(outputs@);
        let mut s = Snapshot::new();
        let mut i: usize = 0;
        while i < outputs.len()
            invariant
                i <= outputs.len(),
                list == outputs_view(outputs@),
                s.entries() == collected(list, i as nat),
                s.wf(),
            decreases outputs.len() - i,
        {
            s.insert(outputs[i].clone());
            i = i + 1;
        }
        s
    }

    /// The entries, in order.
    pub fn outputs(&self) -> (list: Vec<Output>)
        ensures
            outputs_view(list@) == self.entries(),
    {
        let mut list: Vec<Output> = Vec::new();
        let mut i: usize = 0;
        while i < self.outputs.len()
            invariant
                i <= self.outputs.len(),
                list.len() == i,
                forall|j: int| 0 <= j < i ==> list@[j]@ == self.outputs@[j]@,
            decreases self.outputs.len() - i,
        {
            list.push(self.outputs[i].clone());
            i = i + 1;
        }
        assert(outputs_view(list@) =~= self.entries());
        list
    }
}

impl Clone for Snapshot {
    fn clone(&self) -> (s: Self)
        ensures
            s.entries() == self.entries(),
    {
        let s = Snapshot { outputs: self.outputs() };
        s
    }
}

} // verus!
