//! JSON values as a tagged union, with a mathematical view and deep equality.

use vstd::prelude::*;
use vstd::std_specs::cmp::PartialEqSpecImpl;

verus! {

/// A JSON number, keeping apart the three kinds a document can hold.
///
/// A `Float` carries the bit pattern of a binary64 value, so that two numbers
/// are the same exactly when they are written the same way.
#[derive(Copy, Debug)]
pub enum Number {
    PosInt(u64),
    NegInt(i64),
    Float(u64),
}

/// A JSON value.
///
/// An object is the list of its members in document order. Functions that
/// look a key up treat every member of that name alike, so they mean the
/// usual thing on objects whose keys are distinct, and are total on the rest.
#[derive(Debug)]
pub enum Json {
    Null,
    Bool(bool),
    Number(Number),
    String(String),
    Array(Vec<Json>),
    Object(Vec<Member>),
}

/// One `key: value` pair of an object.
#[derive(Debug)]
pub struct Member {
    pub key: String,
    pub value: Json,
}

/// The mathematical value of a [`Json`].
pub enum JsonView {
    Null,
    Bool(bool),
    Number(Number),
    String(Seq<char>),
    Array(Seq<JsonView>),
    Object(Seq<MemberView>),
}

/// The mathematical value of a [`Member`].
pub struct MemberView {
    pub key: Seq<char>,
    pub value: JsonView,
}

/// The value that `j` stands for.
pub open spec fn json_view(j: Json) -> JsonView
    decreases j,
{
    match j {
        Json::Null => JsonView::Null,
        Json::Bool(b) => JsonView::Bool(b),
        Json::Number(n) => JsonView::Number(n),
        Json::String(s) => JsonView::String(s@),
        Json::Array(items) => JsonView::Array(
            Seq::new(
                items@.len(),
                |i: int|
                    if 0 <= i < items@.len() {
                        json_view(items@[i])
                    } else {
                        JsonView::Null
                    },
            ),
        ),
        Json::Object(members) => JsonView::Object(
            Seq::new(
                members@.len(),
                |i: int|
                    if 0 <= i < members@.len() {
                        MemberView { key: members@[i].key@, value: json_view(members@[i].value) }
                    } else {
                        MemberView { key: Seq::empty(), value: JsonView::Null }
                    },
            ),
        ),
    }
}

impl View for Json {
    type V = JsonView;

    open spec fn view(&self) -> JsonView {
        json_view(*self)
    }
}

impl View for Member {
    type V = MemberView;

    open spec fn view(&self) -> MemberView {
        MemberView { key: self.key@, value: self.value@ }
    }
}

/// The views of a list of values, one by one.
pub open spec fn array_view(items: Seq<Json>) -> Seq<JsonView> {
    Seq::new(items.len(), |i: int| items[i]@)
}

/// The views of a list of members, one by one.
pub open spec fn members_view(members: Seq<Member>) -> Seq<MemberView> {
    Seq::new(members.len(), |i: int| members[i]@)
}

/// The view of an array is the list of its items' views.
pub proof fn lemma_array_view(items: Vec<Json>)
    ensures
        Json::Array(items)@ == JsonView::Array(array_view(items@)),
{
    reveal_with_fuel(json_view, 2);
    assert(Json::Array(items)@->Array_0 =~= array_view(items@));
}

/// The view of an object is the list of its members' views.
pub proof fn lemma_object_view(members: Vec<Member>)
    ensures
        Json::Object(members)@ == JsonView::Object(members_view(members@)),
{
    reveal_with_fuel(json_view, 2);
    assert(Json::Object(members)@->Object_0 =~= members_view(members@));
}

impl Number {
    /// Whether two numbers are of the same kind and hold the same digits.
    pub fn same(&self, other: &Number) -> (r: bool)
        ensures
            r == (*self == *other),
    {
        match (self, other) {
            (Number::PosInt(a), Number::PosInt(b)) => *a == *b,
            (Number::NegInt(a), Number::NegInt(b)) => *a == *b,
            (Number::Float(a), Number::Float(b)) => *a == *b,
            _ => false,
        }
    }
}

impl Clone for Number {
    fn clone(&self) -> (r: Self)
        ensures
            r == *self,
    {
        *self
    }
}

impl Json {
    /// Deep equality: the two values have the same view.
    #[verifier::loop_isolation(false)]
    pub fn same(&self, other: &Json) -> (r: bool)
        ensures
            r == (self@ == other@),
        decreases self,
    {
        match self {
            Json::Null => matches!(other, Json::Null),
            Json::Bool(a) => match other {
                Json::Bool(b) => *a == *b,
                _ => false,
            },
            Json::Number(a) => match other {
                Json::Number(b) => a.same(b),
                _ => false,
            },
            Json::String(a) => match other {
                Json::String(b) => *a == *b,
                _ => false,
            },
            Json::Array(a) => match other {
                Json::Array(b) => {
                    proof {
                        lemma_array_view(*a);
                        lemma_array_view(*b);
                    }
                    if a.len() != b.len() {
                        assert(array_view(a@).len() != array_view(b@).len());
                        return false;
                    }
                    let mut i: usize = 0;
                    while i < a.len()
                        invariant
                            i <= a.len(),
                            a.len() == b.len(),
                            forall|j: int| 0 <= j < i ==> a@[j]@ == b@[j]@,
                        decreases a.len() - i,
                    {
                        proof {
                            let whole = *self;
                            let part = a@[i as int];
                            assert(decreases_to!(whole => part));
                        }
                        if !a[i].same(&b[i]) {
                            assert(array_view(a@)[i as int] != array_view(b@)[i as int]);
                            return false;
                        }
                        i = i + 1;
                    }
                    assert(array_view(a@) =~= array_view(b@));
                    true
                },
                _ => false,
            },
            Json::Object(a) => match other {
                Json::Object(b) => {
                    proof {
                        lemma_object_view(*a);
                        lemma_object_view(*b);
                    }
                    if a.len() != b.len() {
                        assert(members_view(a@).len() != members_view(b@).len());
                        return false;
                    }
                    let mut i: usize = 0;
                    while i < a.len()
                        invariant
                            i <= a.len(),
                            a.len() == b.len(),
                            forall|j: int| 0 <= j < i ==> a@[j]@ == b@[j]@,
                        decreases a.len() - i,
                    {
                        proof {
                            let whole = *self;
                            let part = a@[i as int].value;
                            assert(decreases_to!(whole => part));
                        }
                        if !(a[i].key == b[i].key && a[i].value.same(&b[i].value)) {
                            assert(members_view(a@)[i as int] != members_view(b@)[i as int]);
                            return false;
                        }
                        i = i + 1;
                    }
                    assert(members_view(a@) =~= members_view(b@));
                    true
                },
                _ => false,
            },
        }
    }
}

impl Clone for Json {
    #[verifier::loop_isolation(false)]
    fn clone(&self) -> (r: Self)
        ensures
            r@ == self@,
        decreases self,
    {
        match self {
            Json::Null => Json::Null,
            Json::Bool(b) => Json::Bool(*b),
            Json::Number(n) => Json::Number(*n),
            Json::String(s) => Json::String(s.clone()),
            Json::Array(items) => {
                let mut out: Vec<Json> = Vec::new();
                let mut i: usize = 0;
                while i < items.len()
                    invariant
                        i <= items.len(),
                        out.len() == i,
                        forall|j: int| 0 <= j < i ==> out@[j]@ == items@[j]@,
                    decreases items.len() - i,
                {
                    proof {
                        let whole = *self;
                        let part = items@[i as int];
                        assert(decreases_to!(whole => part));
                    }
                    out.push(items[i].clone());
                    i = i + 1;
                }
                proof {
                    lemma_array_view(*items);
                    lemma_array_view(out);
                    assert(array_view(out@) =~= array_view(items@));
                }
                Json::Array(out)
            },
            Json::Object(members) => {
                let mut out: Vec<Member> = Vec::new();
                let mut i: usize = 0;
                while i < members.len()
                    invariant
                        i <= members.len(),
                        out.len() == i,
                        forall|j: int| 0 <= j < i ==> out@[j]@ == members@[j]@,
                    decreases members.len() - i,
                {
                    proof {
                        let whole = *self;
                        let part = members@[i as int].value;
                        assert(decreases_to!(whole => part));
                    }
                    out.push(Member { key: members[i].key.clone(), value: members[i].value.clone() });
                    i = i + 1;
                }
                proof {
                    lemma_object_view(*members);
                    lemma_object_view(out);
                    assert(members_view(out@) =~= members_view(members@));
                }
                Json::Object(out)
            },
        }
    }
}

impl Clone for Member {
    fn clone(&self) -> (r: Self)
        ensures
            r@ == self@,
    {
        Member { key: self.key.clone(), value: self.value.clone() }
    }
}

impl PartialEq for Json {
    fn eq(&self, other: &Json) -> (r: bool) {
        self.same(other)
    }
}

impl PartialEqSpecImpl for Json {
    open spec fn obeys_eq_spec() -> bool {
        true
    }

    open spec fn eq_spec(&self, other: &Json) -> bool {
        self@ == other@
    }
}

} // verus!
