//! The value tree that a JSON document denotes.
use crate::decimal::Decimal;
use vstd::prelude::*;

verus! {

/// A JSON value as a mathematical value. An object is the sequence of its
/// members in the order in which they stand; a key may occur more than
/// once. A `Float` is the decimal literal that denotes it.
pub ghost enum ValueView {
    Object(Seq<(Seq<char>, ValueView)>),
    Array(Seq<ValueView>),
    String(Seq<char>),
    Int(int),
    Float(Seq<char>),
    Bool(bool),
    Null,
}

/// A JSON value. Each value owns its children.
#[derive(Debug, PartialEq, Eq)]
pub enum Value {
    /// The members, in the order in which they stand. Keys may repeat.
    Object(Vec<(String, Value)>),
    /// The elements, in order.
    Array(Vec<Value>),
    String(String),
    /// A number written without a point.
    Int(i32),
    /// A number written with a point, kept exactly.
    Float(Decimal),
    Bool(bool),
    Null,
}

impl View for Value {
    type V = ValueView;

    open spec fn view(&self) -> ValueView
        decreases self,
    {
        match self {
            Value::Object(members) => ValueView::Object(
                Seq::new(
                    members@.len(),
                    |i: int|
                        (
                            members@[i].0@,
                            if 0 <= i < members@.len() {
                                members@[i].1@
                            } else {
                                ValueView::Null
                            },
                        ),
                ),
            ),
            Value::Array(items) => ValueView::Array(
                Seq::new(
                    items@.len(),
                    |i: int|
                        if 0 <= i < items@.len() {
                            items@[i]@
                        } else {
                            ValueView::Null
                        },
                ),
            ),
            Value::String(s) => ValueView::String(s@),
            Value::Int(n) => ValueView::Int(*n as int),
            Value::Float(d) => ValueView::Float(d@),
            Value::Bool(b) => ValueView::Bool(*b),
            Value::Null => ValueView::Null,
        }
    }
}

/// The views of the members of an object, in order.
pub open spec fn member_views(members: Seq<(String, Value)>) -> Seq<(Seq<char>, ValueView)> {
    members.map_values(|m: (String, Value)| (m.0@, m.1@))
}

/// The views of the elements of an array, in order.
pub open spec fn element_views(items: Seq<Value>) -> Seq<ValueView> {
    items.map_values(|v: Value| v@)
}

/// An object's view holds the views of its members.
pub proof fn lemma_object_view(members: Vec<(String, Value)>)
    ensures
        Value::Object(members)@ == ValueView::Object(member_views(members@)),
{
    assert(Value::Object(members)@->Object_0 =~= member_views(members@));
}

/// An array's view holds the views of its elements.
pub proof fn lemma_array_view(items: Vec<Value>)
    ensures
        Value::Array(items)@ == ValueView::Array(element_views(items@)),
{
    assert(Value::Array(items)@->Array_0 =~= element_views(items@));
}

impl Clone for Value {
    fn clone(&self) -> (r: Self)
        ensures
            r@ == self@,
        decreases self,
    {
        match self {
            Value::Object(members) => {
                let mut copy: Vec<(String, Value)> = Vec::new();
                let mut i: usize = 0;
                while i < members.len()
                    invariant
                        *self == Value::Object(*members),
                        i <= members.len(),
                        copy@.len() == i,
                        forall|j: int|
                            0 <= j < i ==> (#[trigger] copy@[j]).0@ == members@[j].0@ && copy@[j].1@
                                == members@[j].1@,
                    decreases members.len() - i,
                {
                    proof {
                        assert(decreases_to!(*self => self->Object_0));
                        assert(decreases_to!(*members => members[i as int]));
                        assert(decreases_to!(members[i as int] => members[i as int].1));
                    }
                    let key = members[i].0.clone();
                    let value = members[i].1.clone();
                    copy.push((key, value));
                    i = i + 1;
                }
                proof {
                    lemma_object_view(copy);
                    lemma_object_view(*members);
                    assert(member_views(copy@) =~= member_views(members@));
                }
                Value::Object(copy)
            },
            Value::Array(items) => {
                let mut copy: Vec<Value> = Vec::new();
                let mut i: usize = 0;
                while i < items.len()
                    invariant
                        *self == Value::Array(*items),
                        i <= items.len(),
                        copy@.len() == i,
                        forall|j: int| 0 <= j < i ==> (#[trigger] copy@[j])@ == items@[j]@,
                    decreases items.len() - i,
                {
                    proof {
                        assert(decreases_to!(*self => self->Array_0));
                        assert(decreases_to!(*items => items[i as int]));
                    }
                    let value = items[i].clone();
                    copy.push(value);
                    i = i + 1;
                }
                proof {
                    lemma_array_view(copy);
                    lemma_array_view(*items);
                    assert(element_views(copy@) =~= element_views(items@));
                }
                Value::Array(copy)
            },
            Value::String(s) => Value::String(s.clone()),
            Value::Int(n) => Value::Int(*n),
            Value::Float(d) => Value::Float(d.clone()),
            Value::Bool(b) => Value::Bool(*b),
            Value::Null => Value::Null,
        }
    }
}

} // verus!
