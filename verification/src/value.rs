//! Structured (JSON-like) values used for metadata bags throughout the
//! library: null, booleans, integers, text and nested lists.

use vstd::prelude::*;

verus! {

/// A structured value, as stored in metadata bags and map states.
#[derive(Debug)]
pub enum StructuredValue {
    /// The absent value.
    Null,
    /// A boolean.
    Bool(bool),
    /// A signed integer.
    Int(i64),
    /// A text string.
    Text(String),
    /// A list of nested values.
    List(Vec<StructuredValue>),
}

/// Deep structural equality of two structured values: equal variants,
/// equal scalar contents, equal text views, and pointwise-equivalent
/// list elements.
pub open spec fn sv_eq(a: StructuredValue, b: StructuredValue) -> bool
    decreases a,
{
    match a {
        StructuredValue::Null => b is Null,
        StructuredValue::Bool(x) => b == StructuredValue::Bool(x),
        StructuredValue::Int(x) => b == StructuredValue::Int(x),
        StructuredValue::Text(x) => b is Text && x@ == b->Text_0@,
        StructuredValue::List(x) => b is List && x@.len() == b->List_0@.len() && (forall|i: int|
            0 <= i < x@.len() ==> sv_eq(#[trigger] x@[i], b->List_0@[i])),
    }
}

impl StructuredValue {
    /// Produces a value deep-equal to this one.
    pub fn duplicate(&self) -> (r: Self)
        ensures
            sv_eq(r, *self),
        decreases self,
    {
        match self {
            StructuredValue::Null => StructuredValue::Null,
            StructuredValue::Bool(b) => StructuredValue::Bool(*b),
            StructuredValue::Int(i) => StructuredValue::Int(*i),
            StructuredValue::Text(s) => StructuredValue::Text(s.clone()),
            StructuredValue::List(items) => {
                proof {
                    assert(decreases_to!(*self => self->List_0));
                    assert(decreases_to!(self->List_0 => self->List_0@));
                }
                StructuredValue::List(duplicate_list(items))
            },
        }
    }
}

impl Clone for StructuredValue {
    /// Produces a value deep-equal to this one.
    fn clone(&self) -> (r: Self)
        ensures
            sv_eq(r, *self),
    {
        self.duplicate()
    }
}

/// Produces a list of values pointwise deep-equal to the given one.
pub fn duplicate_list(items: &Vec<StructuredValue>) -> (r: Vec<StructuredValue>)
    ensures
        r@.len() == items@.len(),
        forall|i: int| 0 <= i < items@.len() ==> sv_eq(#[trigger] r@[i], items@[i]),
    decreases items@,
{
    let mut out: Vec<StructuredValue> = Vec::new();
    let mut i: usize = 0;
    while i < items.len()
        invariant
            i <= items.len(),
            out@.len() == i,
            forall|j: int| 0 <= j < i ==> sv_eq(#[trigger] out@[j], items@[j]),
        decreases items.len() - i,
    {
        let d = items[i].duplicate();
        out.push(d);
        i += 1;
    }
    out
}

} // verus!
