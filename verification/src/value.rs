//! Values of any formula, and their mathematical content.

use vstd::prelude::*;

verus! {

broadcast use vstd::std_specs::vec::group_vec_axioms;

/// A value of any formula, as verified code handles it.
#[derive(Debug, PartialEq, Eq)]
pub enum Value {
    Bool(bool),
    /// An unsigned integer of any width; also the bit pattern of a floating point number.
    Unsigned(u128),
    /// A signed integer of any width.
    Signed(i128),
    Bytes(Vec<u8>),
    /// The fields of an aggregate, in declared order.
    Struct(Vec<Value>),
    /// The zero-based index of a variant, and that variant's fields.
    Variant(u32, Vec<Value>),
    Sequence(Vec<Value>),
}

/// The mathematical content of a [`Value`].
pub enum ValueView {
    Bool(bool),
    Unsigned(nat),
    Signed(int),
    Bytes(Seq<u8>),
    Struct(Seq<ValueView>),
    Variant(nat, Seq<ValueView>),
    Sequence(Seq<ValueView>),
}

/// The contents of each value, in order.
pub open spec fn views(values: Seq<Value>) -> Seq<ValueView>
    decreases values,
{
    Seq::new(values.len(), |i: int| if 0 <= i < values.len() { values[i]@ } else { arbitrary() })
}

impl View for Value {
    type V = ValueView;

    open spec fn view(&self) -> ValueView
        decreases self,
    {
        match self {
            Value::Bool(b) => ValueView::Bool(*b),
            Value::Unsigned(x) => ValueView::Unsigned(*x as nat),
            Value::Signed(x) => ValueView::Signed(*x as int),
            Value::Bytes(bytes) => ValueView::Bytes(bytes@),
            Value::Struct(fields) => ValueView::Struct(views(fields@)),
            Value::Variant(tag, fields) => ValueView::Variant(
                *tag as nat,
                views(fields@),
            ),
            Value::Sequence(elements) => ValueView::Sequence(views(elements@)),
        }
    }
}

} // verus!
