//! Whether a value is one that a formula holds.

use vstd::prelude::*;
use crate::formula::Formula;
use crate::value::{views, Value};
use crate::wire::fields_admit;

verus! {

broadcast use vstd::std_specs::vec::group_vec_axioms;

/// Whether `values` has one admitted value for each of `fields`.
pub fn fields_admit_values(fields: &Vec<Formula>, values: &Vec<Value>) -> (ok: bool)
    ensures
        ok == fields_admit(fields@, views(values@)),
    decreases fields,
{
    if fields.len() != values.len() {
        return false;
    }
    let mut i: usize = 0;
    while i < fields.len()
        invariant
            fields@.len() == values@.len(),
            i <= fields@.len(),
            forall|j: int| 0 <= j < i ==> (#[trigger] fields@[j]).admits(views(values@)[j]),
        decreases fields@.len() - i,
    {
        if !fields[i].admits_value(&values[i]) {
            assert(!fields@[i as int].admits(views(values@)[i as int]));
            return false;
        }
        i = i + 1;
    }
    true
}

/// Whether every one of `values` is admitted by `element`.
pub fn all_admitted(element: &Formula, values: &Vec<Value>) -> (ok: bool)
    ensures
        ok == (forall|i: int|
            0 <= i < values@.len() ==> element.admits(#[trigger] views(values@)[i])),
    decreases element, 1nat,
{
    let mut i: usize = 0;
    while i < values.len()
        invariant
            i <= values@.len(),
            forall|j: int| 0 <= j < i ==> element.admits(#[trigger] views(values@)[j]),
        decreases values@.len() - i,
    {
        if !element.admits_value(&values[i]) {
            assert(!element.admits(views(values@)[i as int]));
            return false;
        }
        i = i + 1;
    }
    true
}

impl Formula {
    /// Whether `value` is one of the values that this formula holds.
    pub fn admits_value(&self, value: &Value) -> (ok: bool)
        ensures
            ok == self.admits(value@),
        decreases self, 0nat,
    {
        match self {
            Formula::Primitive(p) => p.admits_value(value),
            Formula::Bytes => match value {
                Value::Bytes(_) => true,
                _ => false,
            },
            Formula::Struct(fields) => match value {
                Value::Struct(values) => fields_admit_values(fields, values),
                _ => false,
            },
            Formula::Enum(variants) => match value {
                Value::Variant(tag, values) => {
                    let index = *tag as usize;
                    index < variants.len() && fields_admit_values(&variants[index], values)
                },
                _ => false,
            },
            Formula::Sequence(element) => {
                match value {
                    Value::Sequence(values) => {
                        let ok = all_admitted(element, values);
                        assert(value@->Sequence_0 == views(values@));
                        assert(ok == self.admits(value@));
                        ok
                    },
                    _ => false,
                }
            },
        }
    }
}

} // verus!
