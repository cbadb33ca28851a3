//! Slices of values, written as sequences.

use vstd::prelude::*;
use crate::buffer::{Buffer, Sizes};
use crate::error::SerializeError;
use crate::formula::{sequence_facts, SizeFacts, REFERENCE};
use crate::hint::{hint_slice, slice_hint};
use crate::schema::Schema;
use crate::serialize::Serializer;
use crate::value::{views, Value};
use crate::wire::sequence_lanes;

verus! {

/// The facts of a slice, from those of its element: those of a sequence.
pub fn facts(element: SizeFacts) -> (facts: SizeFacts)
    ensures
        facts.max_stack_size == if element.max_stack_size == Some(0usize) {
            Some(REFERENCE)
        } else {
            None
        },
        facts.exact_size == (element.max_stack_size == Some(0usize)),
        facts.heapless == (element.max_stack_size == Some(0usize) && element.heapless),
{
    sequence_facts(element)
}

/// Writes a slice of values as a sequence and ends the write.
pub fn serialize(values: &Vec<Value>, element: &Schema, ser: Serializer) -> (result: Result<
    (Buffer, Sizes),
    SerializeError,
>)
    requires
        forall|i: int| 0 <= i < values@.len() ==> element@.admits(#[trigger] views(values@)[i]),
    ensures
        match result {
            Ok((buffer, sizes)) => {
                &&& sequence_lanes(element@, views(values@), ser@.heap().len()) matches Some(
                    written,
                )
                &&& ser@.fits(written.stack.len() + written.heap.len())
                &&& buffer.stack() == ser@.stack() + written.stack
                &&& buffer.heap() == ser@.heap() + written.heap
                &&& buffer.limit() == ser@.limit()
                &&& sizes.stack == buffer.stack().len()
                &&& sizes.heap == buffer.heap().len()
            },
            Err(SerializeError::Overflow) => sequence_lanes(
                element@,
                views(values@),
                ser@.heap().len(),
            ) is None,
            Err(SerializeError::BufferExhausted) => {
                &&& sequence_lanes(element@, views(values@), ser@.heap().len()) matches Some(
                    written,
                )
                &&& !ser@.fits(written.stack.len() + written.heap.len())
            },
        },
{
    let mut ser = ser;
    match ser.write_slice(element, values) {
        Ok(()) => ser.finish(),
        Err(e) => Err(e),
    }
}

/// The lanes that the slice occupies as a sequence, where they are known without
/// writing it.
pub fn size_hint(values: &Vec<Value>, element: &Schema) -> (hint: Option<Sizes>)
    ensures
        match hint {
            Some(sizes) => slice_hint(element@, values@.len()) == Some(
                (sizes.stack as nat, sizes.heap as nat),
            ),
            None => match slice_hint(element@, values@.len()) {
                None => true,
                Some((_, heap)) => heap > usize::MAX,
            },
        },
{
    hint_slice(element, values.len())
}

} // verus!
