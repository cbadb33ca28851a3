//! The serializer, which owns a buffer for the write of one value.

use vstd::prelude::*;
use crate::buffer::{Buffer, Sizes};
use crate::encode::{encode_sequence, encode_value};
use crate::error::SerializeError;
use crate::schema::Schema;
use crate::value::{views, Value};
use crate::wire::sequence_lanes;

verus! {

/// Writes one value into a buffer that it owns until `finish`. Offsets are counted from
/// the start of the buffer's trailing lane.
pub struct Serializer {
    buffer: Buffer,
}

impl View for Serializer {
    type V = Buffer;

    closed spec fn view(&self) -> Buffer {
        self.buffer
    }
}

impl Serializer {
    /// A serializer that writes into `buffer`.
    pub fn new(buffer: Buffer) -> (ser: Serializer)
        ensures
            ser@ == buffer,
    {
        Serializer { buffer }
    }

    /// The bytes committed to each lane.
    pub fn sizes(&self) -> (sizes: Sizes)
        ensures
            sizes.stack == self@.stack().len(),
            sizes.heap == self@.heap().len(),
    {
        self.buffer.sizes()
    }

    /// Appends raw bytes to the inline lane, or leaves the buffer as it is where they do
    /// not fit its capacity.
    pub fn write_bytes(&mut self, bytes: &[u8]) -> (result: Result<(), SerializeError>)
        ensures
            final(self)@.limit() == old(self)@.limit(),
            match result {
                Ok(()) => {
                    &&& old(self)@.fits(bytes@.len())
                    &&& final(self)@.stack() == old(self)@.stack() + bytes@
                    &&& final(self)@.heap() == old(self)@.heap()
                },
                Err(e) => {
                    &&& e == SerializeError::BufferExhausted
                    &&& !old(self)@.fits(bytes@.len())
                    &&& final(self)@.stack() == old(self)@.stack()
                    &&& final(self)@.heap() == old(self)@.heap()
                },
            },
    {
        self.buffer.write_stack(bytes)
    }

    /// Writes `value` as the schema lays it out: appends to the two lanes what
    /// `Formula::encode` says. Fails with `Overflow` where a length or an offset does not
    /// fit the portable width, else with `BufferExhausted` where the bytes do not fit the
    /// buffer's capacity; a failure leaves the buffer as it is.
    pub fn write_value(&mut self, schema: &Schema, value: &Value) -> (result: Result<
        (),
        SerializeError,
    >)
        requires
            schema@.admits(value@),
        ensures
            final(self)@.limit() == old(self)@.limit(),
            match result {
                Ok(()) => {
                    &&& schema@.encode(value@, old(self)@.heap().len()) matches Some(written)
                    &&& old(self)@.fits(written.stack.len() + written.heap.len())
                    &&& final(self)@.stack() == old(self)@.stack() + written.stack
                    &&& final(self)@.heap() == old(self)@.heap() + written.heap
                },
                Err(SerializeError::Overflow) => {
                    &&& schema@.encode(value@, old(self)@.heap().len()) is None
                    &&& final(self)@.stack() == old(self)@.stack()
                    &&& final(self)@.heap() == old(self)@.heap()
                },
                Err(SerializeError::BufferExhausted) => {
                    &&& schema@.encode(value@, old(self)@.heap().len()) matches Some(written)
                    &&& !old(self)@.fits(written.stack.len() + written.heap.len())
                    &&& final(self)@.stack() == old(self)@.stack()
                    &&& final(self)@.heap() == old(self)@.heap()
                },
            },
    {
        let mut stack: Vec<u8> = Vec::new();
        let mut heap: Vec<u8> = Vec::new();
        let base = self.buffer.sizes().heap;
        match encode_value(schema.formula(), value, &mut stack, &mut heap, base) {
            Ok(()) => {},
            Err(e) => {
                return Err(e);
            },
        }
        assert(stack@ =~= schema@.encode(value@, base as nat).unwrap().stack);
        assert(heap@ =~= schema@.encode(value@, base as nat).unwrap().heap);
        self.commit(stack, heap)
    }

    /// Writes `values` as a sequence of elements of the schema: appends to the two lanes
    /// what `sequence_lanes` says. Fails as `write_value` does.
    pub fn write_slice(&mut self, element: &Schema, values: &Vec<Value>) -> (result: Result<
        (),
        SerializeError,
    >)
        requires
            forall|i: int| 0 <= i < values@.len() ==> element@.admits(#[trigger] views(values@)[i]),
        ensures
            final(self)@.limit() == old(self)@.limit(),
            match result {
                Ok(()) => {
                    &&& sequence_lanes(element@, views(values@), old(self)@.heap().len())
                        matches Some(written)
                    &&& old(self)@.fits(written.stack.len() + written.heap.len())
                    &&& final(self)@.stack() == old(self)@.stack() + written.stack
                    &&& final(self)@.heap() == old(self)@.heap() + written.heap
                },
                Err(SerializeError::Overflow) => {
                    &&& sequence_lanes(element@, views(values@), old(self)@.heap().len()) is None
                    &&& final(self)@.stack() == old(self)@.stack()
                    &&& final(self)@.heap() == old(self)@.heap()
                },
                Err(SerializeError::BufferExhausted) => {
                    &&& sequence_lanes(element@, views(values@), old(self)@.heap().len())
                        matches Some(written)
                    &&& !old(self)@.fits(written.stack.len() + written.heap.len())
                    &&& final(self)@.stack() == old(self)@.stack()
                    &&& final(self)@.heap() == old(self)@.heap()
                },
            },
    {
        let mut stack: Vec<u8> = Vec::new();
        let mut heap: Vec<u8> = Vec::new();
        let base = self.buffer.sizes().heap;
        match encode_sequence(element.formula(), values, &mut stack, &mut heap, base) {
            Ok(()) => {},
            Err(e) => {
                return Err(e);
            },
        }
        assert(stack@ =~= sequence_lanes(element@, views(values@), base as nat).unwrap().stack);
        assert(heap@ =~= sequence_lanes(element@, views(values@), base as nat).unwrap().heap);
        self.commit(stack, heap)
    }

    /// Appends `stack` to the inline lane and `heap` to the trailing lane where both fit
    /// the capacity; else leaves the buffer as it is.
    fn commit(&mut self, stack: Vec<u8>, heap: Vec<u8>) -> (result: Result<(), SerializeError>)
        ensures
            final(self)@.limit() == old(self)@.limit(),
            match result {
                Ok(()) => {
                    &&& old(self)@.fits(stack@.len() + heap@.len())
                    &&& final(self)@.stack() == old(self)@.stack() + stack@
                    &&& final(self)@.heap() == old(self)@.heap() + heap@
                },
                Err(e) => {
                    &&& e == SerializeError::BufferExhausted
                    &&& !old(self)@.fits(stack@.len() + heap@.len())
                    &&& final(self)@.stack() == old(self)@.stack()
                    &&& final(self)@.heap() == old(self)@.heap()
                },
            },
    {
        let fits = match stack.len().checked_add(heap.len()) {
            Some(total) => self.buffer.has_room(total),
            None => self.buffer.capacity().is_none(),
        };
        if !fits {
            return Err(SerializeError::BufferExhausted);
        }
        match self.buffer.write_stack(stack.as_slice()) {
            Ok(()) => {},
            Err(e) => {
                return Err(e);
            },
        }
        match self.buffer.write_heap(heap.as_slice()) {
            Ok(()) => {},
            Err(e) => {
                return Err(e);
            },
        }
        Ok(())
    }

    /// Ends the write and hands back the buffer with the bytes committed to each lane.
    pub fn finish(self) -> (result: Result<(Buffer, Sizes), SerializeError>)
        ensures
            result matches Ok((buffer, sizes)) && buffer == self@ && sizes.stack
                == self@.stack().len() && sizes.heap == self@.heap().len(),
    {
        let sizes = self.buffer.sizes();
        Ok((self.buffer, sizes))
    }
}

/// Writes `value` into a buffer of its own and gives the inline lane followed by the
/// trailing lane, with the size of each.
pub fn serialize(schema: &Schema, value: &Value) -> (result: Result<(Vec<u8>, Sizes), SerializeError>)
    requires
        schema@.admits(value@),
    ensures
        match result {
            Ok((bytes, sizes)) => {
                &&& schema@.encode(value@, 0) matches Some(written)
                &&& bytes@ == written.stack + written.heap
                &&& sizes.stack == written.stack.len()
                &&& sizes.heap == written.heap.len()
            },
            Err(SerializeError::Overflow) => schema@.encode(value@, 0) is None,
            Err(SerializeError::BufferExhausted) => {
                &&& schema@.encode(value@, 0) matches Some(written)
                &&& written.stack.len() + written.heap.len() > usize::MAX
            },
        },
{
    let mut ser = Serializer::new(Buffer::growable());
    match ser.write_value(schema, value) {
        Ok(()) => {},
        Err(e) => {
            return Err(e);
        },
    }
    match ser.finish() {
        Ok((buffer, _)) => buffer.finish(),
        Err(e) => Err(e),
    }
}

/// Writes `value` into a buffer that holds at most `capacity` bytes and gives the inline
/// lane followed by the trailing lane, with the size of each.
pub fn serialize_bounded(schema: &Schema, value: &Value, capacity: usize) -> (result: Result<
    (Vec<u8>, Sizes),
    SerializeError,
>)
    requires
        schema@.admits(value@),
    ensures
        match result {
            Ok((bytes, sizes)) => {
                &&& schema@.encode(value@, 0) matches Some(written)
                &&& written.stack.len() + written.heap.len() <= capacity
                &&& bytes@ == written.stack + written.heap
                &&& sizes.stack == written.stack.len()
                &&& sizes.heap == written.heap.len()
            },
            Err(SerializeError::Overflow) => schema@.encode(value@, 0) is None,
            Err(SerializeError::BufferExhausted) => {
                &&& schema@.encode(value@, 0) matches Some(written)
                &&& written.stack.len() + written.heap.len() > capacity
            },
        },
{
    let mut ser = Serializer::new(Buffer::with_capacity(capacity));
    match ser.write_value(schema, value) {
        Ok(()) => {},
        Err(e) => {
            return Err(e);
        },
    }
    match ser.finish() {
        Ok((buffer, _)) => buffer.finish(),
        Err(e) => Err(e),
    }
}

} // verus!
