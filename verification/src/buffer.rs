//! The append-only sink with its two lanes, and the sizes written to each.

use vstd::prelude::*;
use crate::error::SerializeError;

verus! {

/// Bytes written to the inline lane and to the trailing lane.
#[derive(Clone, Copy, Debug, PartialEq, Eq, Structural, Hash)]
pub struct Sizes {
    pub stack: usize,
    pub heap: usize,
}

impl Sizes {
    /// Nothing written.
    pub fn zero() -> (sizes: Sizes)
        ensures
            sizes == (Sizes { stack: 0, heap: 0 }),
    {
        Sizes { stack: 0, heap: 0 }
    }

    /// `stack` bytes in the inline lane and none in the trailing lane.
    pub fn with_stack(stack: usize) -> (sizes: Sizes)
        ensures
            sizes == (Sizes { stack, heap: 0 }),
    {
        Sizes { stack, heap: 0 }
    }

    /// The sizes of two writes, one after the other; `None` where a sum is beyond `usize`.
    pub fn checked_add(self, other: Sizes) -> (sum: Option<Sizes>)
        ensures
            match sum {
                Some(sizes) => sizes.stack == self.stack + other.stack && sizes.heap == self.heap
                    + other.heap,
                None => self.stack + other.stack > usize::MAX || self.heap + other.heap
                    > usize::MAX,
            },
    {
        match (self.stack.checked_add(other.stack), self.heap.checked_add(other.heap)) {
            (Some(stack), Some(heap)) => Some(Sizes { stack, heap }),
            _ => None,
        }
    }
}

/// Appends `bytes` to `out`.
pub fn extend(out: &mut Vec<u8>, bytes: &[u8])
    ensures
        final(out)@ == old(out)@ + bytes@,
{
    out.extend_from_slice(bytes);
    assert(out@ =~= old(out)@ + bytes@);
}

/// An append-only sink with an inline lane and a trailing lane, growable or held to a
/// capacity that both lanes share.
pub struct Buffer {
    stack: Vec<u8>,
    heap: Vec<u8>,
    limit: Option<usize>,
}

impl Buffer {
    /// The bytes of the inline lane.
    pub closed spec fn stack(&self) -> Seq<u8> {
        self.stack@
    }

    /// The bytes of the trailing lane.
    pub closed spec fn heap(&self) -> Seq<u8> {
        self.heap@
    }

    /// The capacity that the two lanes share, if the buffer has one.
    pub closed spec fn limit(&self) -> Option<usize> {
        self.limit
    }

    /// Whether `more` bytes can still be written.
    pub open spec fn fits(&self, more: nat) -> bool {
        self.limit() matches Some(limit) ==> self.stack().len() + self.heap().len() + more <= limit
    }

    /// An empty buffer that grows as needed.
    pub fn growable() -> (buffer: Buffer)
        ensures
            buffer.stack() == Seq::<u8>::empty(),
            buffer.heap() == Seq::<u8>::empty(),
            buffer.limit() is None,
    {
        Buffer { stack: Vec::new(), heap: Vec::new(), limit: None }
    }

    /// An empty buffer that holds at most `capacity` bytes.
    pub fn with_capacity(capacity: usize) -> (buffer: Buffer)
        ensures
            buffer.stack() == Seq::<u8>::empty(),
            buffer.heap() == Seq::<u8>::empty(),
            buffer.limit() == Some(capacity),
    {
        Buffer { stack: Vec::new(), heap: Vec::new(), limit: Some(capacity) }
    }

    /// The capacity that the two lanes share, if the buffer has one.
    pub fn capacity(&self) -> (limit: Option<usize>)
        ensures
            limit == self.limit(),
    {
        self.limit
    }

    /// The bytes committed to each lane.
    pub fn sizes(&self) -> (sizes: Sizes)
        ensures
            sizes.stack == self.stack().len(),
            sizes.heap == self.heap().len(),
    {
        Sizes { stack: self.stack.len(), heap: self.heap.len() }
    }

    /// Whether `more` bytes can still be written.
    pub fn has_room(&self, more: usize) -> (ok: bool)
        ensures
            ok == self.fits(more as nat),
    {
        match self.limit {
            None => true,
            Some(limit) => match self.stack.len().checked_add(self.heap.len()) {
                None => false,
                Some(used) => match used.checked_add(more) {
                    None => false,
                    Some(total) => total <= limit,
                },
            },
        }
    }

    /// Appends `bytes` to the inline lane, or leaves the buffer as it is where they do
    /// not fit.
    pub fn write_stack(&mut self, bytes: &[u8]) -> (result: Result<(), SerializeError>)
        ensures
            final(self).limit() == old(self).limit(),
            match result {
                Ok(()) => {
                    &&& old(self).fits(bytes@.len())
                    &&& final(self).stack() == old(self).stack() + bytes@
                    &&& final(self).heap() == old(self).heap()
                },
                Err(e) => {
                    &&& e == SerializeError::BufferExhausted
                    &&& !old(self).fits(bytes@.len())
                    &&& final(self).stack() == old(self).stack()
                    &&& final(self).heap() == old(self).heap()
                },
            },
    {
        if !self.has_room(bytes.len()) {
            return Err(SerializeError::BufferExhausted);
        }
        extend(&mut self.stack, bytes);
        Ok(())
    }

    /// Appends `bytes` to the trailing lane, or leaves the buffer as it is where they do
    /// not fit.
    pub fn write_heap(&mut self, bytes: &[u8]) -> (result: Result<(), SerializeError>)
        ensures
            final(self).limit() == old(self).limit(),
            match result {
                Ok(()) => {
                    &&& old(self).fits(bytes@.len())
                    &&& final(self).stack() == old(self).stack()
                    &&& final(self).heap() == old(self).heap() + bytes@
                },
                Err(e) => {
                    &&& e == SerializeError::BufferExhausted
                    &&& !old(self).fits(bytes@.len())
                    &&& final(self).stack() == old(self).stack()
                    &&& final(self).heap() == old(self).heap()
                },
            },
    {
        if !self.has_room(bytes.len()) {
            return Err(SerializeError::BufferExhausted);
        }
        extend(&mut self.heap, bytes);
        Ok(())
    }

    /// Ends writing: the inline lane followed by the trailing lane as one range of
    /// bytes, with the size of each. Fails where the two sizes do not add up within
    /// `usize`.
    pub fn finish(self) -> (result: Result<(Vec<u8>, Sizes), SerializeError>)
        ensures
            match result {
                Ok((bytes, sizes)) => {
                    &&& bytes@ == self.stack() + self.heap()
                    &&& sizes.stack == self.stack().len()
                    &&& sizes.heap == self.heap().len()
                },
                Err(e) => {
                    &&& e == SerializeError::BufferExhausted
                    &&& self.stack().len() + self.heap().len() > usize::MAX
                },
            },
    {
        let sizes = self.sizes();
        if sizes.stack.checked_add(sizes.heap).is_none() {
            return Err(SerializeError::BufferExhausted);
        }
        let mut bytes = self.stack;
        let mut heap = self.heap;
        bytes.append(&mut heap);
        Ok((bytes, sizes))
    }
}

} // verus!
