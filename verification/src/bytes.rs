//! The formula of raw bytes.

use vstd::prelude::*;
use crate::buffer::{Buffer, Sizes};
use crate::deserialize::Deserializer;
use crate::error::{DeserializeError, SerializeError};
use crate::formula::{Formula, SizeFacts};
use crate::serialize::Serializer;

verus! {

/// The formula of raw bytes: anything that can be borrowed as a slice of bytes is
/// written as it is, and read back as all the bytes of its region.
pub struct Bytes;

impl Bytes {
    /// The facts of the formula: no bound, not exact, not heapless.
    pub fn facts() -> (facts: SizeFacts)
        ensures
            facts == Formula::Bytes.spec_facts(),
    {
        SizeFacts { max_stack_size: None, exact_size: false, heapless: false }
    }

    /// Writes `bytes` to the inline lane and ends the write.
    pub fn serialize_owned(bytes: &[u8], ser: Serializer) -> (result: Result<
        (Buffer, Sizes),
        SerializeError,
    >)
        ensures
            match result {
                Ok((buffer, sizes)) => {
                    &&& ser@.fits(bytes@.len())
                    &&& buffer.stack() == ser@.stack() + bytes@
                    &&& buffer.heap() == ser@.heap()
                    &&& buffer.limit() == ser@.limit()
                    &&& sizes.stack == buffer.stack().len()
                    &&& sizes.heap == buffer.heap().len()
                },
                Err(e) => e == SerializeError::BufferExhausted && !ser@.fits(bytes@.len()),
            },
    {
        let mut ser = ser;
        match ser.write_bytes(bytes) {
            Ok(()) => ser.finish(),
            Err(e) => Err(e),
        }
    }

    /// Borrows all the bytes of the region.
    pub fn deserialize<'de>(de: Deserializer<'de>) -> (result: Result<&'de [u8], DeserializeError>)
        ensures
            result matches Ok(bytes) && bytes@ == de.input(),
    {
        Ok(de.read_all_bytes())
    }

    /// Borrows all the bytes of the region into `place`.
    pub fn deserialize_in_place<'de>(place: &mut &'de [u8], de: Deserializer<'de>) -> (result:
        Result<(), DeserializeError>)
        ensures
            result is Ok,
            final(place)@ == de.input(),
    {
        *place = de.read_all_bytes();
        Ok(())
    }
}

} // verus!
