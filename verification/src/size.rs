//! Portable sizes: lengths and offsets of a fixed width, whatever the machine.

use vstd::prelude::*;
use core::num::TryFromIntError;
use vstd::std_specs::convert::{FromSpecImpl, TryFromSpecImpl};
use crate::buffer::{Buffer, Sizes};
use crate::deserialize::Deserializer;
use crate::error::{DeserializeError, SerializeError};
use crate::le::{le_bytes, le_value, lemma_le_value_bound, lemma_span_values, read_le};
use crate::serialize::Serializer;

verus! {

/// The number that four little-endian bytes stand for.
pub fn word_from_le(bytes: [u8; 4]) -> (value: u32)
    ensures
        value == le_value(bytes@),
{
    proof {
        reveal_with_fuel(le_value, 5);
        assert(bytes@.skip(1).skip(1) =~= bytes@.skip(2));
        assert(bytes@.skip(2).skip(1) =~= bytes@.skip(3));
        assert(bytes@.skip(3).skip(1) =~= bytes@.skip(4));
        assert(bytes@.skip(1)[0] == bytes@[1]);
        assert(bytes@.skip(2)[0] == bytes@[2]);
        assert(bytes@.skip(3)[0] == bytes@[3]);
        assert(le_value(bytes@.skip(4)) == 0);
        assert(le_value(bytes@.skip(3)) == bytes@[3]);
        assert(le_value(bytes@.skip(2)) == bytes@[2] + 256 * le_value(bytes@.skip(3)));
        assert(le_value(bytes@.skip(1)) == bytes@[1] + 256 * le_value(bytes@.skip(2)));
        assert(le_value(bytes@) == bytes@[0] + 256 * le_value(bytes@.skip(1)));
    }
    let b0: u32 = bytes[0] as u32;
    let b1: u32 = bytes[1] as u32;
    let b2: u32 = bytes[2] as u32;
    let b3: u32 = bytes[3] as u32;
    b0 + 256 * b1 + 65536 * b2 + 16777216 * b3
}

/// The four little-endian bytes of a number.
pub fn word_to_le(value: u32) -> (bytes: [u8; 4])
    ensures
        bytes@ == le_bytes(value as nat, 4),
{
    let b0: u8 = (value % 256) as u8;
    let b1: u8 = (value / 256 % 256) as u8;
    let b2: u8 = (value / 65536 % 256) as u8;
    let b3: u8 = (value / 16777216 % 256) as u8;
    let bytes: [u8; 4] = [b0, b1, b2, b3];
    proof {
        reveal_with_fuel(le_bytes, 5);
        assert(bytes@ =~= le_bytes(value as nat, 4));
    }
    bytes
}

/// A size or an offset as the wire holds it: an unsigned number of four bytes, whatever
/// the width of `usize`.
#[derive(Clone, Copy, Debug, PartialEq, Eq, Structural, PartialOrd, Ord, Hash)]
pub struct FixedUsize(pub u32);

impl Default for FixedUsize {
    fn default() -> (fixed: Self)
        ensures
            fixed@ == 0,
    {
        FixedUsize(0)
    }
}

impl View for FixedUsize {
    type V = nat;

    open spec fn view(&self) -> nat {
        self.0 as nat
    }
}

impl FixedUsize {
    /// The portable size that holds `value`, which fits.
    pub fn truncate_unchecked(value: usize) -> (fixed: Self)
        requires
            value <= u32::MAX,
        ensures
            fixed@ == value,
    {
        FixedUsize(value as u32)
    }

    /// The four bytes that stand for the size on the wire, least significant first.
    pub fn to_le_bytes(self) -> (bytes: [u8; 4])
        ensures
            bytes@ == le_bytes(self@, 4),
    {
        word_to_le(self.0)
    }

    /// The size that four bytes of the wire stand for.
    pub fn from_le_bytes(bytes: [u8; 4]) -> (result: Result<Self, TryFromIntError>)
        ensures
            result matches Ok(fixed) && fixed@ == le_value(bytes@),
    {
        let value = word_from_le(bytes);
        match usize::try_from(value) {
            Ok(_) => Ok(FixedUsize(value)),
            Err(e) => Err(e),
        }
    }

    /// Writes the size as four bytes of the inline lane and ends the write.
    pub fn serialize(self, ser: Serializer) -> (result: Result<(Buffer, Sizes), SerializeError>)
        ensures
            match result {
                Ok((buffer, sizes)) => {
                    &&& ser@.fits(4)
                    &&& buffer.stack() == ser@.stack() + le_bytes(self@, 4)
                    &&& buffer.heap() == ser@.heap()
                    &&& buffer.limit() == ser@.limit()
                    &&& sizes.stack == buffer.stack().len()
                    &&& sizes.heap == buffer.heap().len()
                },
                Err(e) => e == SerializeError::BufferExhausted && !ser@.fits(4),
            },
    {
        let mut ser = ser;
        let bytes = self.to_le_bytes();
        match ser.write_bytes(bytes.as_slice()) {
            Ok(()) => ser.finish(),
            Err(e) => Err(e),
        }
    }

    /// Reads a size from an inline region of exactly four bytes.
    pub fn deserialize(de: Deserializer) -> (result: Result<Self, DeserializeError>)
        ensures
            match result {
                Ok(fixed) => de.input().len() == 4 && fixed@ == le_value(de.input()),
                Err(DeserializeError::WrongLength) => de.input().len() > 4,
                Err(DeserializeError::OutOfBounds) => de.input().len() < 4,
                Err(_) => false,
            },
    {
        let input = de.read_all_bytes();
        if input.len() == 4 {
            proof {
                lemma_le_value_bound(input@);
                lemma_span_values();
            }
            let value = read_le(input) as u32;
            match usize::try_from(value) {
                Ok(_) => Ok(FixedUsize(value)),
                Err(_) => Err(DeserializeError::InvalidUsize(value)),
            }
        } else if input.len() > 4 {
            Err(DeserializeError::WrongLength)
        } else {
            Err(DeserializeError::OutOfBounds)
        }
    }

    /// Reads a size as `deserialize` does, into `self`; leaves `self` as it is where the
    /// bytes cannot be read.
    pub fn deserialize_in_place(&mut self, de: Deserializer) -> (result: Result<
        (),
        DeserializeError,
    >)
        ensures
            match result {
                Ok(()) => de.input().len() == 4 && final(self)@ == le_value(de.input()),
                Err(DeserializeError::WrongLength) => de.input().len() > 4 && *final(self) == *old(
                    self,
                ),
                Err(DeserializeError::OutOfBounds) => de.input().len() < 4 && *final(self) == *old(
                    self,
                ),
                Err(_) => false,
            },
    {
        match FixedUsize::deserialize(de) {
            Ok(fixed) => {
                *self = fixed;
                Ok(())
            },
            Err(e) => Err(e),
        }
    }
}

impl TryFrom<usize> for FixedUsize {
    type Error = TryFromIntError;

    fn try_from(value: usize) -> (result: Result<Self, TryFromIntError>) {
        match u32::try_from(value) {
            Ok(v) => Ok(FixedUsize(v)),
            Err(e) => Err(e),
        }
    }
}

impl TryFromSpecImpl<usize> for FixedUsize {
    open spec fn obeys_try_from_spec() -> bool {
        true
    }

    open spec fn try_from_spec(value: usize) -> Result<Self, TryFromIntError> {
        if value <= u32::MAX {
            Ok(FixedUsize(value as u32))
        } else {
            Err(arbitrary())
        }
    }
}

impl TryFrom<u32> for FixedUsize {
    type Error = TryFromIntError;

    fn try_from(value: u32) -> (result: Result<Self, TryFromIntError>) {
        match usize::try_from(value) {
            Ok(_) => Ok(FixedUsize(value)),
            Err(e) => Err(e),
        }
    }
}

impl TryFromSpecImpl<u32> for FixedUsize {
    open spec fn obeys_try_from_spec() -> bool {
        true
    }

    open spec fn try_from_spec(value: u32) -> Result<Self, TryFromIntError> {
        Ok(FixedUsize(value))
    }
}

impl From<FixedUsize> for usize {
    fn from(value: FixedUsize) -> (result: usize) {
        value.0 as usize
    }
}

impl FromSpecImpl<FixedUsize> for usize {
    open spec fn obeys_from_spec() -> bool {
        true
    }

    open spec fn from_spec(value: FixedUsize) -> usize {
        value.0 as usize
    }
}

impl From<FixedUsize> for u32 {
    fn from(value: FixedUsize) -> (result: u32) {
        value.0
    }
}

impl FromSpecImpl<FixedUsize> for u32 {
    open spec fn obeys_from_spec() -> bool {
        true
    }

    open spec fn from_spec(value: FixedUsize) -> u32 {
        value.0
    }
}

/// A signed size as the wire holds it: a two's complement number of four bytes, whatever
/// the width of `isize`.
#[derive(Clone, Copy, Debug, PartialEq, Eq, Structural, PartialOrd, Ord, Hash)]
pub struct FixedIsize(pub i32);

impl Default for FixedIsize {
    fn default() -> (fixed: Self)
        ensures
            fixed@ == 0,
    {
        FixedIsize(0)
    }
}

impl View for FixedIsize {
    type V = int;

    open spec fn view(&self) -> int {
        self.0 as int
    }
}

/// The unsigned number of four bytes with the bits of `value`.
pub open spec fn twos_complement(value: int) -> nat {
    if value < 0 {
        (value + 0x1_0000_0000) as nat
    } else {
        value as nat
    }
}

/// The signed number with the bits of the four-byte number `image`.
pub open spec fn from_twos_complement(image: nat) -> int {
    if image >= 0x8000_0000 {
        image - 0x1_0000_0000
    } else {
        image as int
    }
}

impl FixedIsize {
    /// The four bytes that stand for the signed size on the wire, least significant
    /// first.
    pub fn to_le_bytes(self) -> (bytes: [u8; 4])
        ensures
            bytes@ == le_bytes(twos_complement(self@), 4),
    {
        let value: i32 = self.0;
        let image: u32 = if value < 0 {
            let back: u32 = (-(value + 1)) as u32;
            0xffff_ffff - back
        } else {
            value as u32
        };
        word_to_le(image)
    }

    /// The signed size that four bytes of the wire stand for.
    pub fn from_le_bytes(bytes: [u8; 4]) -> (result: Result<Self, TryFromIntError>)
        ensures
            result matches Ok(fixed) && fixed@ == from_twos_complement(le_value(bytes@)),
    {
        let image = word_from_le(bytes);
        let value: i32 = if image >= 0x8000_0000 {
            let back: i32 = (0xffff_ffff - image) as i32;
            -back - 1
        } else {
            image as i32
        };
        match isize::try_from(value) {
            Ok(_) => Ok(FixedIsize(value)),
            Err(e) => Err(e),
        }
    }

    /// Writes the signed size as four bytes of the inline lane and ends the write.
    pub fn serialize(self, ser: Serializer) -> (result: Result<(Buffer, Sizes), SerializeError>)
        ensures
            match result {
                Ok((buffer, sizes)) => {
                    &&& ser@.fits(4)
                    &&& buffer.stack() == ser@.stack() + le_bytes(twos_complement(self@), 4)
                    &&& buffer.heap() == ser@.heap()
                    &&& buffer.limit() == ser@.limit()
                    &&& sizes.stack == buffer.stack().len()
                    &&& sizes.heap == buffer.heap().len()
                },
                Err(e) => e == SerializeError::BufferExhausted && !ser@.fits(4),
            },
    {
        let mut ser = ser;
        let bytes = self.to_le_bytes();
        match ser.write_bytes(bytes.as_slice()) {
            Ok(()) => ser.finish(),
            Err(e) => Err(e),
        }
    }

    /// Reads a signed size from an inline region of exactly four bytes.
    pub fn deserialize(de: Deserializer) -> (result: Result<Self, DeserializeError>)
        ensures
            match result {
                Ok(fixed) => de.input().len() == 4 && fixed@ == from_twos_complement(
                    le_value(de.input()),
                ),
                Err(DeserializeError::WrongLength) => de.input().len() > 4,
                Err(DeserializeError::OutOfBounds) => de.input().len() < 4,
                Err(_) => false,
            },
    {
        let input = de.read_all_bytes();
        if input.len() == 4 {
            proof {
                lemma_le_value_bound(input@);
                lemma_span_values();
            }
            let image = read_le(input) as u32;
            let value: i32 = if image >= 0x8000_0000 {
                let back: i32 = (0xffff_ffff - image) as i32;
                -back - 1
            } else {
                image as i32
            };
            match isize::try_from(value) {
                Ok(_) => Ok(FixedIsize(value)),
                Err(_) => Err(DeserializeError::InvalidIsize(value)),
            }
        } else if input.len() > 4 {
            Err(DeserializeError::WrongLength)
        } else {
            Err(DeserializeError::OutOfBounds)
        }
    }

    /// Reads a signed size as `deserialize` does, into `self`; leaves `self` as it is
    /// where the bytes cannot be read.
    pub fn deserialize_in_place(&mut self, de: Deserializer) -> (result: Result<
        (),
        DeserializeError,
    >)
        ensures
            match result {
                Ok(()) => de.input().len() == 4 && final(self)@ == from_twos_complement(
                    le_value(de.input()),
                ),
                Err(DeserializeError::WrongLength) => de.input().len() > 4 && *final(self) == *old(
                    self,
                ),
                Err(DeserializeError::OutOfBounds) => de.input().len() < 4 && *final(self) == *old(
                    self,
                ),
                Err(_) => false,
            },
    {
        match FixedIsize::deserialize(de) {
            Ok(fixed) => {
                *self = fixed;
                Ok(())
            },
            Err(e) => Err(e),
        }
    }
}

impl TryFrom<isize> for FixedIsize {
    type Error = TryFromIntError;

    fn try_from(value: isize) -> (result: Result<Self, TryFromIntError>) {
        match i32::try_from(value) {
            Ok(v) => Ok(FixedIsize(v)),
            Err(e) => Err(e),
        }
    }
}

impl TryFromSpecImpl<isize> for FixedIsize {
    open spec fn obeys_try_from_spec() -> bool {
        true
    }

    open spec fn try_from_spec(value: isize) -> Result<Self, TryFromIntError> {
        if i32::MIN <= value <= i32::MAX {
            Ok(FixedIsize(value as i32))
        } else {
            Err(arbitrary())
        }
    }
}

impl TryFrom<i32> for FixedIsize {
    type Error = TryFromIntError;

    fn try_from(value: i32) -> (result: Result<Self, TryFromIntError>) {
        match isize::try_from(value) {
            Ok(_) => Ok(FixedIsize(value)),
            Err(e) => Err(e),
        }
    }
}

impl TryFromSpecImpl<i32> for FixedIsize {
    open spec fn obeys_try_from_spec() -> bool {
        true
    }

    open spec fn try_from_spec(value: i32) -> Result<Self, TryFromIntError> {
        Ok(FixedIsize(value))
    }
}

impl From<FixedIsize> for isize {
    fn from(value: FixedIsize) -> (result: isize) {
        value.0 as isize
    }
}

impl FromSpecImpl<FixedIsize> for isize {
    open spec fn obeys_from_spec() -> bool {
        true
    }

    open spec fn from_spec(value: FixedIsize) -> isize {
        value.0 as isize
    }
}

impl From<FixedIsize> for i32 {
    fn from(value: FixedIsize) -> (result: i32) {
        value.0
    }
}

impl FromSpecImpl<FixedIsize> for i32 {
    open spec fn obeys_from_spec() -> bool {
        true
    }

    open spec fn from_spec(value: FixedIsize) -> i32 {
        value.0
    }
}

} // verus!
