//! The scalar formulas: numbers and truth values of a fixed width.

use vstd::prelude::*;
use crate::buffer::{Buffer, Sizes};
use crate::deserialize::Deserializer;
use crate::error::{DeserializeError, SerializeError};
use crate::formula::{Formula, Primitive, SizeFacts};
use crate::le::{le_bytes, le_value, lemma_le_value_bound, push_le, read_le};
use crate::serialize::Serializer;
use crate::value::Value;

verus! {

/// The facts of a scalar formula: as wide as the scalar, exact, heapless.
pub fn facts(formula: Primitive) -> (facts: SizeFacts)
    ensures
        facts == Formula::Primitive(formula).spec_facts(),
{
    SizeFacts { max_stack_size: Some(formula.width()), exact_size: true, heapless: true }
}

/// Writes a scalar as its little-endian bytes and ends the write.
pub fn serialize(formula: Primitive, value: &Value, ser: Serializer) -> (result: Result<
    (Buffer, Sizes),
    SerializeError,
>)
    requires
        formula.admits(value@),
    ensures
        match result {
            Ok((buffer, sizes)) => {
                &&& ser@.fits(formula.spec_width() as nat)
                &&& buffer.stack() == ser@.stack() + le_bytes(
                    formula.image(value@),
                    formula.spec_width() as nat,
                )
                &&& buffer.heap() == ser@.heap()
                &&& buffer.limit() == ser@.limit()
                &&& sizes.stack == buffer.stack().len()
                &&& sizes.heap == buffer.heap().len()
            },
            Err(e) => e == SerializeError::BufferExhausted && !ser@.fits(
                formula.spec_width() as nat,
            ),
        },
{
    let mut ser = ser;
    let mut bytes: Vec<u8> = Vec::new();
    push_le(&mut bytes, formula.image_of(value), formula.width());
    proof {
        crate::le::lemma_le_bytes_len(formula.image(value@), formula.spec_width() as nat);
        assert(bytes@ =~= le_bytes(formula.image(value@), formula.spec_width() as nat));
    }
    match ser.write_bytes(bytes.as_slice()) {
        Ok(()) => ser.finish(),
        Err(e) => Err(e),
    }
}

/// Reads a scalar from an inline region that is exactly as wide as the scalar:
/// `WrongLength` where the region is wider, `OutOfBounds` where it is narrower.
pub fn deserialize(formula: Primitive, de: Deserializer) -> (result: Result<Value, DeserializeError>)
    ensures
        match result {
            Ok(value) => de.input().len() == formula.spec_width() && value@ == formula.value_of(
                le_value(de.input()),
            ),
            Err(DeserializeError::WrongLength) => de.input().len() > formula.spec_width(),
            Err(DeserializeError::OutOfBounds) => de.input().len() < formula.spec_width(),
            Err(_) => false,
        },
{
    let input = de.read_all_bytes();
    let width = formula.width();
    if input.len() == width {
        proof {
            lemma_le_value_bound(input@);
        }
        Ok(formula.value_from(read_le(input)))
    } else if input.len() > width {
        Err(DeserializeError::WrongLength)
    } else {
        Err(DeserializeError::OutOfBounds)
    }
}

/// Reads a scalar as `deserialize` does, into `value`; leaves `value` as it is where the
/// bytes cannot be read.
pub fn deserialize_in_place(formula: Primitive, value: &mut Value, de: Deserializer) -> (result:
    Result<(), DeserializeError>)
    ensures
        match result {
            Ok(()) => de.input().len() == formula.spec_width() && final(value)@
                == formula.value_of(le_value(de.input())),
            Err(DeserializeError::WrongLength) => de.input().len() > formula.spec_width()
                && *final(value) == *old(value),
            Err(DeserializeError::OutOfBounds) => de.input().len() < formula.spec_width()
                && *final(value) == *old(value),
            Err(_) => false,
        },
{
    match deserialize(formula, de) {
        Ok(read) => {
            *value = read;
            Ok(())
        },
        Err(e) => Err(e),
    }
}

/// Writes a truth value as one byte, `1` or `0`, and ends the write.
pub fn serialize_bool(value: bool, ser: Serializer) -> (result: Result<
    (Buffer, Sizes),
    SerializeError,
>)
    ensures
        match result {
            Ok((buffer, sizes)) => {
                &&& ser@.fits(1)
                &&& buffer.stack() == ser@.stack().push(
                    if value {
                        1u8
                    } else {
                        0u8
                    },
                )
                &&& buffer.heap() == ser@.heap()
                &&& buffer.limit() == ser@.limit()
                &&& sizes.stack == buffer.stack().len()
                &&& sizes.heap == buffer.heap().len()
            },
            Err(e) => e == SerializeError::BufferExhausted && !ser@.fits(1),
        },
{
    let ghost before = ser@.stack();
    let mut ser = ser;
    let byte: u8 = if value {
        1
    } else {
        0
    };
    let bytes: [u8; 1] = [byte];
    match ser.write_bytes(bytes.as_slice()) {
        Ok(()) => {
            assert(ser@.stack() =~= before.push(byte));
            ser.finish()
        },
        Err(e) => Err(e),
    }
}

/// Reads a truth value from an inline region of one byte: any byte but `0` is true.
pub fn deserialize_bool(de: Deserializer) -> (result: Result<bool, DeserializeError>)
    ensures
        match result {
            Ok(value) => de.input().len() == 1 && value == (de.input()[0] != 0),
            Err(DeserializeError::WrongLength) => de.input().len() > 1,
            Err(DeserializeError::OutOfBounds) => de.input().len() < 1,
            Err(_) => false,
        },
{
    let input = de.read_all_bytes();
    if input.len() == 1 {
        Ok(input[0] != 0)
    } else if input.len() > 1 {
        Err(DeserializeError::WrongLength)
    } else {
        Err(DeserializeError::OutOfBounds)
    }
}

/// Reads a truth value as `deserialize_bool` does, into `value`; leaves `value` as it is
/// where the bytes cannot be read.
pub fn deserialize_bool_in_place(value: &mut bool, de: Deserializer) -> (result: Result<
    (),
    DeserializeError,
>)
    ensures
        match result {
            Ok(()) => de.input().len() == 1 && *final(value) == (de.input()[0] != 0),
            Err(DeserializeError::WrongLength) => de.input().len() > 1 && *final(value) == *old(
                value,
            ),
            Err(DeserializeError::OutOfBounds) => de.input().len() < 1 && *final(value) == *old(
                value,
            ),
            Err(_) => false,
        },
{
    match deserialize_bool(de) {
        Ok(read) => {
            *value = read;
            Ok(())
        },
        Err(e) => Err(e),
    }
}

} // verus!
