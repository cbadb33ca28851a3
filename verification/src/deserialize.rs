//! Reading: the cursor over an inline region, and the reader that follows a formula.

use vstd::prelude::*;
use vstd::slice::{slice_subrange, slice_to_vec};
use crate::error::DeserializeError;
use crate::formula::Formula;
use crate::le::{le_value, lemma_le_value_bound, lemma_span_values, read_le};
use crate::schema::Schema;
use crate::seq::SeqUnpacked;
use crate::value::{views, Value, ValueView};
use crate::wire::{decode_aggregate, decode_fields, decode_rows, field_at, row_at};

verus! {

broadcast use vstd::std_specs::vec::group_vec_axioms;

/// Once a field cannot be read, the aggregate cannot be read, for the same reason.
pub proof fn lemma_decode_fields_error(
    fields: Seq<Formula>,
    stack: Seq<u8>,
    heap: Seq<u8>,
    k: nat,
    n: nat,
)
    requires
        k <= n <= fields.len(),
        decode_fields(fields, stack, heap, k) is Err,
    ensures
        decode_fields(fields, stack, heap, n) == decode_fields(fields, stack, heap, k),
    decreases n,
{
    if k < n {
        lemma_decode_fields_error(fields, stack, heap, k, (n - 1) as nat);
    }
}

/// Once an element cannot be read, the sequence cannot be read, for the same reason.
pub proof fn lemma_decode_rows_error(
    element: Formula,
    heap: Seq<u8>,
    offset: int,
    k: nat,
    n: nat,
)
    requires
        k <= n,
        decode_rows(element, heap, offset, k) is Err,
    ensures
        decode_rows(element, heap, offset, n) == decode_rows(element, heap, offset, k),
    decreases n,
{
    if k < n {
        lemma_decode_rows_error(element, heap, offset, k, (n - 1) as nat);
    }
}

/// Reading a field at `at` is reading it at the start of what follows `at`.
pub proof fn lemma_field_at_shift(
    field: Formula,
    last: bool,
    stack: Seq<u8>,
    heap: Seq<u8>,
    at: int,
)
    requires
        0 <= at <= stack.len(),
    ensures
        field_at(field, last, stack, heap, at) == match field_at(
            field,
            last,
            stack.skip(at),
            heap,
            0,
        ) {
            Ok((value, next)) => Ok::<(ValueView, int), DeserializeError>((value, at + next)),
            Err(e) => Err(e),
        },
{
    let rest = stack.skip(at);
    assert(rest.skip(0) =~= rest);
    if !last {
        if field.fixed_size() is Some {
            let size = field.fixed_size().unwrap() as int;
            if at + size <= stack.len() {
                assert(rest.subrange(0, size) =~= stack.subrange(at, at + size));
            }
        } else if at + 8 <= stack.len() {
            assert(rest.subrange(0, 4) =~= stack.subrange(at, at + 4));
            assert(rest.subrange(4, 8) =~= stack.subrange(at + 4, at + 8));
        }
    }
}

/// A cursor over the inline region of one value, with the trailing lane that the
/// region's references point into.
pub struct Deserializer<'a> {
    input: &'a [u8],
    heap: &'a [u8],
}

impl<'a> Deserializer<'a> {
    /// The bytes of the inline region that are still to be read.
    pub closed spec fn input(&self) -> Seq<u8> {
        self.input@
    }

    /// The trailing lane.
    pub closed spec fn heap(&self) -> Seq<u8> {
        self.heap@
    }

    /// A cursor at the start of `input`.
    pub fn new(input: &'a [u8], heap: &'a [u8]) -> (de: Self)
        ensures
            de.input() == input@,
            de.heap() == heap@,
    {
        Deserializer { input, heap }
    }

    /// The number of bytes that are still to be read.
    pub fn remaining(&self) -> (len: usize)
        ensures
            len == self.input().len(),
    {
        self.input.len()
    }

    /// Takes the next `len` bytes of the inline region, or leaves the cursor where it is
    /// if fewer remain.
    pub fn read_bytes(&mut self, len: usize) -> (result: Result<&'a [u8], DeserializeError>)
        ensures
            final(self).heap() == old(self).heap(),
            match result {
                Ok(bytes) => {
                    &&& len <= old(self).input().len()
                    &&& bytes@ == old(self).input().subrange(0, len as int)
                    &&& final(self).input() == old(self).input().skip(len as int)
                },
                Err(e) => {
                    &&& e == DeserializeError::OutOfBounds
                    &&& len > old(self).input().len()
                    &&& final(self).input() == old(self).input()
                },
            },
    {
        if len > self.input.len() {
            return Err(DeserializeError::OutOfBounds);
        }
        let bytes = slice_subrange(self.input, 0, len);
        let rest = slice_subrange(self.input, len, self.input.len());
        assert(rest@ =~= self.input@.skip(len as int));
        self.input = rest;
        Ok(bytes)
    }

    /// Takes every byte that remains in the inline region.
    pub fn read_all_bytes(self) -> (bytes: &'a [u8])
        ensures
            bytes@ == self.input(),
    {
        self.input
    }

    /// Takes a portable size, or leaves the cursor where it is if fewer than four bytes
    /// remain.
    pub fn read_usize(&mut self) -> (result: Result<usize, DeserializeError>)
        ensures
            final(self).heap() == old(self).heap(),
            match result {
                Ok(n) => {
                    &&& 4 <= old(self).input().len()
                    &&& n == le_value(old(self).input().subrange(0, 4))
                    &&& n <= u32::MAX
                    &&& final(self).input() == old(self).input().skip(4)
                },
                Err(e) => {
                    &&& e == DeserializeError::OutOfBounds
                    &&& 4 > old(self).input().len()
                    &&& final(self).input() == old(self).input()
                },
            },
    {
        match self.read_bytes(4) {
            Err(e) => Err(e),
            Ok(bytes) => {
                proof {
                    lemma_le_value_bound(bytes@);
                    lemma_span_values();
                }
                let n = read_le(bytes);
                Ok(n as usize)
            },
        }
    }

    /// Takes a length and an offset and checks that they name a range of the trailing
    /// lane; leaves the cursor where it is if fewer than eight bytes remain or the range
    /// is not within the lane.
    pub fn read_reference(&mut self) -> (result: Result<(usize, usize), DeserializeError>)
        ensures
            final(self).heap() == old(self).heap(),
            match result {
                Ok((len, offset)) => {
                    &&& 8 <= old(self).input().len()
                    &&& len == le_value(old(self).input().subrange(0, 4))
                    &&& offset == le_value(old(self).input().subrange(4, 8))
                    &&& offset + len <= old(self).heap().len()
                    &&& final(self).input() == old(self).input().skip(8)
                },
                Err(e) => {
                    &&& e == DeserializeError::OutOfBounds
                    &&& final(self).input() == old(self).input()
                    &&& {
                        ||| 8 > old(self).input().len()
                        ||| le_value(old(self).input().subrange(4, 8)) + le_value(
                            old(self).input().subrange(0, 4),
                        ) > old(self).heap().len()
                    }
                },
            },
    {
        if self.input.len() < 8 {
            return Err(DeserializeError::OutOfBounds);
        }
        let first = slice_subrange(self.input, 0, 4);
        let second = slice_subrange(self.input, 4, 8);
        proof {
            lemma_le_value_bound(first@);
            lemma_le_value_bound(second@);
            lemma_span_values();
        }
        let len = read_le(first) as usize;
        let offset = read_le(second) as usize;
        if offset > self.heap.len() || len > self.heap.len() - offset {
            return Err(DeserializeError::OutOfBounds);
        }
        let rest = slice_subrange(self.input, 8, self.input.len());
        assert(rest@ =~= self.input@.skip(8));
        self.input = rest;
        Ok((len, offset))
    }

    /// A cursor over the `len` bytes of the trailing lane that start at `offset`.
    pub fn region(&self, offset: usize, len: usize) -> (de: Deserializer<'a>)
        requires
            offset + len <= self.heap().len(),
        ensures
            de.input() == self.heap().subrange(offset as int, offset + len),
            de.heap() == self.heap(),
    {
        assert(offset + len <= self.heap.len());
        Deserializer { input: slice_subrange(self.heap, offset, offset + len), heap: self.heap }
    }

    /// The trailing lane.
    pub fn trailing(&self) -> (heap: &'a [u8])
        ensures
            heap@ == self.heap(),
    {
        self.heap
    }

    /// Reads the value that the rest of the inline region holds.
    pub fn deserialize(self, formula: &Formula) -> (result: Result<Value, DeserializeError>)
        ensures
            match result {
                Ok(value) => formula.decode(self.input(), self.heap()) == Ok::<
                    ValueView,
                    DeserializeError,
                >(value@),
                Err(e) => formula.decode(self.input(), self.heap()) == Err::<
                    ValueView,
                    DeserializeError,
                >(e),
            },
    {
        decode_value(formula, self)
    }

    /// Reads the value that the rest of the inline region holds into `value`, whatever
    /// it held before; leaves `value` as it is where the bytes cannot be read. Raw bytes
    /// are read into the storage that `value` has, where it holds raw bytes already.
    pub fn deserialize_in_place(self, value: &mut Value, formula: &Formula) -> (result: Result<
        (),
        DeserializeError,
    >)
        ensures
            match result {
                Ok(()) => formula.decode(self.input(), self.heap()) == Ok::<
                    ValueView,
                    DeserializeError,
                >(final(value)@),
                Err(e) => {
                    &&& formula.decode(self.input(), self.heap()) == Err::<
                        ValueView,
                        DeserializeError,
                    >(e)
                    &&& *final(value) == *old(value)
                },
            },
    {
        match (formula, &mut *value) {
            (Formula::Bytes, Value::Bytes(held)) => {
                held.clear();
                crate::buffer::extend(held, self.read_all_bytes());
                Ok(())
            },
            _ => match decode_value(formula, self) {
                Ok(read) => {
                    *value = read;
                    Ok(())
                },
                Err(e) => Err(e),
            },
        }
    }
}

/// Reads the value whose inline lane is the first `stack` bytes of `bytes` and whose
/// trailing lane is the rest; fails with `OutOfBounds` where `bytes` is shorter than
/// `stack`.
pub fn deserialize(schema: &Schema, bytes: &[u8], stack: usize) -> (result: Result<
    Value,
    DeserializeError,
>)
    ensures
        stack > bytes@.len() ==> result == Err::<Value, DeserializeError>(
            DeserializeError::OutOfBounds,
        ),
        stack <= bytes@.len() ==> match result {
            Ok(value) => schema@.decode(bytes@.subrange(0, stack as int), bytes@.skip(stack as int))
                == Ok::<ValueView, DeserializeError>(value@),
            Err(e) => schema@.decode(bytes@.subrange(0, stack as int), bytes@.skip(stack as int))
                == Err::<ValueView, DeserializeError>(e),
        },
{
    if stack > bytes.len() {
        return Err(DeserializeError::OutOfBounds);
    }
    let inline = slice_subrange(bytes, 0, stack);
    let trailing = slice_subrange(bytes, stack, bytes.len());
    assert(trailing@ =~= bytes@.skip(stack as int));
    decode_value(schema.formula(), Deserializer::new(inline, trailing))
}

/// Reads the value as `deserialize` does, into `value`, whatever it held before; leaves
/// `value` as it is where the bytes cannot be read.
pub fn deserialize_in_place(schema: &Schema, value: &mut Value, bytes: &[u8], stack: usize) -> (result:
    Result<(), DeserializeError>)
    ensures
        stack > bytes@.len() ==> result == Err::<(), DeserializeError>(
            DeserializeError::OutOfBounds,
        ),
        stack <= bytes@.len() ==> match result {
            Ok(()) => schema@.decode(bytes@.subrange(0, stack as int), bytes@.skip(stack as int))
                == Ok::<ValueView, DeserializeError>(final(value)@),
            Err(e) => schema@.decode(bytes@.subrange(0, stack as int), bytes@.skip(stack as int))
                == Err::<ValueView, DeserializeError>(e),
        },
        result is Err ==> *final(value) == *old(value),
{
    if stack > bytes.len() {
        return Err(DeserializeError::OutOfBounds);
    }
    let inline = slice_subrange(bytes, 0, stack);
    let trailing = slice_subrange(bytes, stack, bytes.len());
    assert(trailing@ =~= bytes@.skip(stack as int));
    Deserializer::new(inline, trailing).deserialize_in_place(value, schema.formula())
}

/// Reads one field of an aggregate at the cursor, as `field_at` says, and moves the
/// cursor behind the field.
pub fn decode_field(field: &Formula, last: bool, de: &mut Deserializer) -> (result: Result<
    Value,
    DeserializeError,
>)
    ensures
        final(de).heap() == old(de).heap(),
        match result {
            Ok(value) => {
                &&& field_at(*field, last, old(de).input(), old(de).heap(), 0) matches Ok(
                    (read, next),
                )
                &&& read == value@
                &&& 0 <= next <= old(de).input().len()
                &&& final(de).input() == old(de).input().skip(next)
            },
            Err(e) => field_at(*field, last, old(de).input(), old(de).heap(), 0) == Err::<
                (ValueView, int),
                DeserializeError,
            >(e),
        },
    decreases field, 1nat,
{
    let ghost stack = de.input();
    if last {
        let len = de.remaining();
        let bytes = match de.read_bytes(len) {
            Ok(bytes) => bytes,
            Err(e) => {
                return Err(e);
            },
        };
        assert(bytes@ =~= stack.skip(0));
        let inner = Deserializer::new(bytes, de.trailing());
        decode_value(field, inner)
    } else {
        match field.fixed() {
            Some(size) => {
                let bytes = match de.read_bytes(size) {
                    Ok(bytes) => bytes,
                    Err(e) => {
                        return Err(e);
                    },
                };
                let inner = Deserializer::new(bytes, de.trailing());
                decode_value(field, inner)
            },
            None => {
                let (len, offset) = match de.read_reference() {
                    Ok(pair) => pair,
                    Err(e) => {
                        return Err(e);
                    },
                };
                let inner = de.region(offset, len);
                decode_value(field, inner)
            },
        }
    }
}

/// Reads the fields of an aggregate from the whole inline region, as `decode_aggregate`
/// says.
pub fn decode_struct(fields: &Vec<Formula>, de: Deserializer) -> (result: Result<
    Vec<Value>,
    DeserializeError,
>)
    ensures
        match result {
            Ok(values) => decode_aggregate(fields@, de.input(), de.heap()) == Ok::<
                Seq<ValueView>,
                DeserializeError,
            >(views(values@)),
            Err(e) => decode_aggregate(fields@, de.input(), de.heap()) == Err::<
                Seq<ValueView>,
                DeserializeError,
            >(e),
        },
    decreases fields,
{
    let n = fields.len();
    let mut values: Vec<Value> = Vec::new();
    if n == 0 {
        if de.remaining() == 0 {
            assert(views(values@) =~= Seq::<ValueView>::empty());
            return Ok(values);
        } else {
            return Err(DeserializeError::WrongLength);
        }
    }
    let ghost stack = de.input();
    let ghost heap = de.heap();
    let ghost at: int = 0;
    let mut cursor = Deserializer::new(de.input, de.heap);
    let mut i: usize = 0;
    assert(views(values@) =~= Seq::<ValueView>::empty());
    assert(stack.skip(0) =~= stack);
    while i < n
        invariant
            n == fields@.len(),
            0 < n,
            i <= n,
            0 <= at <= stack.len(),
            stack == de.input(),
            heap == de.heap(),
            cursor.input() == stack.skip(at),
            cursor.heap() == heap,
            decode_fields(fields@, stack, heap, i as nat) == Ok::<
                (Seq<ValueView>, int),
                DeserializeError,
            >((views(values@), at)),
        decreases n - i,
    {
        proof {
            lemma_field_at_shift(fields@[i as int], i + 1 == n, stack, heap, at);
        }
        let ghost before = views(values@);
        match decode_field(&fields[i], i + 1 == n, &mut cursor) {
            Ok(value) => {
                let ghost next = field_at(fields@[i as int], i + 1 == n, stack.skip(at), heap, 0)->Ok_0.1;
                values.push(value);
                proof {
                    assert(views(values@) =~= before.push(value@));
                    assert(stack.skip(at).skip(next) =~= stack.skip(at + next));
                    at = at + next;
                }
            },
            Err(e) => {
                proof {
                    lemma_decode_fields_error(fields@, stack, heap, (i + 1) as nat, n as nat);
                }
                return Err(e);
            },
        }
        i = i + 1;
    }
    Ok(values)
}

/// Reads the element whose row starts at `at` in `heap`, as `row_at` says, and gives the
/// place that follows the row.
pub fn decode_row(element: &Formula, heap: &[u8], at: usize) -> (result: Result<
    (Value, usize),
    DeserializeError,
>)
    requires
        at <= heap@.len(),
    ensures
        match result {
            Ok((value, next)) => {
                &&& row_at(*element, heap@, at as int) == Ok::<(ValueView, int), DeserializeError>(
                    (value@, next as int),
                )
                &&& at <= next <= heap@.len()
            },
            Err(e) => row_at(*element, heap@, at as int) == Err::<
                (ValueView, int),
                DeserializeError,
            >(e),
        },
    decreases element, 1nat,
{
    let room = heap.len() - at;
    match element.fixed() {
        Some(size) => {
            if size > room {
                return Err(DeserializeError::OutOfBounds);
            }
            let inner = Deserializer::new(slice_subrange(heap, at, at + size), heap);
            match decode_value(element, inner) {
                Ok(value) => Ok((value, at + size)),
                Err(e) => Err(e),
            }
        },
        None => {
            if room < 4 {
                return Err(DeserializeError::OutOfBounds);
            }
            let prefix = slice_subrange(heap, at, at + 4);
            proof {
                lemma_le_value_bound(prefix@);
                lemma_span_values();
            }
            let len = read_le(prefix) as usize;
            if len > room - 4 {
                return Err(DeserializeError::OutOfBounds);
            }
            let inner = Deserializer::new(slice_subrange(heap, at + 4, at + 4 + len), heap);
            match decode_value(element, inner) {
                Ok(value) => Ok((value, at + 4 + len)),
                Err(e) => Err(e),
            }
        },
    }
}

/// Reads the value that the whole inline region holds, as `Formula::decode` says.
pub fn decode_value(formula: &Formula, de: Deserializer) -> (result: Result<
    Value,
    DeserializeError,
>)
    ensures
        match result {
            Ok(value) => formula.decode(de.input(), de.heap()) == Ok::<ValueView, DeserializeError>(
                value@,
            ),
            Err(e) => formula.decode(de.input(), de.heap()) == Err::<ValueView, DeserializeError>(
                e,
            ),
        },
    decreases formula, 0nat,
{
    match formula {
        Formula::Primitive(p) => {
            let bytes = de.read_all_bytes();
            let width = p.width();
            if bytes.len() == width {
                proof {
                    lemma_le_value_bound(bytes@);
                }
                Ok(p.value_from(read_le(bytes)))
            } else if bytes.len() > width {
                Err(DeserializeError::WrongLength)
            } else {
                Err(DeserializeError::OutOfBounds)
            }
        },
        Formula::Bytes => Ok(Value::Bytes(slice_to_vec(de.read_all_bytes()))),
        Formula::Struct(fields) => match decode_struct(fields, de) {
            Ok(values) => Ok(Value::Struct(values)),
            Err(e) => Err(e),
        },
        Formula::Enum(variants) => {
            let ghost stack = de.input();
            let mut de = de;
            let tag = match de.read_usize() {
                Ok(tag) => tag,
                Err(e) => {
                    return Err(e);
                },
            };
            if tag >= variants.len() {
                return Err(DeserializeError::WrongVariant(tag as u32));
            }
            match decode_struct(&variants[tag], de) {
                Ok(values) => Ok(Value::Variant(tag as u32, values)),
                Err(e) => Err(e),
            }
        },
        Formula::Sequence(element) => {
            let ghost stack = de.input();
            let ghost heap = de.heap();
            if de.remaining() < 8 {
                return Err(DeserializeError::OutOfBounds);
            }
            if de.remaining() > 8 {
                return Err(DeserializeError::WrongLength);
            }
            let mut de = de;
            let count = match de.read_usize() {
                Ok(count) => count,
                Err(e) => {
                    return Err(e);
                },
            };
            let offset = match de.read_usize() {
                Ok(offset) => offset,
                Err(e) => {
                    return Err(e);
                },
            };
            assert(stack.skip(4).subrange(0, 4) =~= stack.subrange(4, 8));
            let rows = match SeqUnpacked::unpack(element, count, offset, de.trailing()) {
                Ok(rows) => rows,
                Err(e) => {
                    proof {
                        lemma_decode_rows_error(**element, heap, offset as int, 0, count as nat);
                    }
                    return Err(e);
                },
            };
            match rows.collect() {
                Ok(values) => Ok(Value::Sequence(values)),
                Err(e) => Err(e),
            }
        },
    }
}

} // verus!
