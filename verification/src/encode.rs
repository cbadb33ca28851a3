//! Writing: the writer that follows a formula and fills the two lanes.

use vstd::prelude::*;
use crate::error::SerializeError;
use crate::formula::Formula;
use crate::le::push_le;
use crate::seq::Sequence;
use crate::size::FixedUsize;
use crate::roundtrip::{lemma_encode_fields_prefix, lemma_encode_rows_prefix};
use crate::value::{views, Value};
use crate::wire::{
    encode_fields, encode_row, encode_rows, encode_slot, fields_admit, sequence_lanes, word,
};

verus! {

broadcast use vstd::std_specs::vec::group_vec_axioms;

/// The portable size that holds `n`, or `Overflow` where `n` does not fit one.
pub fn portable(n: usize) -> (result: Result<FixedUsize, SerializeError>)
    ensures
        match result {
            Ok(fixed) => n <= u32::MAX && fixed@ == n,
            Err(e) => e == SerializeError::Overflow && n > u32::MAX,
        },
{
    match FixedUsize::try_from(n) {
        Ok(fixed) => Ok(fixed),
        Err(_) => Err(SerializeError::Overflow),
    }
}

/// Appends a portable size to `out`.
pub fn push_word(out: &mut Vec<u8>, fixed: FixedUsize)
    ensures
        final(out)@ == old(out)@ + word(fixed@),
{
    let bytes = fixed.to_le_bytes();
    crate::buffer::extend(out, bytes.as_slice());
}

/// Writes one field of an aggregate: appends to `stack` and to `heap` what `encode_slot`
/// says.
pub fn encode_field(
    field: &Formula,
    last: bool,
    value: &Value,
    stack: &mut Vec<u8>,
    heap: &mut Vec<u8>,
    base: usize,
) -> (result: Result<(), SerializeError>)
    requires
        field.admits(value@),
    ensures
        match result {
            Ok(()) => {
                &&& encode_slot(*field, last, value@, (base + old(heap)@.len()) as nat) matches Some(
                    written,
                )
                &&& final(stack)@ == old(stack)@ + written.stack
                &&& final(heap)@ == old(heap)@ + written.heap
            },
            Err(e) => {
                &&& e == SerializeError::Overflow
                &&& encode_slot(*field, last, value@, (base + old(heap)@.len()) as nat) is None
            },
        },
    decreases field, 1nat,
{
    let ghost own = field.encode(value@, (base + heap@.len()) as nat);
    if last || field.fixed().is_some() {
        encode_value(field, value, stack, heap, base)
    } else {
        let mut region: Vec<u8> = Vec::new();
        match encode_value(field, value, &mut region, heap, base) {
            Ok(()) => {},
            Err(e) => {
                return Err(e);
            },
        }
        assert(region@ =~= own.unwrap().stack);
        let offset = match base.checked_add(heap.len()) {
            Some(offset) => offset,
            None => {
                return Err(SerializeError::Overflow);
            },
        };
        let len = match portable(region.len()) {
            Ok(len) => len,
            Err(e) => {
                return Err(e);
            },
        };
        let place = match portable(offset) {
            Ok(place) => place,
            Err(e) => {
                return Err(e);
            },
        };
        push_word(stack, len);
        push_word(stack, place);
        heap.append(&mut region);
        assert(stack@ =~= old(stack)@ + (word(own.unwrap().stack.len()) + word(offset as nat)));
        assert(heap@ =~= old(heap)@ + (own.unwrap().heap + own.unwrap().stack));
        Ok(())
    }
}

/// Writes the fields of an aggregate: appends to `stack` and to `heap` what
/// `encode_fields` says. `base` is the offset at which `heap` starts.
pub fn encode_aggregate(
    fields: &Vec<Formula>,
    values: &Vec<Value>,
    stack: &mut Vec<u8>,
    heap: &mut Vec<u8>,
    base: usize,
) -> (result: Result<(), SerializeError>)
    requires
        fields_admit(fields@, views(values@)),
    ensures
        match result {
            Ok(()) => {
                &&& encode_fields(
                    fields@,
                    views(values@),
                    fields@.len(),
                    (base + old(heap)@.len()) as nat,
                ) matches Some(written)
                &&& final(stack)@ == old(stack)@ + written.stack
                &&& final(heap)@ == old(heap)@ + written.heap
            },
            Err(e) => {
                &&& e == SerializeError::Overflow
                &&& encode_fields(
                    fields@,
                    views(values@),
                    fields@.len(),
                    (base + old(heap)@.len()) as nat,
                ) is None
            },
        },
    decreases fields,
{
    let n = fields.len();
    let ghost start = (base + heap@.len()) as nat;
    let ghost stack0 = stack@;
    let ghost heap0 = heap@;
    let ghost models = views(values@);
    let mut i: usize = 0;
    assert(stack@ =~= stack0 + Seq::<u8>::empty());
    assert(heap@ =~= heap0 + Seq::<u8>::empty());
    while i < n
        invariant
            n == fields@.len(),
            i <= n,
            models == views(values@),
            fields_admit(fields@, models),
            start == base + heap0.len(),
            heap0 == old(heap)@,
            stack0 == old(stack)@,
            encode_fields(fields@, models, i as nat, start) is Some,
            stack@ == stack0 + encode_fields(fields@, models, i as nat, start).unwrap().stack,
            heap@ == heap0 + encode_fields(fields@, models, i as nat, start).unwrap().heap,
        decreases n - i,
    {
        let ghost before = encode_fields(fields@, models, i as nat, start).unwrap();
        let ghost step = encode_slot(
            fields@[i as int],
            i + 1 == n,
            models[i as int],
            start + before.heap.len(),
        );
        let ghost after = encode_fields(fields@, models, (i + 1) as nat, start);
        assert(fields@[i as int].admits(models[i as int]));
        assert(models[i as int] == values@[i as int]@);
        assert(step is None ==> after is None);
        assert(step is Some ==> after == Some(
            crate::wire::Lanes {
                stack: before.stack + step.unwrap().stack,
                heap: before.heap + step.unwrap().heap,
            },
        ));
        match encode_field(&fields[i], i + 1 == n, &values[i], stack, heap, base) {
            Ok(()) => {
                assert(stack@ =~= stack0 + after.unwrap().stack);
                assert(heap@ =~= heap0 + after.unwrap().heap);
            },
            Err(e) => {
                proof {
                    if encode_fields(fields@, models, n as nat, start) is Some {
                        lemma_encode_fields_prefix(fields@, models, (i + 1) as nat, n as nat, start);
                    }
                }
                return Err(e);
            },
        }
        i = i + 1;
    }
    Ok(())
}

/// Writes one element of a sequence: appends its row to `rows` and to `heap` what the
/// element appends there itself, as `encode_row` says.
pub fn encode_element(
    element: &Formula,
    fixed: bool,
    value: &Value,
    rows: &mut Vec<u8>,
    heap: &mut Vec<u8>,
    base: usize,
) -> (result: Result<(), SerializeError>)
    requires
        element.admits(value@),
        fixed == (element.fixed_size() is Some),
    ensures
        match result {
            Ok(()) => {
                &&& encode_row(*element, value@, (base + old(heap)@.len()) as nat) matches Some(
                    written,
                )
                &&& final(rows)@ == old(rows)@ + written.stack
                &&& final(heap)@ == old(heap)@ + written.heap
            },
            Err(e) => {
                &&& e == SerializeError::Overflow
                &&& encode_row(*element, value@, (base + old(heap)@.len()) as nat) is None
            },
        },
    decreases element, 1nat,
{
    let ghost own = element.encode(value@, (base + heap@.len()) as nat);
    if fixed {
        encode_value(element, value, rows, heap, base)
    } else {
        let mut region: Vec<u8> = Vec::new();
        match encode_value(element, value, &mut region, heap, base) {
            Ok(()) => {},
            Err(e) => {
                return Err(e);
            },
        }
        assert(region@ =~= own.unwrap().stack);
        let len = match portable(region.len()) {
            Ok(len) => len,
            Err(e) => {
                return Err(e);
            },
        };
        push_word(rows, len);
        rows.append(&mut region);
        assert(rows@ =~= old(rows)@ + (word(own.unwrap().stack.len()) + own.unwrap().stack));
        Ok(())
    }
}

/// Writes the elements of a sequence: appends their rows to `rows` and to `heap` what
/// the elements append there themselves, as `encode_rows` says.
pub fn encode_elements(
    element: &Formula,
    values: &Vec<Value>,
    rows: &mut Vec<u8>,
    heap: &mut Vec<u8>,
    base: usize,
) -> (result: Result<(), SerializeError>)
    requires
        forall|i: int| 0 <= i < values@.len() ==> element.admits(#[trigger] views(values@)[i]),
    ensures
        match result {
            Ok(()) => {
                &&& encode_rows(
                    *element,
                    views(values@),
                    values@.len(),
                    (base + old(heap)@.len()) as nat,
                ) matches Some(written)
                &&& final(rows)@ == old(rows)@ + written.stack
                &&& final(heap)@ == old(heap)@ + written.heap
            },
            Err(e) => {
                &&& e == SerializeError::Overflow
                &&& encode_rows(
                    *element,
                    views(values@),
                    values@.len(),
                    (base + old(heap)@.len()) as nat,
                ) is None
            },
        },
    decreases element, 2nat,
{
    let n = values.len();
    let fixed = element.fixed().is_some();
    let ghost start = (base + heap@.len()) as nat;
    let ghost rows0 = rows@;
    let ghost heap0 = heap@;
    let ghost models = views(values@);
    let mut i: usize = 0;
    assert(rows@ =~= rows0 + Seq::<u8>::empty());
    assert(heap@ =~= heap0 + Seq::<u8>::empty());
    while i < n
        invariant
            n == values@.len(),
            i <= n,
            models == views(values@),
            models.len() == n,
            fixed == (element.fixed_size() is Some),
            forall|j: int| 0 <= j < n ==> element.admits(#[trigger] models[j]),
            start == base + heap0.len(),
            heap0 == old(heap)@,
            rows0 == old(rows)@,
            encode_rows(*element, models, i as nat, start) is Some,
            rows@ == rows0 + encode_rows(*element, models, i as nat, start).unwrap().stack,
            heap@ == heap0 + encode_rows(*element, models, i as nat, start).unwrap().heap,
        decreases n - i,
    {
        let ghost before = encode_rows(*element, models, i as nat, start).unwrap();
        let ghost step = encode_row(*element, models[i as int], start + before.heap.len());
        let ghost after = encode_rows(*element, models, (i + 1) as nat, start);
        assert(element.admits(models[i as int]));
        assert(models[i as int] == values@[i as int]@);
        assert(step is None ==> after is None);
        assert(step is Some ==> after == Some(
            crate::wire::Lanes {
                stack: before.stack + step.unwrap().stack,
                heap: before.heap + step.unwrap().heap,
            },
        ));
        match encode_element(element, fixed, &values[i], rows, heap, base) {
            Ok(()) => {
                assert(rows@ =~= rows0 + after.unwrap().stack);
                assert(heap@ =~= heap0 + after.unwrap().heap);
            },
            Err(e) => {
                proof {
                    if encode_rows(*element, models, n as nat, start) is Some {
                        lemma_encode_rows_prefix(*element, models, (i + 1) as nat, n as nat, start);
                    }
                }
                return Err(e);
            },
        }
        i = i + 1;
    }
    Ok(())
}

/// Writes a sequence of `values`: appends to `heap` what the elements append there
/// themselves and then their rows, and to `stack` the number of elements and the offset
/// of the rows.
pub fn encode_sequence(
    element: &Formula,
    values: &Vec<Value>,
    stack: &mut Vec<u8>,
    heap: &mut Vec<u8>,
    base: usize,
) -> (result: Result<(), SerializeError>)
    requires
        forall|i: int| 0 <= i < values@.len() ==> element.admits(#[trigger] views(values@)[i]),
    ensures
        match result {
            Ok(()) => {
                &&& sequence_lanes(*element, views(values@), (base + old(heap)@.len()) as nat)
                    matches Some(written)
                &&& final(stack)@ == old(stack)@ + written.stack
                &&& final(heap)@ == old(heap)@ + written.heap
            },
            Err(e) => {
                &&& e == SerializeError::Overflow
                &&& sequence_lanes(*element, views(values@), (base + old(heap)@.len()) as nat)
                    is None
            },
        },
    decreases element, 4nat,
{
    assert(views(values@).len() == values@.len());
    match Sequence::pack(element, values, base, heap) {
        Ok(packed) => {
            push_word(stack, FixedUsize(packed[0]));
            push_word(stack, FixedUsize(packed[1]));
            assert(stack@ =~= old(stack)@ + (word(packed[0] as nat) + word(packed[1] as nat)));
            Ok(())
        },
        Err(e) => Err(e),
    }
}

/// Writes `value` as `formula` lays it out: appends to `stack` and to `heap` what
/// `Formula::encode` says, or fails where that is `None`. `base` is the offset at which
/// `heap` starts. After a failure the two lanes hold what was written before it.
pub fn encode_value(
    formula: &Formula,
    value: &Value,
    stack: &mut Vec<u8>,
    heap: &mut Vec<u8>,
    base: usize,
) -> (result: Result<(), SerializeError>)
    requires
        formula.admits(value@),
    ensures
        match result {
            Ok(()) => {
                &&& formula.encode(value@, (base + old(heap)@.len()) as nat) matches Some(written)
                &&& final(stack)@ == old(stack)@ + written.stack
                &&& final(heap)@ == old(heap)@ + written.heap
            },
            Err(e) => {
                &&& e == SerializeError::Overflow
                &&& formula.encode(value@, (base + old(heap)@.len()) as nat) is None
            },
        },
    decreases formula, 0nat,
{
    match formula {
        Formula::Primitive(p) => {
            let image = p.image_of(value);
            push_le(stack, image, p.width());
            assert(heap@ =~= old(heap)@ + Seq::<u8>::empty());
            Ok(())
        },
        Formula::Bytes => match value {
            Value::Bytes(bytes) => {
                crate::buffer::extend(stack, bytes.as_slice());
                assert(heap@ =~= old(heap)@ + Seq::<u8>::empty());
                Ok(())
            },
            _ => Err(SerializeError::Overflow),
        },
        Formula::Struct(fields) => match value {
            Value::Struct(values) => encode_aggregate(fields, values, stack, heap, base),
            _ => Err(SerializeError::Overflow),
        },
        Formula::Enum(variants) => match value {
            Value::Variant(tag, values) => {
                let index = *tag as usize;
                push_word(stack, FixedUsize(*tag));
                match encode_aggregate(&variants[index], values, stack, heap, base) {
                    Ok(()) => {
                        let ghost body = encode_fields(
                            variants@[index as int]@,
                            views(values@),
                            variants@[index as int]@.len(),
                            (base + old(heap)@.len()) as nat,
                        ).unwrap();
                        assert(stack@ =~= old(stack)@ + (word(index as nat) + body.stack));
                        Ok(())
                    },
                    Err(e) => Err(e),
                }
            },
            _ => Err(SerializeError::Overflow),
        },
        Formula::Sequence(element) => match value {
            Value::Sequence(values) => {
                assert(views(values@).len() == values@.len());
                encode_sequence(element, values, stack, heap, base)
            },
            _ => Err(SerializeError::Overflow),
        },
    }
}

} // verus!
