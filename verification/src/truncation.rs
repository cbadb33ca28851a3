//! An encoding that was cut short is refused.

use vstd::prelude::*;
use crate::error::DeserializeError;
use crate::formula::{fields_valid, Formula};
use crate::roundtrip::{
    lemma_encode_fields_prefix, lemma_encode_rows_prefix, lemma_fields_round_trip,
    lemma_rows_round_trip, lemma_split, lemma_window, lemma_word_round_trip,
};
use crate::soundness::lemma_sound;
use crate::value::ValueView;
use crate::wire::{
    decode_fields, decode_rows, encode_fields, encode_row, encode_rows, encode_slot, field_at,
    fields_admit, row_at, sequence_lanes, word,
};

verus! {

broadcast use vstd::std_specs::vec::group_vec_axioms;

/// Whether reading from less of the trailing lane fails or gives what reading from all
/// of it gives.
pub open spec fn fails_or_same<T>(
    short: Result<T, DeserializeError>,
    whole: Result<T, DeserializeError>,
) -> bool {
    short is Err || short == whole
}

/// A field read from the first `m` bytes of the trailing lane cannot be read, or is the
/// field read from all of it.
pub proof fn lemma_field_shortened(
    field: Formula,
    last: bool,
    stack: Seq<u8>,
    heap: Seq<u8>,
    at: int,
    m: int,
)
    requires
        0 <= m <= heap.len(),
        0 <= at <= stack.len(),
    ensures
        fails_or_same(
            field_at(field, last, stack, heap.subrange(0, m), at),
            field_at(field, last, stack, heap, at),
        ),
    decreases field, 1nat,
{
    let short = heap.subrange(0, m);
    if last {
        lemma_shortened(field, stack.skip(at), heap, m);
    } else if field.fixed_size() is Some {
        let size = field.fixed_size().unwrap() as int;
        if at + size <= stack.len() {
            lemma_shortened(field, stack.subrange(at, at + size), heap, m);
        }
    } else if at + 8 <= stack.len() {
        let len = crate::le::le_value(stack.subrange(at, at + 4)) as int;
        let offset = crate::le::le_value(stack.subrange(at + 4, at + 8)) as int;
        if offset + len <= m {
            assert(short.subrange(offset, offset + len) =~= heap.subrange(offset, offset + len));
            lemma_shortened(field, heap.subrange(offset, offset + len), heap, m);
        }
    }
}

/// The first `k` fields read from the first `m` bytes of the trailing lane cannot be
/// read, or are the fields read from all of it.
pub proof fn lemma_fields_shortened(
    fields: Seq<Formula>,
    stack: Seq<u8>,
    heap: Seq<u8>,
    k: nat,
    m: int,
)
    requires
        0 <= m <= heap.len(),
    ensures
        fails_or_same(
            decode_fields(fields, stack, heap.subrange(0, m), k),
            decode_fields(fields, stack, heap, k),
        ),
        decode_fields(fields, stack, heap, k) matches Ok((_, at)) ==> 0 <= at <= stack.len(),
    decreases fields, k,
{
    if k > 0 && k <= fields.len() {
        lemma_fields_shortened(fields, stack, heap, (k - 1) as nat, m);
        match decode_fields(fields, stack, heap, (k - 1) as nat) {
            Ok((_, at)) => {
                lemma_field_shortened(fields[k - 1], k == fields.len(), stack, heap, at, m);
            },
            Err(_) => {},
        }
    }
}

/// An element read from the first `m` bytes of the trailing lane cannot be read, or is
/// the element read from all of it.
pub proof fn lemma_row_shortened(element: Formula, heap: Seq<u8>, at: int, m: int)
    requires
        0 <= m <= heap.len(),
        0 <= at,
    ensures
        fails_or_same(row_at(element, heap.subrange(0, m), at), row_at(element, heap, at)),
        row_at(element, heap, at) matches Ok((_, next)) ==> at <= next,
    decreases element, 1nat,
{
    let short = heap.subrange(0, m);
    if element.fixed_size() is Some {
        let size = element.fixed_size().unwrap() as int;
        if at + size <= m {
            assert(short.subrange(at, at + size) =~= heap.subrange(at, at + size));
            lemma_shortened(element, heap.subrange(at, at + size), heap, m);
        }
    } else if at + 4 <= m {
        assert(short.subrange(at, at + 4) =~= heap.subrange(at, at + 4));
        let len = crate::le::le_value(heap.subrange(at, at + 4)) as int;
        if at + 4 + len <= m {
            assert(short.subrange(at + 4, at + 4 + len) =~= heap.subrange(at + 4, at + 4 + len));
            lemma_shortened(element, heap.subrange(at + 4, at + 4 + len), heap, m);
        }
    }
}

/// The first `k` elements read from the first `m` bytes of the trailing lane cannot be
/// read, or are the elements read from all of it.
pub proof fn lemma_rows_shortened(element: Formula, heap: Seq<u8>, offset: int, k: nat, m: int)
    requires
        0 <= m <= heap.len(),
    ensures
        fails_or_same(
            decode_rows(element, heap.subrange(0, m), offset, k),
            decode_rows(element, heap, offset, k),
        ),
        decode_rows(element, heap, offset, k) matches Ok((_, at)) ==> 0 <= at,
    decreases element, k + 2,
{
    if k > 0 {
        lemma_rows_shortened(element, heap, offset, (k - 1) as nat, m);
        match decode_rows(element, heap, offset, (k - 1) as nat) {
            Ok((_, at)) => {
                lemma_row_shortened(element, heap, at, m);
            },
            Err(_) => {},
        }
    }
}

/// A value read against the first `m` bytes of the trailing lane cannot be read, or is
/// the value read against all of it.
pub proof fn lemma_shortened(formula: Formula, stack: Seq<u8>, heap: Seq<u8>, m: int)
    requires
        0 <= m <= heap.len(),
    ensures
        fails_or_same(formula.decode(stack, heap.subrange(0, m)), formula.decode(stack, heap)),
    decreases formula, 0nat,
{
    match formula {
        Formula::Struct(fields) => {
            lemma_fields_shortened(fields@, stack, heap, fields@.len(), m);
        },
        Formula::Enum(variants) => {
            if stack.len() >= 4 {
                let tag = crate::le::le_value(stack.subrange(0, 4));
                if tag < variants@.len() {
                    let fields = variants@[tag as int]@;
                    lemma_fields_shortened(fields, stack.skip(4), heap, fields.len(), m);
                }
            }
        },
        Formula::Sequence(element) => {
            if stack.len() == 8 {
                let count = crate::le::le_value(stack.subrange(0, 4));
                let offset = crate::le::le_value(stack.subrange(4, 8)) as int;
                lemma_rows_shortened(*element, heap, offset, count, m);
            }
        },
        _ => {},
    }
}

/// One field cannot be read back where the trailing lane ends before the end of what
/// the field appended to it.
pub proof fn lemma_slot_cut(
    field: Formula,
    last: bool,
    value: ValueView,
    base: nat,
    front: Seq<u8>,
    back: Seq<u8>,
    before: Seq<u8>,
    rest: Seq<u8>,
    m: int,
)
    requires
        field.valid(),
        field.admits(value),
        encode_slot(field, last, value, base) is Some,
        before.len() == base,
        last ==> back.len() == 0,
        encode_slot(field, last, value, base).unwrap().heap.len() > 0,
        0 <= m < base + encode_slot(field, last, value, base).unwrap().heap.len(),
    ensures
        field_at(
            field,
            last,
            front + encode_slot(field, last, value, base).unwrap().stack + back,
            (before + encode_slot(field, last, value, base).unwrap().heap + rest).subrange(0, m),
            front.len() as int,
        ) is Err,
    decreases field, 1nat,
{
    let own = encode_slot(field, last, value, base).unwrap();
    let inner = field.encode(value, base).unwrap();
    let stack = front + own.stack + back;
    let heap = before + own.heap + rest;
    let at = front.len() as int;
    if last || field.fixed_size() is Some {
        lemma_cut(field, value, base, before, rest, m);
        if last {
            assert(stack.skip(at) =~= inner.stack);
        } else {
            lemma_sound(field, value, base);
            lemma_window(front, inner.stack, back);
        }
    } else {
        let len = inner.stack.len();
        let offset = base + inner.heap.len();
        lemma_word_round_trip(len);
        lemma_word_round_trip(offset);
        assert(stack.subrange(at, at + 4) == word(len)) by {
            lemma_window(front, word(len), word(offset) + back);
            assert(stack =~= front + word(len) + (word(offset) + back));
        }
        assert(stack.subrange(at + 4, at + 8) == word(offset)) by {
            lemma_window(front + word(len), word(offset), back);
            assert(stack =~= (front + word(len)) + word(offset) + back);
        }
        assert(stack.len() >= at + 8);
        assert(heap.subrange(0, m).len() == m);
    }
}

/// The first `k` fields cannot be read back where the trailing lane ends before the end
/// of what they appended to it.
pub proof fn lemma_fields_cut(
    fields: Seq<Formula>,
    values: Seq<ValueView>,
    k: nat,
    base: nat,
    before: Seq<u8>,
    rest: Seq<u8>,
    m: int,
)
    requires
        fields_valid(fields),
        fields_admit(fields, values),
        k <= fields.len(),
        encode_fields(fields, values, fields.len(), base) is Some,
        encode_fields(fields, values, k, base) is Some,
        before.len() == base,
        encode_fields(fields, values, k, base).unwrap().heap.len() > 0,
        0 <= m < base + encode_fields(fields, values, k, base).unwrap().heap.len(),
    ensures
        decode_fields(
            fields,
            encode_fields(fields, values, fields.len(), base).unwrap().stack,
            (before + encode_fields(fields, values, fields.len(), base).unwrap().heap
                + rest).subrange(0, m),
            k,
        ) is Err,
    decreases fields, k,
{
    let n = fields.len();
    let whole = encode_fields(fields, values, n, base).unwrap();
    let full = before + whole.heap + rest;
    let short = full.subrange(0, m);
    if k > 0 {
        let j = (k - 1) as nat;
        lemma_encode_fields_prefix(fields, values, k, n, base);
        lemma_encode_fields_prefix(fields, values, j, n, base);
        lemma_fields_round_trip(fields, values, j, base, before, rest);
        lemma_fields_shortened(fields, whole.stack, full, j, m);
        let prev = encode_fields(fields, values, j, base).unwrap();
        let now = encode_fields(fields, values, k, base).unwrap();
        let field = fields[k - 1];
        let value = values[k - 1];
        let own = encode_slot(field, k == n, value, base + prev.heap.len()).unwrap();
        assert(field.valid());
        assert(field.admits(value));
        assert(now.stack == prev.stack + own.stack);
        assert(now.heap == prev.heap + own.heap);
        if decode_fields(fields, whole.stack, short, j) is Ok {
            if own.heap.len() == 0 {
                lemma_fields_cut(fields, values, j, base, before, rest, m);
            } else {
                let tail = whole.stack.skip(now.stack.len() as int);
                let later = whole.heap.skip(now.heap.len() as int);
                lemma_split(whole.heap, now.heap.len() as int);
                lemma_split(whole.stack, now.stack.len() as int);
                assert(whole.stack == prev.stack + own.stack + tail);
                assert(full == (before + prev.heap) + own.heap + (later + rest)) by {
                    assert(full =~= (before + prev.heap) + own.heap + (later + rest));
                }
                lemma_slot_cut(
                    field,
                    k == n,
                    value,
                    base + prev.heap.len(),
                    prev.stack,
                    tail,
                    before + prev.heap,
                    later + rest,
                    m,
                );
            }
        }
    }
}

/// The first `k` elements cannot be read back where the trailing lane ends before the
/// end of their rows.
pub proof fn lemma_rows_cut(
    element: Formula,
    values: Seq<ValueView>,
    k: nat,
    base: nat,
    before: Seq<u8>,
    rest: Seq<u8>,
    m: int,
)
    requires
        element.valid(),
        forall|i: int| 0 <= i < values.len() ==> element.admits(#[trigger] values[i]),
        k <= values.len(),
        encode_rows(element, values, values.len(), base) is Some,
        encode_rows(element, values, k, base) is Some,
        before.len() == base,
        0 <= m < base + encode_rows(element, values, values.len(), base).unwrap().heap.len()
            + encode_rows(element, values, k, base).unwrap().stack.len(),
    ensures
        decode_rows(
            element,
            (before + encode_rows(element, values, values.len(), base).unwrap().heap
                + encode_rows(element, values, values.len(), base).unwrap().stack
                + rest).subrange(0, m),
            (base + encode_rows(element, values, values.len(), base).unwrap().heap.len()) as int,
            k,
        ) is Err,
    decreases k,
{
    let n = values.len();
    let whole = encode_rows(element, values, n, base).unwrap();
    let full = before + whole.heap + whole.stack + rest;
    let offset = (base + whole.heap.len()) as int;
    lemma_encode_rows_prefix(element, values, k, n, base);
    assert(m <= full.len());
    let short = full.subrange(0, m);
    assert(short.len() == m);
    if k > 0 {
        let j = (k - 1) as nat;
        lemma_encode_rows_prefix(element, values, j, n, base);
        lemma_rows_round_trip(element, values, j, base, before, rest);
        lemma_rows_shortened(element, full, offset, j, m);
        let prev = encode_rows(element, values, j, base).unwrap();
        let now = encode_rows(element, values, k, base).unwrap();
        let value = values[k - 1];
        let own = encode_row(element, value, base + prev.heap.len()).unwrap();
        let inner = element.encode(value, base + prev.heap.len()).unwrap();
        let at = offset + prev.stack.len();
        assert(now.stack == prev.stack + own.stack);
        assert(decode_rows(element, full, offset, j) == Ok::<
            (Seq<ValueView>, int),
            DeserializeError,
        >((values.subrange(0, j as int), at)));
        if decode_rows(element, short, offset, j) is Ok {
            assert(decode_rows(element, short, offset, j) == decode_rows(element, full, offset, j));
            if m < at {
                lemma_rows_cut(element, values, j, base, before, rest, m);
            } else {
                let tail = whole.stack.skip(now.stack.len() as int);
                lemma_split(whole.stack, now.stack.len() as int);
                assert(whole.stack == prev.stack + own.stack + tail);
                if element.fixed_size() is Some {
                    lemma_sound(element, value, base + prev.heap.len());
                    assert(own.stack.len() == element.fixed_size().unwrap());
                    assert(at + own.stack.len() > m);
                    assert(row_at(element, short, at) is Err);
                } else {
                    let len = inner.stack.len();
                    assert(own.stack == word(len) + inner.stack);
                    lemma_word_round_trip(len);
                    assert(at + 4 + len > m);
                    if at + 4 <= m {
                        assert(full.subrange(at, at + 4) == word(len)) by {
                            lemma_window(
                                before + whole.heap + prev.stack,
                                word(len),
                                inner.stack + tail + rest,
                            );
                            assert(full =~= (before + whole.heap + prev.stack) + word(len) + (
                            inner.stack + tail + rest));
                        }
                        assert(short.subrange(at, at + 4) =~= full.subrange(at, at + 4));
                    }
                    assert(row_at(element, short, at) is Err);
                }
            }
        }
    } else {
        assert(m < offset);
    }
}

/// A value cannot be read back where the trailing lane ends before the end of what the
/// value appended to it.
pub proof fn lemma_cut(
    formula: Formula,
    value: ValueView,
    base: nat,
    before: Seq<u8>,
    rest: Seq<u8>,
    m: int,
)
    requires
        formula.valid(),
        formula.admits(value),
        formula.encode(value, base) is Some,
        before.len() == base,
        formula.encode(value, base).unwrap().heap.len() > 0,
        0 <= m < base + formula.encode(value, base).unwrap().heap.len(),
    ensures
        formula.decode(
            formula.encode(value, base).unwrap().stack,
            (before + formula.encode(value, base).unwrap().heap + rest).subrange(0, m),
        ) is Err,
    decreases formula, 0nat,
{
    let written = formula.encode(value, base).unwrap();
    let full = before + written.heap + rest;
    match formula {
        Formula::Primitive(_) => {},
        Formula::Bytes => {},
        Formula::Struct(fields) => {
            let values = value->Struct_0;
            assert(fields_admit(fields@, values));
            lemma_fields_cut(fields@, values, fields@.len(), base, before, rest, m);
        },
        Formula::Enum(variants) => {
            let tag = value->Variant_0;
            let values = value->Variant_1;
            let fields = variants@[tag as int]@;
            let body = encode_fields(fields, values, fields.len(), base).unwrap();
            assert(fields_valid(variants@[tag as int]@));
            assert(fields_admit(fields, values));
            lemma_word_round_trip(tag);
            assert(written.stack.subrange(0, 4) =~= word(tag));
            assert(written.stack.skip(4) =~= body.stack);
            lemma_fields_cut(fields, values, fields.len(), base, before, rest, m);
        },
        Formula::Sequence(element) => {
            let values = value->Sequence_0;
            let n = values.len();
            let rows = encode_rows(*element, values, n, base).unwrap();
            let offset = base + rows.heap.len();
            assert(sequence_lanes(*element, values, base) == Some(written));
            lemma_word_round_trip(n);
            lemma_word_round_trip(offset);
            assert(written.stack.subrange(0, 4) =~= word(n));
            assert(written.stack.subrange(4, 8) =~= word(offset));
            assert(full =~= before + rows.heap + rows.stack + rest);
            lemma_rows_cut(*element, values, n, base, before, rest, m);
        },
    }
}

/// A truncated encoding is refused: where the bytes that writing a value alone gave are
/// cut off anywhere behind the inline lane, the value cannot be read from what is left.
/// (Where they are cut off within the inline lane, fewer bytes are left than the inline
/// lane has, and `deserialize` refuses them as out of bounds.)
pub proof fn lemma_truncation_is_refused(formula: Formula, value: ValueView, cut: int)
    requires
        formula.valid(),
        formula.admits(value),
        formula.encode(value, 0) is Some,
        formula.encode(value, 0).unwrap().stack.len() <= cut < formula.encode(
            value,
            0,
        ).unwrap().stack.len() + formula.encode(value, 0).unwrap().heap.len(),
    ensures
        ({
            let written = formula.encode(value, 0).unwrap();
            let left = (written.stack + written.heap).subrange(0, cut);
            formula.decode(
                left.subrange(0, written.stack.len() as int),
                left.skip(written.stack.len() as int),
            ) is Err
        }),
{
    let written = formula.encode(value, 0).unwrap();
    let left = (written.stack + written.heap).subrange(0, cut);
    let m = cut - written.stack.len();
    lemma_cut(formula, value, 0, Seq::empty(), Seq::empty(), m);
    assert(left.subrange(0, written.stack.len() as int) =~= written.stack);
    assert(left.skip(written.stack.len() as int) =~= (Seq::<u8>::empty() + written.heap
        + Seq::<u8>::empty()).subrange(0, m));
}

} // verus!
