//! Reading what was written gives back the value.

use vstd::prelude::*;
use crate::formula::{fields_valid, Formula, Primitive};
use crate::le::{
    le_bytes, le_value, lemma_le_bytes_len, lemma_le_value_of_bytes, lemma_span_positive,
    lemma_span_values, span,
};
use crate::soundness::lemma_sound;
use crate::value::ValueView;
use crate::error::DeserializeError;
use crate::wire::{
    decode_fields, decode_rows, encode_fields, encode_row, encode_rows, encode_slot, field_at,
    fields_admit, row_at, word,
};

verus! {

broadcast use vstd::std_specs::vec::group_vec_axioms;

/// A portable size read back is the size that was written.
pub proof fn lemma_word_round_trip(n: nat)
    requires
        n <= u32::MAX,
    ensures
        word(n).len() == 4,
        le_value(word(n)) == n,
{
    lemma_span_values();
    lemma_le_bytes_len(n, 4);
    lemma_le_value_of_bytes(n, 4);
}

/// A scalar read back is the scalar that was written.
pub proof fn lemma_primitive_round_trip(p: Primitive, value: ValueView)
    requires
        p.admits(value),
    ensures
        le_bytes(p.image(value), p.spec_width() as nat).len() == p.spec_width(),
        p.value_of(le_value(le_bytes(p.image(value), p.spec_width() as nat))) == value,
{
    let w = p.spec_width() as nat;
    lemma_span_positive((w - 1) as nat);
    assert(span(w) == 256 * span((w - 1) as nat));
    assert(span(w) / 2 == 128 * span((w - 1) as nat));
    lemma_le_bytes_len(p.image(value), w);
    lemma_le_value_of_bytes(p.image(value), w);
}

/// The middle of three pieces is found where the first one ends.
pub proof fn lemma_window(a: Seq<u8>, b: Seq<u8>, c: Seq<u8>)
    ensures
        (a + b + c).subrange(a.len() as int, (a.len() + b.len()) as int) == b,
        (a + b + c).len() == a.len() + b.len() + c.len(),
{
    assert((a + b + c).subrange(a.len() as int, (a.len() + b.len()) as int) =~= b);
}

/// A sequence is its first `n` items followed by the others.
pub proof fn lemma_split(whole: Seq<u8>, n: int)
    requires
        0 <= n <= whole.len(),
    ensures
        whole == whole.subrange(0, n) + whole.skip(n),
{
    assert(whole =~= whole.subrange(0, n) + whole.skip(n));
}

/// Fewer fields give a prefix of both lanes.
pub proof fn lemma_encode_fields_prefix(
    fields: Seq<Formula>,
    values: Seq<ValueView>,
    j: nat,
    k: nat,
    base: nat,
)
    requires
        j <= k,
        encode_fields(fields, values, k, base) is Some,
    ensures
        encode_fields(fields, values, j, base) is Some,
        encode_fields(fields, values, j, base).unwrap().stack.len() <= encode_fields(
            fields,
            values,
            k,
            base,
        ).unwrap().stack.len(),
        encode_fields(fields, values, j, base).unwrap().heap.len() <= encode_fields(
            fields,
            values,
            k,
            base,
        ).unwrap().heap.len(),
        encode_fields(fields, values, k, base).unwrap().stack.subrange(
            0,
            encode_fields(fields, values, j, base).unwrap().stack.len() as int,
        ) == encode_fields(fields, values, j, base).unwrap().stack,
        encode_fields(fields, values, k, base).unwrap().heap.subrange(
            0,
            encode_fields(fields, values, j, base).unwrap().heap.len() as int,
        ) == encode_fields(fields, values, j, base).unwrap().heap,
    decreases k,
{
    let whole = encode_fields(fields, values, k, base).unwrap();
    if j < k {
        lemma_encode_fields_prefix(fields, values, j, (k - 1) as nat, base);
        let part = encode_fields(fields, values, j, base).unwrap();
        let before = encode_fields(fields, values, (k - 1) as nat, base).unwrap();
        assert(before.stack =~= whole.stack.subrange(0, before.stack.len() as int));
        assert(before.heap =~= whole.heap.subrange(0, before.heap.len() as int));
        assert(whole.stack.subrange(0, part.stack.len() as int) =~= before.stack.subrange(
            0,
            part.stack.len() as int,
        ));
        assert(whole.heap.subrange(0, part.heap.len() as int) =~= before.heap.subrange(
            0,
            part.heap.len() as int,
        ));
    } else {
        assert(whole.stack.subrange(0, whole.stack.len() as int) =~= whole.stack);
        assert(whole.heap.subrange(0, whole.heap.len() as int) =~= whole.heap);
    }
}

/// Fewer elements give a prefix of both lanes.
pub proof fn lemma_encode_rows_prefix(
    element: Formula,
    values: Seq<ValueView>,
    j: nat,
    k: nat,
    base: nat,
)
    requires
        j <= k,
        encode_rows(element, values, k, base) is Some,
    ensures
        encode_rows(element, values, j, base) is Some,
        encode_rows(element, values, j, base).unwrap().stack.len() <= encode_rows(
            element,
            values,
            k,
            base,
        ).unwrap().stack.len(),
        encode_rows(element, values, j, base).unwrap().heap.len() <= encode_rows(
            element,
            values,
            k,
            base,
        ).unwrap().heap.len(),
        encode_rows(element, values, k, base).unwrap().stack.subrange(
            0,
            encode_rows(element, values, j, base).unwrap().stack.len() as int,
        ) == encode_rows(element, values, j, base).unwrap().stack,
        encode_rows(element, values, k, base).unwrap().heap.subrange(
            0,
            encode_rows(element, values, j, base).unwrap().heap.len() as int,
        ) == encode_rows(element, values, j, base).unwrap().heap,
    decreases k,
{
    let whole = encode_rows(element, values, k, base).unwrap();
    if j < k {
        lemma_encode_rows_prefix(element, values, j, (k - 1) as nat, base);
        let part = encode_rows(element, values, j, base).unwrap();
        let before = encode_rows(element, values, (k - 1) as nat, base).unwrap();
        assert(before.stack =~= whole.stack.subrange(0, before.stack.len() as int));
        assert(before.heap =~= whole.heap.subrange(0, before.heap.len() as int));
        assert(whole.stack.subrange(0, part.stack.len() as int) =~= before.stack.subrange(
            0,
            part.stack.len() as int,
        ));
        assert(whole.heap.subrange(0, part.heap.len() as int) =~= before.heap.subrange(
            0,
            part.heap.len() as int,
        ));
    } else {
        assert(whole.stack.subrange(0, whole.stack.len() as int) =~= whole.stack);
        assert(whole.heap.subrange(0, whole.heap.len() as int) =~= whole.heap);
    }
}

/// One field read back where it was written is the value that was written.
pub proof fn lemma_slot_round_trip(
    field: Formula,
    last: bool,
    value: ValueView,
    base: nat,
    front: Seq<u8>,
    back: Seq<u8>,
    before: Seq<u8>,
    after: Seq<u8>,
)
    requires
        field.valid(),
        field.admits(value),
        encode_slot(field, last, value, base) is Some,
        before.len() == base,
        last ==> back.len() == 0,
    ensures
        field_at(
            field,
            last,
            front + encode_slot(field, last, value, base).unwrap().stack + back,
            before + encode_slot(field, last, value, base).unwrap().heap + after,
            front.len() as int,
        ) == Ok::<(ValueView, int), DeserializeError>(
            (
                value,
                (front.len() + encode_slot(field, last, value, base).unwrap().stack.len()) as int,
            ),
        ),
    decreases field, 1nat,
{
    let own = encode_slot(field, last, value, base).unwrap();
    let inner = field.encode(value, base).unwrap();
    let stack = front + own.stack + back;
    let heap = before + own.heap + after;
    let at = front.len() as int;
    if last || field.fixed_size() is Some {
        lemma_round_trip(field, value, base, before, after);
        if last {
            assert(stack.skip(at) =~= inner.stack);
        } else {
            lemma_sound(field, value, base);
            lemma_window(front, inner.stack, back);
        }
    } else {
        let len = inner.stack.len();
        let offset = base + inner.heap.len();
        lemma_word_round_trip(len);
        lemma_word_round_trip(offset);
        assert(stack.subrange(at, at + 4) == word(len)) by {
            lemma_window(front, word(len), word(offset) + back);
            assert(stack =~= front + word(len) + (word(offset) + back));
        }
        assert(stack.subrange(at + 4, at + 8) == word(offset)) by {
            lemma_window(front + word(len), word(offset), back);
            assert(stack =~= (front + word(len)) + word(offset) + back);
        }
        lemma_round_trip(field, value, base, before, inner.stack + after);
        assert(heap == before + inner.heap + (inner.stack + after)) by {
            assert(heap =~= before + inner.heap + (inner.stack + after));
        }
        assert(heap.subrange(offset as int, offset as int + len) == inner.stack) by {
            lemma_window(before + inner.heap, inner.stack, after);
            assert(heap =~= (before + inner.heap) + inner.stack + after);
        }
    }
}

/// One element read back where its row was written is the value that was written.
pub proof fn lemma_row_round_trip(
    element: Formula,
    value: ValueView,
    base: nat,
    before: Seq<u8>,
    middle: Seq<u8>,
    after: Seq<u8>,
)
    requires
        element.valid(),
        element.admits(value),
        encode_row(element, value, base) is Some,
        before.len() == base,
    ensures
        row_at(
            element,
            before + encode_row(element, value, base).unwrap().heap + middle + encode_row(
                element,
                value,
                base,
            ).unwrap().stack + after,
            (base + encode_row(element, value, base).unwrap().heap.len() + middle.len()) as int,
        ) == Ok::<(ValueView, int), DeserializeError>(
            (
                value,
                (base + encode_row(element, value, base).unwrap().heap.len() + middle.len()
                    + encode_row(element, value, base).unwrap().stack.len()) as int,
            ),
        ),
    decreases element, 1nat,
{
    let own = encode_row(element, value, base).unwrap();
    let inner = element.encode(value, base).unwrap();
    let heap = before + own.heap + middle + own.stack + after;
    let at = (base + own.heap.len() + middle.len()) as int;
    lemma_round_trip(element, value, base, before, middle + own.stack + after);
    assert(heap == before + inner.heap + (middle + own.stack + after)) by {
        assert(heap =~= before + inner.heap + (middle + own.stack + after));
    }
    if element.fixed_size() is Some {
        lemma_sound(element, value, base);
        assert(heap.subrange(at, at + inner.stack.len()) == inner.stack) by {
            lemma_window(before + own.heap + middle, inner.stack, after);
        }
    } else {
        let len = inner.stack.len();
        lemma_word_round_trip(len);
        assert(heap.subrange(at, at + 4) == word(len)) by {
            lemma_window(before + own.heap + middle, word(len), inner.stack + after);
            assert(heap =~= (before + own.heap + middle) + word(len) + (inner.stack + after));
        }
        assert(heap.subrange(at + 4, at + 4 + len) == inner.stack) by {
            lemma_window(before + own.heap + middle + word(len), inner.stack, after);
            assert(heap =~= (before + own.heap + middle + word(len)) + inner.stack + after);
        }
    }
}

/// The first `k` fields read back from the whole aggregate are the first `k` values.
pub proof fn lemma_fields_round_trip(
    fields: Seq<Formula>,
    values: Seq<ValueView>,
    k: nat,
    base: nat,
    before: Seq<u8>,
    after: Seq<u8>,
)
    requires
        fields_valid(fields),
        fields_admit(fields, values),
        k <= fields.len(),
        encode_fields(fields, values, fields.len(), base) is Some,
        before.len() == base,
    ensures
        encode_fields(fields, values, k, base) is Some,
        decode_fields(
            fields,
            encode_fields(fields, values, fields.len(), base).unwrap().stack,
            before + encode_fields(fields, values, fields.len(), base).unwrap().heap + after,
            k,
        ) == Ok::<(Seq<ValueView>, int), DeserializeError>(
            (
                values.subrange(0, k as int),
                encode_fields(fields, values, k, base).unwrap().stack.len() as int,
            ),
        ),
    decreases fields, k,
{
    let n = fields.len();
    let whole = encode_fields(fields, values, n, base).unwrap();
    let heap = before + whole.heap + after;
    lemma_encode_fields_prefix(fields, values, k, n, base);
    if k == 0 {
        assert(values.subrange(0, 0) =~= Seq::<ValueView>::empty());
    } else {
        let j = (k - 1) as nat;
        lemma_fields_round_trip(fields, values, j, base, before, after);
        lemma_encode_fields_prefix(fields, values, j, n, base);
        let prev = encode_fields(fields, values, j, base).unwrap();
        let now = encode_fields(fields, values, k, base).unwrap();
        let field = fields[k - 1];
        let value = values[k - 1];
        let own = encode_slot(field, k == n, value, base + prev.heap.len()).unwrap();
        assert(field.valid());
        assert(field.admits(value));
        let rest = whole.heap.skip(now.heap.len() as int);
        let tail = whole.stack.skip(now.stack.len() as int);
        lemma_split(whole.heap, now.heap.len() as int);
        lemma_split(whole.stack, now.stack.len() as int);
        assert(now.stack == prev.stack + own.stack);
        assert(now.heap == prev.heap + own.heap);
        assert(whole.stack == prev.stack + own.stack + tail);
        assert(heap == (before + prev.heap) + own.heap + (rest + after)) by {
            assert(heap =~= (before + prev.heap) + own.heap + (rest + after));
        }
        assert(values.subrange(0, j as int).push(value) =~= values.subrange(0, k as int));
        lemma_slot_round_trip(
            field,
            k == n,
            value,
            base + prev.heap.len(),
            prev.stack,
            tail,
            before + prev.heap,
            rest + after,
        );
    }
}

/// The first `k` elements read back from the whole sequence are the first `k` values.
pub proof fn lemma_rows_round_trip(
    element: Formula,
    values: Seq<ValueView>,
    k: nat,
    base: nat,
    before: Seq<u8>,
    after: Seq<u8>,
)
    requires
        element.valid(),
        forall|i: int| 0 <= i < values.len() ==> element.admits(#[trigger] values[i]),
        k <= values.len(),
        encode_rows(element, values, values.len(), base) is Some,
        before.len() == base,
    ensures
        encode_rows(element, values, k, base) is Some,
        decode_rows(
            element,
            before + encode_rows(element, values, values.len(), base).unwrap().heap
                + encode_rows(element, values, values.len(), base).unwrap().stack + after,
            (base + encode_rows(element, values, values.len(), base).unwrap().heap.len()) as int,
            k,
        ) == Ok::<(Seq<ValueView>, int), DeserializeError>(
            (
                values.subrange(0, k as int),
                (base + encode_rows(element, values, values.len(), base).unwrap().heap.len()
                    + encode_rows(element, values, k, base).unwrap().stack.len()) as int,
            ),
        ),
    decreases element, k + 2,
{
    let n = values.len();
    let whole = encode_rows(element, values, n, base).unwrap();
    let heap = before + whole.heap + whole.stack + after;
    lemma_encode_rows_prefix(element, values, k, n, base);
    if k == 0 {
        assert(values.subrange(0, 0) =~= Seq::<ValueView>::empty());
    } else {
        let j = (k - 1) as nat;
        lemma_rows_round_trip(element, values, j, base, before, after);
        lemma_encode_rows_prefix(element, values, j, n, base);
        let prev = encode_rows(element, values, j, base).unwrap();
        let now = encode_rows(element, values, k, base).unwrap();
        let value = values[k - 1];
        let own = encode_row(element, value, base + prev.heap.len()).unwrap();
        let rest = whole.heap.skip(now.heap.len() as int);
        let tail = whole.stack.skip(now.stack.len() as int);
        lemma_split(whole.heap, now.heap.len() as int);
        lemma_split(whole.stack, now.stack.len() as int);
        assert(now.stack == prev.stack + own.stack);
        assert(now.heap == prev.heap + own.heap);
        assert(heap == (before + prev.heap) + own.heap + (rest + prev.stack) + own.stack + (tail
            + after)) by {
            assert(heap =~= (before + prev.heap) + own.heap + (rest + prev.stack) + own.stack + (
            tail + after));
        }
        assert(values.subrange(0, j as int).push(value) =~= values.subrange(0, k as int));
        lemma_row_round_trip(
            element,
            value,
            base + prev.heap.len(),
            before + prev.heap,
            rest + prev.stack,
            tail + after,
        );
    }
}

/// Reading what was written gives the value back: for a formula that can be laid out
/// and a value that it admits, the inline lane that writing produces, read against a
/// trailing lane that holds what writing appended at the place where it was appended,
/// is that value.
pub proof fn lemma_round_trip(
    formula: Formula,
    value: ValueView,
    base: nat,
    before: Seq<u8>,
    after: Seq<u8>,
)
    requires
        formula.valid(),
        formula.admits(value),
        formula.encode(value, base) is Some,
        before.len() == base,
    ensures
        formula.decode(
            formula.encode(value, base).unwrap().stack,
            before + formula.encode(value, base).unwrap().heap + after,
        ) == Ok::<ValueView, DeserializeError>(value),
    decreases formula, 0nat,
{
    let written = formula.encode(value, base).unwrap();
    let heap = before + written.heap + after;
    match formula {
        Formula::Primitive(p) => {
            lemma_primitive_round_trip(p, value);
        },
        Formula::Bytes => {},
        Formula::Struct(fields) => {
            let values = value->Struct_0;
            let n = fields@.len();
            assert(fields_admit(fields@, values));
            assert(values.len() == n);
            lemma_fields_round_trip(fields@, values, n, base, before, after);
            assert(values.subrange(0, n as int) =~= values);
            if n == 0 {
                assert(values =~= Seq::<ValueView>::empty());
            }
        },
        Formula::Enum(variants) => {
            let tag = value->Variant_0;
            let values = value->Variant_1;
            let fields = variants@[tag as int]@;
            let n = fields.len();
            let body = encode_fields(fields, values, n, base).unwrap();
            assert(fields_valid(variants@[tag as int]@));
            assert(fields_admit(fields, values));
            assert(values.len() == n);
            lemma_word_round_trip(tag);
            lemma_fields_round_trip(fields, values, n, base, before, after);
            assert(written.stack.subrange(0, 4) =~= word(tag));
            assert(written.stack.skip(4) =~= body.stack);
            assert(values.subrange(0, n as int) =~= values);
            if n == 0 {
                assert(values =~= Seq::<ValueView>::empty());
            }
        },
        Formula::Sequence(element) => {
            let values = value->Sequence_0;
            let n = values.len();
            let rows = encode_rows(*element, values, n, base).unwrap();
            let offset = base + rows.heap.len();
            lemma_word_round_trip(n);
            lemma_word_round_trip(offset);
            lemma_rows_round_trip(*element, values, n, base, before, after);
            assert(written.stack.subrange(0, 4) =~= word(n));
            assert(written.stack.subrange(4, 8) =~= word(offset));
            assert(heap =~= before + rows.heap + rows.stack + after);
            assert(values.subrange(0, n as int) =~= values);
        },
    }
}

} // verus!
