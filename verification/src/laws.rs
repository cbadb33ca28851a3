//! What holds of every formula and every value that it admits.

use vstd::prelude::*;
use crate::error::DeserializeError;
use crate::formula::{fields_exact, fields_max, fields_valid, Formula};
use crate::le::lemma_le_bytes_len;
use crate::roundtrip::lemma_round_trip;
use crate::soundness::{lemma_sound, lemma_variants_exact_terms};
use crate::value::ValueView;
use crate::wire::{encode_fields, encode_slot, fields_admit};

verus! {

broadcast use vstd::std_specs::vec::group_vec_axioms;

/// A value that was written alone, read back from the inline lane followed by the
/// trailing lane, is the value that was written.
pub proof fn lemma_serialize_deserialize(formula: Formula, value: ValueView)
    requires
        formula.valid(),
        formula.admits(value),
        formula.encode(value, 0) is Some,
    ensures
        ({
            let written = formula.encode(value, 0).unwrap();
            let bytes = written.stack + written.heap;
            formula.decode(
                bytes.subrange(0, written.stack.len() as int),
                bytes.skip(written.stack.len() as int),
            ) == Ok::<ValueView, DeserializeError>(value)
        }),
{
    let written = formula.encode(value, 0).unwrap();
    let bytes = written.stack + written.heap;
    lemma_round_trip(formula, value, 0, Seq::empty(), Seq::empty());
    assert(bytes.subrange(0, written.stack.len() as int) =~= written.stack);
    assert(bytes.skip(written.stack.len() as int) =~= Seq::<u8>::empty() + written.heap
        + Seq::<u8>::empty());
}

/// Every encoding of an exact formula with a bound fills the bound.
pub proof fn lemma_exact_size(formula: Formula, value: ValueView, base: nat)
    requires
        formula.valid(),
        formula.admits(value),
        formula.encode(value, base) is Some,
        formula.exact_size(),
        formula.max_stack_size() is Some,
    ensures
        formula.encode(value, base).unwrap().stack.len() == formula.max_stack_size().unwrap(),
{
    lemma_sound(formula, value, base);
}

/// The first `k` fields of an aggregate occupy the same number of bytes in the inline
/// lane whatever their values, as long as the last field is not among them or is exact.
pub proof fn lemma_fields_occupy_alike(
    fields: Seq<Formula>,
    first: Seq<ValueView>,
    second: Seq<ValueView>,
    k: nat,
    first_base: nat,
    second_base: nat,
)
    requires
        fields_valid(fields),
        fields_admit(fields, first),
        fields_admit(fields, second),
        k <= fields.len(),
        k == fields.len() ==> fields_exact(fields),
        encode_fields(fields, first, k, first_base) is Some,
        encode_fields(fields, second, k, second_base) is Some,
    ensures
        encode_fields(fields, first, k, first_base).unwrap().stack.len() == encode_fields(
            fields,
            second,
            k,
            second_base,
        ).unwrap().stack.len(),
    decreases fields, k,
{
    if k > 0 {
        let j = (k - 1) as nat;
        let one = encode_fields(fields, first, j, first_base).unwrap();
        let two = encode_fields(fields, second, j, second_base).unwrap();
        lemma_fields_occupy_alike(fields, first, second, j, first_base, second_base);
        let field = fields[k - 1];
        assert(field.valid());
        assert(field.admits(first[k - 1]));
        assert(field.admits(second[k - 1]));
        let last = k == fields.len();
        assert(encode_slot(field, last, first[k - 1], first_base + one.heap.len()) is Some);
        assert(encode_slot(field, last, second[k - 1], second_base + two.heap.len()) is Some);
        if last {
            assert(fields.last() == field);
            lemma_exact_occupies_alike(
                field,
                first[k - 1],
                second[k - 1],
                first_base + one.heap.len(),
                second_base + two.heap.len(),
            );
        } else if field.fixed_size() is Some {
            lemma_sound(field, first[k - 1], first_base + one.heap.len());
            lemma_sound(field, second[k - 1], second_base + two.heap.len());
        } else {
            lemma_le_bytes_len(
                field.encode(first[k - 1], first_base + one.heap.len()).unwrap().stack.len(),
                4,
            );
            lemma_le_bytes_len(
                field.encode(second[k - 1], second_base + two.heap.len()).unwrap().stack.len(),
                4,
            );
            lemma_le_bytes_len(
                first_base + one.heap.len() + field.encode(
                    first[k - 1],
                    first_base + one.heap.len(),
                ).unwrap().heap.len(),
                4,
            );
            lemma_le_bytes_len(
                second_base + two.heap.len() + field.encode(
                    second[k - 1],
                    second_base + two.heap.len(),
                ).unwrap().heap.len(),
                4,
            );
        }
    }
}

/// Two values of an exact formula occupy the same number of bytes in the inline lane,
/// whether the formula has a bound or not.
pub proof fn lemma_exact_occupies_alike(
    formula: Formula,
    first: ValueView,
    second: ValueView,
    first_base: nat,
    second_base: nat,
)
    requires
        formula.valid(),
        formula.exact_size(),
        formula.admits(first),
        formula.admits(second),
        formula.encode(first, first_base) is Some,
        formula.encode(second, second_base) is Some,
    ensures
        formula.encode(first, first_base).unwrap().stack.len() == formula.encode(
            second,
            second_base,
        ).unwrap().stack.len(),
    decreases formula, 0nat,
{
    match formula {
        Formula::Struct(fields) => {
            lemma_fields_occupy_alike(
                fields@,
                first->Struct_0,
                second->Struct_0,
                fields@.len(),
                first_base,
                second_base,
            );
        },
        Formula::Enum(variants) => {
            lemma_exact_variants_encode_alike(variants, first, second, first_base, second_base);
        },
        _ => {
            lemma_sound(formula, first, first_base);
            lemma_sound(formula, second, second_base);
        },
    }
}

/// No encoding of a heapless formula writes to the trailing lane.
pub proof fn lemma_heapless(formula: Formula, value: ValueView, base: nat)
    requires
        formula.valid(),
        formula.admits(value),
        formula.encode(value, base) is Some,
        formula.heapless(),
    ensures
        formula.encode(value, base).unwrap().heap.len() == 0,
{
    lemma_sound(formula, value, base);
}

/// The variants of an exact sum type have one and the same bounded size.
pub proof fn lemma_exact_variants(variants: Vec<Vec<Formula>>, i: int, j: int)
    requires
        Formula::Enum(variants).exact_size(),
        0 <= i < variants@.len(),
        0 <= j < variants@.len(),
    ensures
        fields_max(variants@[i]@, variants@[i]@.len()) is Some,
        fields_max(variants@[i]@, variants@[i]@.len()) == fields_max(
            variants@[j]@,
            variants@[j]@.len(),
        ),
{
    lemma_variants_exact_terms(variants@, variants@.len());
}

/// Two values of an exact sum type, whatever their variants, occupy the same number of
/// bytes in the inline lane, discriminant included.
pub proof fn lemma_exact_variants_encode_alike(
    variants: Vec<Vec<Formula>>,
    first: ValueView,
    second: ValueView,
    first_base: nat,
    second_base: nat,
)
    requires
        Formula::Enum(variants).valid(),
        Formula::Enum(variants).exact_size(),
        Formula::Enum(variants).admits(first),
        Formula::Enum(variants).admits(second),
        Formula::Enum(variants).encode(first, first_base) is Some,
        Formula::Enum(variants).encode(second, second_base) is Some,
    ensures
        Formula::Enum(variants).encode(first, first_base).unwrap().stack.len() == Formula::Enum(
            variants,
        ).encode(second, second_base).unwrap().stack.len(),
{
    let formula = Formula::Enum(variants);
    lemma_variants_exact_terms(variants@, variants@.len());
    lemma_sound(formula, first, first_base);
    lemma_sound(formula, second, second_base);
}

/// A sequence of more elements than the portable width counts is not written.
pub proof fn lemma_long_sequence_overflows(element: Formula, values: Seq<ValueView>, base: nat)
    requires
        values.len() > u32::MAX,
    ensures
        Formula::Sequence(Box::new(element)).encode(ValueView::Sequence(values), base) is None,
{
}

/// A field that stands in the trailing lane is not written where its length or its
/// offset does not fit the portable width.
pub proof fn lemma_far_reference_overflows(field: Formula, value: ValueView, base: nat)
    requires
        field.fixed_size() is None,
        field.encode(value, base) is Some,
        field.encode(value, base).unwrap().stack.len() > u32::MAX || base + field.encode(
            value,
            base,
        ).unwrap().heap.len() > u32::MAX,
    ensures
        encode_slot(field, false, value, base) is None,
{
}

} // verus!
