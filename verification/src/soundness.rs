//! The facts of a formula hold of every encoding.

use vstd::prelude::*;
use crate::formula::{
    fields_exact, fields_heapless, fields_max, fields_valid, variants_exact, variants_heapless,
    variants_max, Formula,
};
use crate::le::lemma_le_bytes_len;
use crate::value::ValueView;
use crate::wire::{encode_fields, encode_row, encode_rows, encode_slot, fields_admit};

verus! {

broadcast use vstd::std_specs::vec::group_vec_axioms;

/// A bounded sum has bounded terms, and grows with each of them.
pub proof fn lemma_fields_max_terms(fields: Seq<Formula>, k: nat)
    requires
        k <= fields.len(),
        fields_max(fields, k) is Some,
    ensures
        forall|i: int| 0 <= i < k ==> (#[trigger] fields[i]).max_stack_size() is Some,
        forall|j: nat|
            j <= k ==> (#[trigger] fields_max(fields, j)) is Some && fields_max(fields, j).unwrap()
                <= fields_max(fields, k).unwrap(),
    decreases k,
{
    if k > 0 {
        lemma_fields_max_terms(fields, (k - 1) as nat);
    }
}

/// A bounded maximum bounds every variant.
pub proof fn lemma_variants_max_terms(variants: Seq<Vec<Formula>>, k: nat)
    requires
        k <= variants.len(),
        variants_max(variants, k) is Some,
    ensures
        forall|j: int|
            0 <= j < k ==> {
                &&& fields_max((#[trigger] variants[j])@, variants[j]@.len()) is Some
                &&& fields_max(variants[j]@, variants[j]@.len()).unwrap() <= variants_max(
                    variants,
                    k,
                ).unwrap()
            },
    decreases k,
{
    if k > 0 {
        lemma_variants_max_terms(variants, (k - 1) as nat);
    }
}

/// Bounded variants have a bounded maximum.
pub proof fn lemma_variants_max_bounded(variants: Seq<Vec<Formula>>, k: nat)
    requires
        k <= variants.len(),
        forall|j: int|
            0 <= j < k ==> fields_max((#[trigger] variants[j])@, variants[j]@.len()) is Some,
    ensures
        variants_max(variants, k) is Some,
    decreases k,
{
    if k > 0 {
        lemma_variants_max_bounded(variants, (k - 1) as nat);
        assert(fields_max(variants[k - 1]@, variants[k - 1]@.len()) is Some);
    }
}

/// An exact sum type has exact variants of one bounded size, which is also its maximum.
pub proof fn lemma_variants_exact_terms(variants: Seq<Vec<Formula>>, k: nat)
    requires
        k <= variants.len(),
        variants_exact(variants, k),
    ensures
        forall|j: int|
            0 <= j < k ==> {
                &&& fields_exact((#[trigger] variants[j])@)
                &&& fields_max(variants[j]@, variants[j]@.len()) is Some
                &&& fields_max(variants[j]@, variants[j]@.len()) == fields_max(
                    variants[0]@,
                    variants[0]@.len(),
                )
            },
        k > 0 ==> variants_max(variants, k) == fields_max(variants[0]@, variants[0]@.len()),
    decreases k,
{
    if k > 0 {
        lemma_variants_exact_terms(variants, (k - 1) as nat);
    }
}

/// No field of heapless variants writes to the trailing lane.
pub proof fn lemma_variants_heapless_terms(variants: Seq<Vec<Formula>>, k: nat)
    requires
        k <= variants.len(),
        variants_heapless(variants, k),
    ensures
        forall|j: int|
            0 <= j < k ==> fields_heapless((#[trigger] variants[j])@, variants[j]@.len()),
    decreases k,
{
    if k > 0 {
        lemma_variants_heapless_terms(variants, (k - 1) as nat);
    }
}

/// A formula of no width is exact.
pub proof fn lemma_zero_is_exact(formula: Formula)
    requires
        formula.max_stack_size() == Some(0usize),
    ensures
        formula.exact_size(),
    decreases formula,
{
    match formula {
        Formula::Struct(fields) => {
            let n = fields@.len();
            if n > 0 {
                lemma_fields_max_terms(fields@, n);
                assert(fields_max(fields@, (n - 1) as nat) is Some);
                assert(fields@[n - 1].max_stack_size() == Some(0usize));
                lemma_zero_is_exact(fields@[n - 1]);
            }
        },
        _ => {},
    }
}

/// Heapless fields that can be laid out are bounded.
pub proof fn lemma_fields_heapless_bounded(fields: Seq<Formula>, k: nat)
    requires
        fields_valid(fields),
        k <= fields.len(),
        fields_heapless(fields, k),
    ensures
        forall|i: int|
            0 <= i < k ==> (#[trigger] fields[i]).heapless() && fields[i].max_stack_size() is Some,
    decreases fields, k,
{
    if k > 0 {
        lemma_fields_heapless_bounded(fields, (k - 1) as nat);
        lemma_heapless_bounded(fields[k - 1]);
    }
}

/// A heapless formula that can be laid out has a bounded inline lane.
pub proof fn lemma_heapless_bounded(formula: Formula)
    requires
        formula.valid(),
        formula.heapless(),
    ensures
        formula.max_stack_size() is Some,
    decreases formula, 0nat,
{
    match formula {
        Formula::Struct(fields) => {
            lemma_fields_heapless_bounded(fields@, fields@.len());
        },
        Formula::Enum(variants) => {
            lemma_variants_heapless_terms(variants@, variants@.len());
            assert forall|j: int| 0 <= j < variants@.len() implies fields_max(
                (#[trigger] variants@[j])@,
                variants@[j]@.len(),
            ) is Some by {
                lemma_fields_heapless_bounded(variants@[j]@, variants@[j]@.len());
            }
            lemma_variants_max_bounded(variants@, variants@.len());
        },
        _ => {},
    }
}

/// What the bound of the first `k` fields says of their encoding.
pub proof fn lemma_fields_sound(
    fields: Seq<Formula>,
    values: Seq<ValueView>,
    k: nat,
    base: nat,
)
    requires
        fields_valid(fields),
        fields_admit(fields, values),
        k <= fields.len(),
        encode_fields(fields, values, k, base) is Some,
        fields_max(fields, k) is Some,
    ensures
        encode_fields(fields, values, k, base).unwrap().heap.len() == 0,
        k < fields.len() ==> encode_fields(fields, values, k, base).unwrap().stack.len()
            == fields_max(fields, k).unwrap(),
        encode_fields(fields, values, k, base).unwrap().stack.len() <= fields_max(
            fields,
            k,
        ).unwrap(),
        k == fields.len() && fields_exact(fields) ==> encode_fields(
            fields,
            values,
            k,
            base,
        ).unwrap().stack.len() == fields_max(fields, k).unwrap(),
    decreases fields, k,
{
    if k > 0 {
        let j = (k - 1) as nat;
        lemma_fields_sound(fields, values, j, base);
        let before = encode_fields(fields, values, j, base).unwrap();
        let field = fields[k - 1];
        assert(field.valid());
        assert(field.admits(values[k - 1]));
        let own = encode_slot(field, k == fields.len(), values[k - 1], base + before.heap.len());
        assert(own is Some);
        assert(field.encode(values[k - 1], base + before.heap.len()) is Some);
        lemma_sound(field, values[k - 1], base + before.heap.len());
    }
}

/// The rows of elements of no width are empty.
pub proof fn lemma_rows_sound(element: Formula, values: Seq<ValueView>, k: nat, base: nat)
    requires
        element.valid(),
        element.max_stack_size() == Some(0usize),
        forall|i: int| 0 <= i < values.len() ==> element.admits(#[trigger] values[i]),
        k <= values.len(),
        encode_rows(element, values, k, base) is Some,
    ensures
        encode_rows(element, values, k, base).unwrap().stack.len() == 0,
        encode_rows(element, values, k, base).unwrap().heap.len() == 0,
    decreases element, k + 2,
{
    if k > 0 {
        lemma_rows_sound(element, values, (k - 1) as nat, base);
        lemma_zero_is_exact(element);
        let before = encode_rows(element, values, (k - 1) as nat, base).unwrap();
        let own = encode_row(element, values[k - 1], base + before.heap.len());
        assert(own is Some);
        assert(element.encode(values[k - 1], base + before.heap.len()) is Some);
        lemma_sound(element, values[k - 1], base + before.heap.len());
    }
}

/// What a formula's facts say of every encoding of a value that it admits: the inline
/// lane stays within the bound and a bounded formula leaves the trailing lane alone; an
/// exact formula fills the bound; a heapless one leaves the trailing lane alone.
pub proof fn lemma_sound(formula: Formula, value: ValueView, base: nat)
    requires
        formula.valid(),
        formula.admits(value),
        formula.encode(value, base) is Some,
    ensures
        formula.max_stack_size() is Some ==> {
            &&& formula.encode(value, base).unwrap().stack.len()
                <= formula.max_stack_size().unwrap()
            &&& formula.encode(value, base).unwrap().heap.len() == 0
        },
        formula.fixed_size() is Some ==> formula.encode(value, base).unwrap().stack.len()
            == formula.fixed_size().unwrap(),
        formula.heapless() ==> formula.encode(value, base).unwrap().heap.len() == 0,
    decreases formula, 0nat,
{
    if formula.heapless() {
        lemma_heapless_bounded(formula);
    }
    match formula {
        Formula::Primitive(p) => {
            lemma_le_bytes_len(p.image(value), p.spec_width() as nat);
        },
        Formula::Bytes => {},
        Formula::Struct(fields) => {
            if formula.max_stack_size() is Some {
                let values = value->Struct_0;
                lemma_fields_sound(fields@, values, fields@.len(), base);
            }
        },
        Formula::Enum(variants) => {
            if formula.max_stack_size() is Some {
                let tag = value->Variant_0;
                let values = value->Variant_1;
                let n = variants@.len();
                let fields = variants@[tag as int]@;
                lemma_variants_max_terms(variants@, n);
                assert(fields_valid(variants@[tag as int]@));
                lemma_fields_sound(fields, values, fields.len(), base);
                lemma_le_bytes_len(tag, 4);
                if formula.exact_size() {
                    lemma_variants_exact_terms(variants@, n);
                    assert(fields_exact(variants@[tag as int]@));
                }
            }
        },
        Formula::Sequence(element) => {
            if formula.max_stack_size() is Some {
                let values = value->Sequence_0;
                lemma_rows_sound(*element, values, values.len(), base);
                lemma_le_bytes_len(values.len(), 4);
                lemma_le_bytes_len(base, 4);
            }
        },
    }
}

} // verus!
