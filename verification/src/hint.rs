//! The sizes of an encoding, where they are known without writing it.

use vstd::prelude::*;
use crate::buffer::Sizes;
use crate::formula::{Formula, REFERENCE};
use crate::schema::Schema;
use crate::soundness::lemma_sound;
use crate::value::{views, Value, ValueView};
use crate::wire::{encode_row, encode_rows};

verus! {

broadcast use vstd::std_specs::vec::group_vec_axioms;

/// The lanes that `count` elements of a fixed size that leave the trailing lane alone
/// occupy as a sequence; `None` for any other element.
pub open spec fn slice_hint(element: Formula, count: nat) -> Option<(nat, nat)> {
    if element.heapless() && element.fixed_size() is Some {
        Some((REFERENCE as nat, count * (element.fixed_size().unwrap() as nat)))
    } else {
        None
    }
}

/// The lanes that `value` occupies, where that is known without writing it: for a
/// heapless formula of fixed size, for raw bytes, and for a sequence of elements of a
/// fixed size that leave the trailing lane alone.
pub open spec fn size_hinted(formula: Formula, value: ValueView) -> Option<(nat, nat)> {
    if formula.heapless() && formula.fixed_size() is Some {
        Some((formula.fixed_size().unwrap() as nat, 0nat))
    } else {
        match (formula, value) {
            (Formula::Bytes, ValueView::Bytes(bytes)) => Some((bytes.len(), 0nat)),
            (Formula::Sequence(element), ValueView::Sequence(values)) => slice_hint(
                *element,
                values.len(),
            ),
            _ => None,
        }
    }
}

/// The rows of elements of a fixed size that leave the trailing lane alone are as many
/// times that size, and nothing else is appended.
pub proof fn lemma_fixed_rows(element: Formula, values: Seq<ValueView>, k: nat, base: nat)
    requires
        element.valid(),
        element.heapless(),
        element.fixed_size() is Some,
        forall|i: int| 0 <= i < values.len() ==> element.admits(#[trigger] values[i]),
        k <= values.len(),
        encode_rows(element, values, k, base) is Some,
    ensures
        encode_rows(element, values, k, base).unwrap().stack.len() == k * (
        element.fixed_size().unwrap() as nat),
        encode_rows(element, values, k, base).unwrap().heap.len() == 0,
    decreases k,
{
    let size = element.fixed_size().unwrap() as nat;
    if k > 0 {
        let j = (k - 1) as nat;
        lemma_fixed_rows(element, values, j, base);
        let before = encode_rows(element, values, j, base).unwrap();
        let own = encode_row(element, values[k - 1], base + before.heap.len());
        assert(own is Some);
        assert(element.encode(values[k - 1], base + before.heap.len()) is Some);
        lemma_sound(element, values[k - 1], base + before.heap.len());
        assert(k * size == j * size + size) by (nonlinear_arith)
            requires
                k == j + 1,
        ;
    } else {
        assert(0 * size == 0);
    }
}

/// A hint is exact: a value that is written occupies the lanes that were hinted.
pub proof fn lemma_hint_is_exact(formula: Formula, value: ValueView, base: nat)
    requires
        formula.valid(),
        formula.admits(value),
        formula.encode(value, base) is Some,
        size_hinted(formula, value) is Some,
    ensures
        formula.encode(value, base).unwrap().stack.len() == size_hinted(formula, value).unwrap().0,
        formula.encode(value, base).unwrap().heap.len() == size_hinted(formula, value).unwrap().1,
{
    if formula.heapless() && formula.fixed_size() is Some {
        lemma_sound(formula, value, base);
    } else {
        match formula {
            Formula::Sequence(element) => {
                let values = value->Sequence_0;
                lemma_fixed_rows(*element, values, values.len(), base);
                crate::le::lemma_le_bytes_len(values.len(), 4);
                crate::le::lemma_le_bytes_len(base, 4);
            },
            _ => {},
        }
    }
}

/// The lanes that a sequence of `count` elements occupies, where `slice_hint` knows
/// them and they are counted within `usize`.
pub fn hint_slice(element: &Schema, count: usize) -> (hint: Option<Sizes>)
    ensures
        match hint {
            Some(sizes) => slice_hint(element@, count as nat) == Some(
                (sizes.stack as nat, sizes.heap as nat),
            ),
            None => match slice_hint(element@, count as nat) {
                None => true,
                Some((_, heap)) => heap > usize::MAX,
            },
        },
{
    let formula = element.formula();
    let facts = formula.facts();
    match (facts.heapless, formula.fixed()) {
        (true, Some(size)) => {
            assert(count * size == (count as nat) * (size as nat)) by (nonlinear_arith);
            match count.checked_mul(size) {
                Some(heap) => Some(Sizes { stack: REFERENCE, heap }),
                None => None,
            }
        },
        _ => None,
    }
}

/// The lanes that `value` occupies, where `size_hinted` knows them and they are
/// counted within `usize`.
pub fn size_hint(schema: &Schema, value: &Value) -> (hint: Option<Sizes>)
    ensures
        match hint {
            Some(sizes) => size_hinted(schema@, value@) == Some(
                (sizes.stack as nat, sizes.heap as nat),
            ),
            None => match size_hinted(schema@, value@) {
                None => true,
                Some((_, heap)) => heap > usize::MAX,
            },
        },
{
    let formula = schema.formula();
    let facts = formula.facts();
    match (facts.heapless, formula.fixed()) {
        (true, Some(size)) => {
            return Some(Sizes { stack: size, heap: 0 });
        },
        _ => {},
    }
    match (formula, value) {
        (Formula::Bytes, Value::Bytes(bytes)) => Some(Sizes { stack: bytes.len(), heap: 0 }),
        (Formula::Sequence(element), Value::Sequence(values)) => {
            assert(views(values@).len() == values@.len());
            let element_facts = element.facts();
            match (element_facts.heapless, element.fixed()) {
                (true, Some(size)) => {
                    assert(values@.len() * size == (values@.len() as nat) * (size as nat))
                        by (nonlinear_arith);
                    match values.len().checked_mul(size) {
                        Some(heap) => Some(Sizes { stack: REFERENCE, heap }),
                        None => None,
                    }
                },
                _ => None,
            }
        },
        _ => None,
    }
}

} // verus!
