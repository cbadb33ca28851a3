//! The wire format: what writing appends to the two lanes, and what reading finds in them.

use vstd::prelude::*;
use crate::error::DeserializeError;
use crate::formula::{Formula, Primitive};
use crate::le::{le_bytes, le_value, span};
use crate::value::ValueView;

verus! {

broadcast use vstd::std_specs::vec::group_vec_axioms;

/// Bytes appended to the inline lane and to the trailing lane.
pub struct Lanes {
    pub stack: Seq<u8>,
    pub heap: Seq<u8>,
}

/// A portable size on the wire.
pub open spec fn word(n: nat) -> Seq<u8> {
    le_bytes(n, 4)
}

impl Primitive {
    /// The values that this formula holds.
    pub open spec fn admits(self, value: ValueView) -> bool {
        match value {
            ValueView::Bool(_) => self == Primitive::Bool,
            ValueView::Unsigned(x) => self != Primitive::Bool && !self.spec_is_signed() && x < span(
                self.spec_width() as nat,
            ),
            ValueView::Signed(x) => self.spec_is_signed() && -(span(self.spec_width() as nat) / 2)
                <= x < span(self.spec_width() as nat) / 2,
            _ => false,
        }
    }

    /// The number whose digits stand for `value`: two's complement for a negative one.
    pub open spec fn image(self, value: ValueView) -> nat {
        match value {
            ValueView::Bool(b) => if b {
                1
            } else {
                0
            },
            ValueView::Unsigned(x) => x,
            ValueView::Signed(x) => if x < 0 {
                (x + span(self.spec_width() as nat)) as nat
            } else {
                x as nat
            },
            _ => 0,
        }
    }

    /// The value that the number `n` stands for.
    pub open spec fn value_of(self, n: nat) -> ValueView {
        if self == Primitive::Bool {
            ValueView::Bool(n != 0)
        } else if self.spec_is_signed() {
            if n >= span(self.spec_width() as nat) / 2 {
                ValueView::Signed(n - span(self.spec_width() as nat))
            } else {
                ValueView::Signed(n as int)
            }
        } else {
            ValueView::Unsigned(n)
        }
    }
}

/// Whether `values` has one admitted value for each of `fields`.
pub open spec fn fields_admit(fields: Seq<Formula>, values: Seq<ValueView>) -> bool
    decreases fields, 0nat,
{
    &&& fields.len() == values.len()
    &&& forall|i: int| 0 <= i < fields.len() ==> (#[trigger] fields[i]).admits(values[i])
}

/// What one field of an aggregate appends to the lanes. The last field, and a field of
/// fixed size, stands in place. Any other field stands in the trailing lane, behind what
/// it appends there itself, and the inline lane holds the length of its inline region and
/// then the offset of that region.
pub open spec fn encode_slot(field: Formula, last: bool, value: ValueView, base: nat) -> Option<
    Lanes,
>
    decreases field, 1nat,
{
    match field.encode(value, base) {
        None => None,
        Some(own) => {
            if last || field.fixed_size() is Some {
                Some(own)
            } else if own.stack.len() > u32::MAX || base + own.heap.len() > u32::MAX {
                None
            } else {
                Some(
                    Lanes {
                        stack: word(own.stack.len()) + word(base + own.heap.len()),
                        heap: own.heap + own.stack,
                    },
                )
            }
        },
    }
}

/// The first `k` fields of an aggregate written one after the other, the trailing lane
/// holding `base` bytes before the first.
pub open spec fn encode_fields(
    fields: Seq<Formula>,
    values: Seq<ValueView>,
    k: nat,
    base: nat,
) -> Option<Lanes>
    decreases fields, k,
{
    if k == 0 {
        Some(Lanes { stack: Seq::empty(), heap: Seq::empty() })
    } else if k > fields.len() || k > values.len() {
        None
    } else {
        match encode_fields(fields, values, (k - 1) as nat, base) {
            None => None,
            Some(before) => match encode_slot(
                fields[k - 1],
                k == fields.len(),
                values[k - 1],
                base + before.heap.len(),
            ) {
                None => None,
                Some(own) => Some(
                    Lanes { stack: before.stack + own.stack, heap: before.heap + own.heap },
                ),
            },
        }
    }
}

/// What one element of a sequence appends: `stack` is its row, `heap` what it appends to
/// the trailing lane itself. The row of an element of fixed size is its inline region;
/// any other row is the length of that region, then the region.
pub open spec fn encode_row(element: Formula, value: ValueView, base: nat) -> Option<Lanes>
    decreases element, 1nat,
{
    match element.encode(value, base) {
        None => None,
        Some(own) => {
            if element.fixed_size() is Some {
                Some(own)
            } else if own.stack.len() > u32::MAX {
                None
            } else {
                Some(Lanes { stack: word(own.stack.len()) + own.stack, heap: own.heap })
            }
        },
    }
}

/// The first `k` elements of a sequence: `stack` holds their rows, `heap` what they
/// themselves append to the trailing lane.
pub open spec fn encode_rows(element: Formula, values: Seq<ValueView>, k: nat, base: nat) -> Option<
    Lanes,
>
    decreases element, k + 2,
{
    if k == 0 {
        Some(Lanes { stack: Seq::empty(), heap: Seq::empty() })
    } else if k > values.len() {
        None
    } else {
        match encode_rows(element, values, (k - 1) as nat, base) {
            None => None,
            Some(before) => match encode_row(element, values[k - 1], base + before.heap.len()) {
                None => None,
                Some(own) => Some(
                    Lanes { stack: before.stack + own.stack, heap: before.heap + own.heap },
                ),
            },
        }
    }
}

/// What a sequence of `values` appends to the lanes: to the trailing lane what the
/// elements append there themselves and then their rows; to the inline lane the number
/// of elements and then the offset of the rows.
pub open spec fn sequence_lanes(element: Formula, values: Seq<ValueView>, base: nat) -> Option<
    Lanes,
>
    decreases element, values.len() + 3,
{
    match encode_rows(element, values, values.len(), base) {
        None => None,
        Some(rows) => {
            let offset = base + rows.heap.len();
            if values.len() > u32::MAX || offset > u32::MAX {
                None
            } else {
                Some(
                    Lanes {
                        stack: word(values.len()) + word(offset),
                        heap: rows.heap + rows.stack,
                    },
                )
            }
        },
    }
}

/// The field that starts at `at` in `stack`, and the place in `stack` that follows it.
pub open spec fn field_at(field: Formula, last: bool, stack: Seq<u8>, heap: Seq<u8>, at: int) -> Result<
    (ValueView, int),
    DeserializeError,
>
    decreases field, 1nat,
{
    if last {
        match field.decode(stack.skip(at), heap) {
            Err(e) => Err(e),
            Ok(value) => Ok((value, stack.len() as int)),
        }
    } else if field.fixed_size() is Some {
        let size = field.fixed_size().unwrap() as int;
        if at + size > stack.len() {
            Err(DeserializeError::OutOfBounds)
        } else {
            match field.decode(stack.subrange(at, at + size), heap) {
                Err(e) => Err(e),
                Ok(value) => Ok((value, at + size)),
            }
        }
    } else if at + 8 > stack.len() {
        Err(DeserializeError::OutOfBounds)
    } else {
        let len = le_value(stack.subrange(at, at + 4)) as int;
        let offset = le_value(stack.subrange(at + 4, at + 8)) as int;
        if offset + len > heap.len() {
            Err(DeserializeError::OutOfBounds)
        } else {
            match field.decode(heap.subrange(offset, offset + len), heap) {
                Err(e) => Err(e),
                Ok(value) => Ok((value, at + 8)),
            }
        }
    }
}

/// The first `k` fields of an aggregate read from `stack`, and the place in `stack` that
/// follows them.
pub open spec fn decode_fields(fields: Seq<Formula>, stack: Seq<u8>, heap: Seq<u8>, k: nat) -> Result<
    (Seq<ValueView>, int),
    DeserializeError,
>
    decreases fields, k,
{
    if k == 0 || k > fields.len() {
        Ok((Seq::empty(), 0))
    } else {
        match decode_fields(fields, stack, heap, (k - 1) as nat) {
            Err(e) => Err(e),
            Ok((values, at)) => match field_at(fields[k - 1], k == fields.len(), stack, heap, at) {
                Err(e) => Err(e),
                Ok((value, next)) => Ok((values.push(value), next)),
            },
        }
    }
}

/// All fields of an aggregate read from `stack`, which they fill.
pub open spec fn decode_aggregate(fields: Seq<Formula>, stack: Seq<u8>, heap: Seq<u8>) -> Result<
    Seq<ValueView>,
    DeserializeError,
>
    decreases fields, fields.len() + 1,
{
    if fields.len() == 0 {
        if stack.len() == 0 {
            Ok(Seq::empty())
        } else {
            Err(DeserializeError::WrongLength)
        }
    } else {
        match decode_fields(fields, stack, heap, fields.len()) {
            Err(e) => Err(e),
            Ok((values, _)) => Ok(values),
        }
    }
}

/// The element whose row starts at `at` in `heap`, and the place in `heap` that follows
/// the row. A row of an element of fixed size is that many bytes; any other row is the
/// length of the element's inline region, then that region.
pub open spec fn row_at(element: Formula, heap: Seq<u8>, at: int) -> Result<
    (ValueView, int),
    DeserializeError,
>
    decreases element, 1nat,
{
    if element.fixed_size() is Some {
        let size = element.fixed_size().unwrap() as int;
        if at + size > heap.len() {
            Err(DeserializeError::OutOfBounds)
        } else {
            match element.decode(heap.subrange(at, at + size), heap) {
                Err(e) => Err(e),
                Ok(value) => Ok((value, at + size)),
            }
        }
    } else if at + 4 > heap.len() {
        Err(DeserializeError::OutOfBounds)
    } else {
        let len = le_value(heap.subrange(at, at + 4)) as int;
        if at + 4 + len > heap.len() {
            Err(DeserializeError::OutOfBounds)
        } else {
            match element.decode(heap.subrange(at + 4, at + 4 + len), heap) {
                Err(e) => Err(e),
                Ok(value) => Ok((value, at + 4 + len)),
            }
        }
    }
}

/// The first `k` elements of a sequence whose rows start at `offset` in `heap`, and the
/// place in `heap` that follows them.
pub open spec fn decode_rows(element: Formula, heap: Seq<u8>, offset: int, k: nat) -> Result<
    (Seq<ValueView>, int),
    DeserializeError,
>
    decreases element, k + 2,
{
    if k == 0 {
        if offset < 0 || offset > heap.len() {
            Err(DeserializeError::OutOfBounds)
        } else {
            Ok((Seq::empty(), offset))
        }
    } else {
        match decode_rows(element, heap, offset, (k - 1) as nat) {
            Err(e) => Err(e),
            Ok((values, at)) => match row_at(element, heap, at) {
                Err(e) => Err(e),
                Ok((value, next)) => Ok((values.push(value), next)),
            },
        }
    }
}

impl Formula {
    /// The values that this formula holds.
    pub open spec fn admits(&self, value: ValueView) -> bool
        decreases self, 0nat,
    {
        match self {
            Formula::Primitive(p) => p.admits(value),
            Formula::Bytes => value is Bytes,
            Formula::Struct(fields) => value matches ValueView::Struct(values) && fields_admit(
                fields@,
                values,
            ),
            Formula::Enum(variants) => {
                &&& value matches ValueView::Variant(tag, values)
                &&& tag < variants@.len()
                &&& fields_admit(variants@[tag as int]@, values)
            },
            Formula::Sequence(element) => {
                &&& value matches ValueView::Sequence(values)
                &&& forall|i: int| 0 <= i < values.len() ==> element.admits(#[trigger] values[i])
            },
        }
    }

    /// What writing `value` appends to the two lanes when the trailing lane holds `base`
    /// bytes already; `None` where a length or an offset does not fit the portable width.
    pub open spec fn encode(&self, value: ValueView, base: nat) -> Option<Lanes>
        decreases self, 0nat,
    {
        match self {
            Formula::Primitive(p) => Some(
                Lanes {
                    stack: le_bytes(p.image(value), p.spec_width() as nat),
                    heap: Seq::empty(),
                },
            ),
            Formula::Bytes => match value {
                ValueView::Bytes(bytes) => Some(Lanes { stack: bytes, heap: Seq::empty() }),
                _ => None,
            },
            Formula::Struct(fields) => match value {
                ValueView::Struct(values) => encode_fields(fields@, values, fields@.len(), base),
                _ => None,
            },
            Formula::Enum(variants) => match value {
                ValueView::Variant(tag, values) => if tag < variants@.len() && tag <= u32::MAX {
                    let fields = variants@[tag as int]@;
                    match encode_fields(fields, values, fields.len(), base) {
                        None => None,
                        Some(body) => Some(
                            Lanes { stack: word(tag) + body.stack, heap: body.heap },
                        ),
                    }
                } else {
                    None
                },
                _ => None,
            },
            Formula::Sequence(element) => match value {
                ValueView::Sequence(values) => sequence_lanes(**element, values, base),
                _ => None,
            },
        }
    }

    /// The value that the inline region `stack` holds, its references pointing into `heap`.
    pub open spec fn decode(&self, stack: Seq<u8>, heap: Seq<u8>) -> Result<
        ValueView,
        DeserializeError,
    >
        decreases self, 0nat,
    {
        match self {
            Formula::Primitive(p) => if stack.len() == p.spec_width() {
                Ok(p.value_of(le_value(stack)))
            } else if stack.len() > p.spec_width() {
                Err(DeserializeError::WrongLength)
            } else {
                Err(DeserializeError::OutOfBounds)
            },
            Formula::Bytes => Ok(ValueView::Bytes(stack)),
            Formula::Struct(fields) => match decode_aggregate(fields@, stack, heap) {
                Err(e) => Err(e),
                Ok(values) => Ok(ValueView::Struct(values)),
            },
            Formula::Enum(variants) => if stack.len() < 4 {
                Err(DeserializeError::OutOfBounds)
            } else {
                let tag = le_value(stack.subrange(0, 4));
                if tag >= variants@.len() {
                    Err(DeserializeError::WrongVariant(tag as u32))
                } else {
                    match decode_aggregate(variants@[tag as int]@, stack.skip(4), heap) {
                        Err(e) => Err(e),
                        Ok(values) => Ok(ValueView::Variant(tag, values)),
                    }
                }
            },
            Formula::Sequence(element) => if stack.len() < 8 {
                Err(DeserializeError::OutOfBounds)
            } else if stack.len() > 8 {
                Err(DeserializeError::WrongLength)
            } else {
                let count = le_value(stack.subrange(0, 4));
                let offset = le_value(stack.subrange(4, 8)) as int;
                match decode_rows(**element, heap, offset, count) {
                    Err(e) => Err(e),
                    Ok((values, _)) => Ok(ValueView::Sequence(values)),
                }
            },
        }
    }
}

} // verus!
