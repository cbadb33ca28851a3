//! Sequences: their rows in the trailing lane, written, read one by one, or viewed in place.

use vstd::prelude::*;
use vstd::slice::slice_subrange;
use crate::deserialize::{decode_row, lemma_decode_rows_error};
use crate::encode::{encode_elements, portable};
use crate::error::{DeserializeError, SerializeError};
use crate::formula::{sequence_facts, Formula, Primitive, SizeFacts, REFERENCE};
use crate::le::le_value;
use crate::size::{word_from_le, FixedUsize};
use crate::value::{views, Value, ValueView};
use crate::wire::{decode_rows, encode_rows, row_at};

verus! {

broadcast use vstd::std_specs::vec::group_vec_axioms;

/// Where reading stands after `k` calls of `next` on rows that start at `offset`, with
/// `remaining` elements to read: the place of the next row and the number of elements
/// that are left. An element that cannot be read leaves nothing to read.
pub open spec fn after_calls(
    element: Formula,
    bytes: Seq<u8>,
    offset: int,
    remaining: nat,
    k: nat,
) -> (int, nat)
    decreases k,
{
    if k == 0 {
        (offset, remaining)
    } else {
        let (at, left) = after_calls(element, bytes, offset, remaining, (k - 1) as nat);
        if left == 0 {
            (at, 0)
        } else {
            match row_at(element, bytes, at) {
                Ok((_, next)) => (next, (left - 1) as nat),
                Err(_) => (at, 0),
            }
        }
    }
}

/// What the call of `next` that follows `k` earlier calls gives.
pub open spec fn yielded(element: Formula, bytes: Seq<u8>, offset: int, remaining: nat, k: nat) -> Option<
    Result<ValueView, DeserializeError>,
> {
    let (at, left) = after_calls(element, bytes, offset, remaining, k);
    if left == 0 {
        None
    } else {
        match row_at(element, bytes, at) {
            Ok((value, _)) => Some(Ok(value)),
            Err(e) => Some(Err(e)),
        }
    }
}

/// No call of `next` leaves more elements to read than the call before it, and after as
/// many calls as there were elements nothing is left: every later call gives `None`.
pub proof fn lemma_exhausted(element: Formula, bytes: Seq<u8>, offset: int, remaining: nat, k: nat)
    ensures
        after_calls(element, bytes, offset, remaining, k).1 <= remaining,
        k <= remaining ==> after_calls(element, bytes, offset, remaining, k).1 <= remaining - k,
        k >= remaining ==> yielded(element, bytes, offset, remaining, k) is None,
    decreases k,
{
    if k > 0 {
        lemma_exhausted(element, bytes, offset, remaining, (k - 1) as nat);
    }
}

/// Where all `remaining` elements can be read, the calls of `next` give them one by
/// one, in order: before the call that gives element `k`, exactly `remaining - k`
/// elements are left, and the call that follows the last element gives `None`.
pub proof fn lemma_iteration(element: Formula, bytes: Seq<u8>, offset: int, remaining: nat, k: nat)
    requires
        decode_rows(element, bytes, offset, remaining) is Ok,
        k <= remaining,
    ensures
        decode_rows(element, bytes, offset, k) is Ok,
        after_calls(element, bytes, offset, remaining, k) == (
            decode_rows(element, bytes, offset, k)->Ok_0.1,
            (remaining - k) as nat,
        ),
        k < remaining ==> yielded(element, bytes, offset, remaining, k) == Some(
            Ok::<ValueView, DeserializeError>(
                decode_rows(element, bytes, offset, remaining)->Ok_0.0[k as int],
            ),
        ),
        k == remaining ==> yielded(element, bytes, offset, remaining, k) is None,
        decode_rows(element, bytes, offset, remaining)->Ok_0.0.len() == remaining,
    decreases remaining - k,
{
    lemma_rows_prefix(element, bytes, offset, k, remaining);
    if k > 0 {
        lemma_iteration_state(element, bytes, offset, remaining, k);
    }
    if k < remaining {
        lemma_rows_prefix(element, bytes, offset, k + 1, remaining);
    }
}

/// The state after `k` calls, where the first `k` elements can be read.
proof fn lemma_iteration_state(element: Formula, bytes: Seq<u8>, offset: int, remaining: nat, k: nat)
    requires
        decode_rows(element, bytes, offset, k) is Ok,
        k <= remaining,
    ensures
        after_calls(element, bytes, offset, remaining, k) == (
            decode_rows(element, bytes, offset, k)->Ok_0.1,
            (remaining - k) as nat,
        ),
    decreases k,
{
    if k > 0 {
        lemma_iteration_state(element, bytes, offset, remaining, (k - 1) as nat);
    }
}

/// Where `n` elements can be read, so can the first `k` of them, which are the same.
pub proof fn lemma_rows_prefix(element: Formula, bytes: Seq<u8>, offset: int, k: nat, n: nat)
    requires
        k <= n,
        decode_rows(element, bytes, offset, n) is Ok,
    ensures
        decode_rows(element, bytes, offset, k) is Ok,
        decode_rows(element, bytes, offset, k)->Ok_0.0.len() == k,
        decode_rows(element, bytes, offset, n)->Ok_0.0.len() == n,
        forall|i: int|
            0 <= i < k ==> decode_rows(element, bytes, offset, k)->Ok_0.0[i] == decode_rows(
                element,
                bytes,
                offset,
                n,
            )->Ok_0.0[i],
    decreases n,
{
    if k < n {
        lemma_rows_prefix(element, bytes, offset, k, (n - 1) as nat);
        lemma_rows_prefix(element, bytes, offset, (n - 1) as nat, (n - 1) as nat);
    } else if n > 0 {
        lemma_rows_prefix(element, bytes, offset, (n - 1) as nat, (n - 1) as nat);
    }
}

/// Whether every word is the number that its four bytes stand for, least significant
/// first.
pub open spec fn words_match(bytes: Seq<u8>, words: Seq<u32>) -> bool {
    &&& bytes.len() == 4 * words.len()
    &&& forall|i: int|
        0 <= i < words.len() ==> #[trigger] words[i] == le_value(bytes.subrange(4 * i, 4 * i + 4))
}

/// Calls `bytemuck::try_cast_slice` to view bytes as words of four bytes in place. The
/// cast is refused where the bytes are not aligned for words or are not a whole number
/// of words; a view that is given holds a quarter as many words as there are bytes.
/// Which number a word holds is left open: it depends on the byte order of the machine.
#[verifier::external_body]
fn cast_words<'a>(bytes: &'a [u8]) -> (words: Option<&'a [u32]>)
    ensures
        words matches Some(cast) ==> cast@.len() * 4 == bytes@.len(),
{
    bytemuck::try_cast_slice::<u8, u32>(bytes).ok()
}

/// Keeps a view of `bytes` as words where there is one and every word is the number
/// that its four bytes stand for on the wire.
pub fn checked_words<'a>(bytes: &[u8], cast: Option<&'a [u32]>) -> (words: Option<&'a [u32]>)
    ensures
        words == if cast matches Some(view) && words_match(bytes@, view@) {
            cast
        } else {
            None
        },
{
    let view = match cast {
        Some(view) => view,
        None => {
            return None;
        },
    };
    if bytes.len() / 4 != view.len() || bytes.len() % 4 != 0 {
        return None;
    }
    let n = bytes.len();
    let mut i: usize = 0;
    while i < view.len()
        invariant
            i <= view@.len(),
            n == bytes@.len(),
            cast == Some(view),
            bytes@.len() == 4 * view@.len(),
            forall|j: int|
                0 <= j < i ==> #[trigger] view@[j] == le_value(bytes@.subrange(4 * j, 4 * j + 4)),
        decreases view@.len() - i,
    {
        let at = 4 * i;
        let word: [u8; 4] = [bytes[at], bytes[at + 1], bytes[at + 2], bytes[at + 3]];
        assert(word@ =~= bytes@.subrange(4 * i, 4 * i + 4));
        if word_from_le(word) != view[i] {
            assert(view@[i as int] != le_value(bytes@.subrange(4 * i, 4 * i + 4)));
            return None;
        }
        i = i + 1;
    }
    cast
}

/// The formula of a sequence: any number of elements of one formula. The inline lane
/// holds the number of elements and the offset of their rows; the rows stand in the
/// trailing lane, one after the other, behind what the elements append there themselves.
pub struct Sequence;

impl Sequence {
    /// The facts of a sequence, from those of its element: a sequence of elements of no
    /// width is a length and offset pair and nothing else; any other sequence has no
    /// bound, is not exact and writes to the trailing lane.
    pub fn facts(element: SizeFacts) -> (facts: SizeFacts)
        ensures
            facts.max_stack_size == if element.max_stack_size == Some(0usize) {
                Some(REFERENCE)
            } else {
                None
            },
            facts.exact_size == (element.max_stack_size == Some(0usize)),
            facts.heapless == (element.max_stack_size == Some(0usize) && element.heapless),
    {
        sequence_facts(element)
    }

    /// Writes the elements behind `bytes`, the trailing lane, which starts at `offset`:
    /// first what the elements append there themselves, then their rows. Gives the
    /// number of elements and the offset of the rows, as the inline lane holds them, or
    /// fails where one of the two, or a length among the elements, does not fit the
    /// portable width.
    pub fn pack(element: &Formula, values: &Vec<Value>, offset: usize, bytes: &mut Vec<u8>) -> (result:
        Result<[u32; 2], SerializeError>)
        requires
            forall|i: int| 0 <= i < values@.len() ==> element.admits(#[trigger] views(values@)[i]),
        ensures
            match result {
                Ok(packed) => {
                    &&& encode_rows(
                        *element,
                        views(values@),
                        values@.len(),
                        (offset + old(bytes)@.len()) as nat,
                    ) matches Some(rows)
                    &&& final(bytes)@ == old(bytes)@ + (rows.heap + rows.stack)
                    &&& packed[0] == values@.len()
                    &&& packed[1] == offset + old(bytes)@.len() + rows.heap.len()
                },
                Err(e) => {
                    &&& e == SerializeError::Overflow
                    &&& match encode_rows(
                        *element,
                        views(values@),
                        values@.len(),
                        (offset + old(bytes)@.len()) as nat,
                    ) {
                        None => true,
                        Some(rows) => values@.len() > u32::MAX || offset + old(bytes)@.len()
                            + rows.heap.len() > u32::MAX,
                    }
                },
            },
        decreases element, 3nat,
    {
        let mut rows: Vec<u8> = Vec::new();
        match encode_elements(element, values, &mut rows, bytes, offset) {
            Ok(()) => {},
            Err(e) => {
                return Err(e);
            },
        }
        let ghost written = encode_rows(
            *element,
            views(values@),
            values@.len(),
            (offset + old(bytes)@.len()) as nat,
        ).unwrap();
        assert(rows@ =~= written.stack);
        let at = match offset.checked_add(bytes.len()) {
            Some(at) => at,
            None => {
                return Err(SerializeError::Overflow);
            },
        };
        let count = match portable(values.len()) {
            Ok(count) => count,
            Err(e) => {
                return Err(e);
            },
        };
        let place = match portable(at) {
            Ok(place) => place,
            Err(e) => {
                return Err(e);
            },
        };
        bytes.append(&mut rows);
        assert(bytes@ =~= old(bytes)@ + (written.heap + written.stack));
        Ok([count.0, place.0])
    }

    /// The elements of the sequence whose inline region held `packed`: the number of
    /// elements, then the offset of their rows in `bytes`, the trailing lane. Fails
    /// where the offset is not within `bytes`.
    pub fn unpack<'a>(element: &'a Formula, packed: [u32; 2], bytes: &'a [u8]) -> (result: Result<
        SeqUnpacked<'a>,
        DeserializeError,
    >)
        ensures
            match result {
                Ok(rows) => {
                    &&& packed[1] <= bytes@.len()
                    &&& rows.element() == *element
                    &&& rows.bytes() == bytes@
                    &&& rows.offset() == packed[1]
                    &&& rows.remaining() == packed[0]
                },
                Err(e) => e == DeserializeError::OutOfBounds && packed[1] > bytes@.len(),
            },
    {
        let count: usize = usize::from(FixedUsize(packed[0]));
        let offset: usize = usize::from(FixedUsize(packed[1]));
        SeqUnpacked::unpack(element, count, offset, bytes)
    }
}

/// The elements of a sequence that are still to be read: `len` rows of the trailing
/// lane, the next one starting at `offset`.
#[derive(Clone, Copy, Debug)]
pub struct SeqUnpacked<'a> {
    element: &'a Formula,
    bytes: &'a [u8],
    offset: usize,
    len: usize,
}

impl<'a> SeqUnpacked<'a> {
    /// The formula of the elements.
    pub closed spec fn element(&self) -> Formula {
        *self.element
    }

    /// The trailing lane that holds the rows.
    pub closed spec fn bytes(&self) -> Seq<u8> {
        self.bytes@
    }

    /// The place in the trailing lane where the next row starts.
    pub closed spec fn offset(&self) -> int {
        self.offset as int
    }

    /// The number of elements that are still to be read.
    pub closed spec fn remaining(&self) -> nat {
        self.len as nat
    }

    /// The offset stays within the trailing lane.
    #[verifier::type_invariant]
    closed spec fn within(&self) -> bool {
        self.offset <= self.bytes@.len()
    }

    /// The elements of a sequence whose inline region held `count` and `offset`; fails
    /// where `offset` is not within the trailing lane.
    pub fn unpack(element: &'a Formula, count: usize, offset: usize, bytes: &'a [u8]) -> (result:
        Result<SeqUnpacked<'a>, DeserializeError>)
        ensures
            match result {
                Ok(rows) => {
                    &&& offset <= bytes@.len()
                    &&& rows.element() == *element
                    &&& rows.bytes() == bytes@
                    &&& rows.offset() == offset
                    &&& rows.remaining() == count
                },
                Err(e) => e == DeserializeError::OutOfBounds && offset > bytes@.len(),
            },
    {
        if offset > bytes.len() {
            return Err(DeserializeError::OutOfBounds);
        }
        Ok(SeqUnpacked { element, bytes, offset, len: count })
    }

    /// The elements that are still to be read, in place, where they are unsigned numbers
    /// of four bytes, their rows lie within the trailing lane, aligned for such numbers,
    /// and the machine holds numbers as the wire does. The view lasts as long as the
    /// trailing lane is borrowed.
    pub fn as_slice(&self) -> (words: Option<&'a [u32]>)
        ensures
            words matches Some(view) ==> {
                &&& self.element() == Formula::Primitive(Primitive::U32)
                &&& view@.len() == self.remaining()
                &&& self.offset() + 4 * self.remaining() <= self.bytes().len()
                &&& words_match(
                    self.bytes().subrange(self.offset(), self.offset() + 4 * self.remaining()),
                    view@,
                )
            },
    {
        proof {
            use_type_invariant(self);
        }
        match self.element {
            Formula::Primitive(Primitive::U32) => {},
            _ => {
                return None;
            },
        }
        let size = match self.len.checked_mul(4) {
            Some(size) => size,
            None => {
                return None;
            },
        };
        if size > self.bytes.len() - self.offset {
            return None;
        }
        let rows = slice_subrange(self.bytes, self.offset, self.offset + size);
        checked_words(rows, cast_words(rows))
    }

    /// The number of elements that are still to be read.
    pub fn len(&self) -> (len: usize)
        ensures
            len == self.remaining(),
    {
        self.len
    }

    /// The number of elements that are still to be read, as a lower and an upper bound.
    pub fn size_hint(&self) -> (hint: (usize, Option<usize>))
        ensures
            hint.0 == self.remaining(),
            hint.1 == Some(hint.0),
    {
        (self.len, Some(self.len))
    }

    /// Reads the next element: `None` where none is left. Where the row cannot be read,
    /// the error is given and nothing is left to read.
    pub fn next(&mut self) -> (item: Option<Result<Value, DeserializeError>>)
        ensures
            final(self).element() == old(self).element(),
            final(self).bytes() == old(self).bytes(),
            old(self).remaining() == 0 ==> item is None && final(self).offset() == old(
                self,
            ).offset() && final(self).remaining() == 0,
            old(self).remaining() > 0 ==> match row_at(
                old(self).element(),
                old(self).bytes(),
                old(self).offset(),
            ) {
                Ok((value, next)) => {
                    &&& item matches Some(Ok(read))
                    &&& read@ == value
                    &&& final(self).offset() == next
                    &&& final(self).remaining() == old(self).remaining() - 1
                },
                Err(e) => {
                    &&& item == Some(Err::<Value, DeserializeError>(e))
                    &&& final(self).offset() == old(self).offset()
                    &&& final(self).remaining() == 0
                },
            },
            (final(self).offset(), final(self).remaining()) == after_calls(
                old(self).element(),
                old(self).bytes(),
                old(self).offset(),
                old(self).remaining(),
                1,
            ),
        decreases old(self).element(), 2nat,
    {
        proof {
            use_type_invariant(&*self);
            reveal_with_fuel(after_calls, 2);
        }
        if self.len == 0 {
            return None;
        }
        match decode_row(self.element, self.bytes, self.offset) {
            Ok((value, next)) => {
                self.offset = next;
                self.len = self.len - 1;
                Some(Ok(value))
            },
            Err(e) => {
                self.len = 0;
                Some(Err(e))
            },
        }
    }

    /// Reads all elements that are left, the first error ending the reading.
    pub fn collect(self) -> (result: Result<Vec<Value>, DeserializeError>)
        ensures
            match result {
                Ok(values) => decode_rows(
                    self.element(),
                    self.bytes(),
                    self.offset(),
                    self.remaining(),
                ) matches Ok((read, _)) && read == views(values@),
                Err(e) => decode_rows(
                    self.element(),
                    self.bytes(),
                    self.offset(),
                    self.remaining(),
                ) == Err::<(Seq<ValueView>, int), DeserializeError>(e),
            },
        decreases self.element(), 3nat,
    {
        proof {
            use_type_invariant(&self);
        }
        let ghost element = self.element();
        let ghost heap = self.bytes();
        let ghost start = self.offset();
        let ghost count = self.remaining();
        let mut rows = self;
        let mut values: Vec<Value> = Vec::new();
        let ghost done: nat = 0;
        assert(views(values@) =~= Seq::<ValueView>::empty());
        loop
            invariant
                element == self.element(),
                heap == self.bytes(),
                start == self.offset(),
                count == self.remaining(),
                rows.element() == element,
                rows.bytes() == heap,
                done + rows.remaining() == count,
                decode_rows(element, heap, start, done) == Ok::<
                    (Seq<ValueView>, int),
                    DeserializeError,
                >((views(values@), rows.offset())),
            decreases rows.remaining(),
        {
            let ghost before = views(values@);
            match rows.next() {
                None => {
                    return Ok(values);
                },
                Some(Ok(value)) => {
                    values.push(value);
                    proof {
                        assert(views(values@) =~= before.push(value@));
                        done = done + 1;
                    }
                },
                Some(Err(e)) => {
                    proof {
                        lemma_decode_rows_error(element, heap, start, done + 1, count);
                    }
                    return Err(e);
                },
            }
        }
    }
}

} // verus!
