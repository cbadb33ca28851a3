//! Numbers as little-endian bytes.

use vstd::prelude::*;
use vstd::arithmetic::div_mod::lemma_div_denominator;

verus! {

/// `256` to the power `width`: how many numbers `width` bytes can hold.
pub open spec fn span(width: nat) -> nat
    decreases width,
{
    if width == 0 {
        1
    } else {
        256 * span((width - 1) as nat)
    }
}

/// The `width` low-order base-256 digits of `value`, least significant first.
pub open spec fn le_bytes(value: nat, width: nat) -> Seq<u8>
    decreases width,
{
    if width == 0 {
        Seq::empty()
    } else {
        seq![(value % 256) as u8] + le_bytes(value / 256, (width - 1) as nat)
    }
}

/// The number whose base-256 digits, least significant first, are `bytes`.
pub open spec fn le_value(bytes: Seq<u8>) -> nat
    decreases bytes.len(),
{
    if bytes.len() == 0 {
        0
    } else {
        bytes[0] as nat + 256 * le_value(bytes.skip(1))
    }
}

pub proof fn lemma_span_positive(width: nat)
    ensures
        span(width) >= 1,
    decreases width,
{
    if width > 0 {
        lemma_span_positive((width - 1) as nat);
    }
}

/// The spans of the widths that occur on the wire.
pub proof fn lemma_span_values()
    ensures
        span(0) == 1,
        span(1) == 0x100,
        span(2) == 0x1_0000,
        span(4) == 0x1_0000_0000,
        span(8) == 0x1_0000_0000_0000_0000,
        span(16) == 0x1_0000_0000_0000_0000_0000_0000_0000_0000,
{
    reveal_with_fuel(span, 5);
    assert(span(4) == 0x1_0000_0000);
    assert(span(8) == 0x1_0000_0000 * span(4));
    assert(span(12) == 0x1_0000_0000 * span(8));
    assert(span(16) == 0x1_0000_0000 * span(12));
}

pub proof fn lemma_le_bytes_len(value: nat, width: nat)
    ensures
        le_bytes(value, width).len() == width,
    decreases width,
{
    if width > 0 {
        lemma_le_bytes_len(value / 256, (width - 1) as nat);
    }
}

/// Digits read back give the number they were taken from.
pub proof fn lemma_le_value_of_bytes(value: nat, width: nat)
    requires
        value < span(width),
    ensures
        le_value(le_bytes(value, width)) == value,
    decreases width,
{
    if width > 0 {
        let rest = le_bytes(value / 256, (width - 1) as nat);
        let all = le_bytes(value, width);
        lemma_le_value_of_bytes(value / 256, (width - 1) as nat);
        assert(all.skip(1) =~= rest);
    }
}

/// A number read from `n` bytes is below `span(n)`.
pub proof fn lemma_le_value_bound(bytes: Seq<u8>)
    ensures
        le_value(bytes) < span(bytes.len()),
    decreases bytes.len(),
{
    if bytes.len() > 0 {
        lemma_le_value_bound(bytes.skip(1));
    }
}

/// A number written back gives the bytes it was read from.
pub proof fn lemma_le_bytes_of_value(bytes: Seq<u8>)
    ensures
        le_bytes(le_value(bytes), bytes.len()) == bytes,
    decreases bytes.len(),
{
    if bytes.len() > 0 {
        lemma_le_bytes_of_value(bytes.skip(1));
        let value = le_value(bytes);
        assert(value / 256 == le_value(bytes.skip(1)));
        assert(value % 256 == bytes[0]);
        assert(le_bytes(value, bytes.len()) =~= bytes);
    }
}

/// One more digit is appended at the end.
pub proof fn lemma_le_bytes_push(value: nat, width: nat)
    ensures
        le_bytes(value, width + 1) == le_bytes(value, width).push(
            ((value / span(width)) % 256) as u8,
        ),
    decreases width,
{
    if width == 0 {
        assert(span(0) == 1);
        assert(value / span(0) == value);
        assert(le_bytes(value / 256, 0) =~= Seq::<u8>::empty());
        assert(le_bytes(value, 0) =~= Seq::<u8>::empty());
        assert(le_bytes(value, 1) == seq![(value % 256) as u8] + le_bytes(value / 256, 0));
        assert(le_bytes(value, 1) =~= le_bytes(value, 0).push((value % 256) as u8));
    } else {
        let w = (width - 1) as nat;
        lemma_le_bytes_push(value / 256, w);
        lemma_span_positive(w);
        lemma_div_denominator(value as int, 256, span(w) as int);
        assert(256 * span(w) == span(width));
        assert((value / 256) / span(w) == value / span(width));
        let digit = ((value / span(width)) % 256) as u8;
        let head = seq![(value % 256) as u8];
        assert(le_bytes(value / 256, width) == le_bytes(value / 256, w).push(digit));
        assert(le_bytes(value, width + 1) == head + le_bytes(value / 256, width));
        assert(le_bytes(value, width) == head + le_bytes(value / 256, w));
        assert(head + le_bytes(value / 256, w).push(digit) =~= (head + le_bytes(
            value / 256,
            w,
        )).push(digit));
    }
}

/// Appends the `width` low-order bytes of `value`, least significant first.
pub fn push_le(out: &mut Vec<u8>, value: u128, width: usize)
    ensures
        final(out)@ == old(out)@ + le_bytes(value as nat, width as nat),
{
    let mut rest: u128 = value;
    let mut i: usize = 0;
    assert(span(0) == 1);
    assert(out@ =~= old(out)@ + le_bytes(value as nat, 0));
    while i < width
        invariant
            i <= width,
            out@ == old(out)@ + le_bytes(value as nat, i as nat),
            rest as nat == (value as nat) / span(i as nat),
        decreases width - i,
    {
        let digit: u8 = (rest % 256) as u8;
        out.push(digit);
        proof {
            lemma_le_bytes_push(value as nat, i as nat);
            lemma_span_positive(i as nat);
            lemma_div_denominator(value as int, span(i as nat) as int, 256);
            assert(span(i as nat) * 256 == span((i + 1) as nat));
            assert(out@ =~= old(out)@ + le_bytes(value as nat, (i + 1) as nat));
        }
        rest = rest / 256;
        i = i + 1;
    }
}

/// Reads the number whose little-endian bytes are `bytes`.
pub fn read_le(bytes: &[u8]) -> (value: u128)
    requires
        bytes@.len() <= 16,
    ensures
        value == le_value(bytes@),
{
    let mut value: u128 = 0;
    let mut i: usize = bytes.len();
    while i > 0
        invariant
            i <= bytes@.len() <= 16,
            value == le_value(bytes@.skip(i as int)),
        decreases i,
    {
        proof {
            let tail = bytes@.skip(i - 1);
            assert(tail.skip(1) =~= bytes@.skip(i as int));
            lemma_le_value_bound(tail);
            lemma_span_monotonic(tail.len(), 16);
            lemma_span_values();
        }
        i = i - 1;
        value = value * 256 + bytes[i] as u128;
    }
    assert(bytes@.skip(0) =~= bytes@);
    value
}

pub proof fn lemma_span_monotonic(a: nat, b: nat)
    requires
        a <= b,
    ensures
        span(a) <= span(b),
    decreases b,
{
    if a < b {
        lemma_span_monotonic(a, (b - 1) as nat);
    }
}

} // verus!
