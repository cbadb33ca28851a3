//! The numbers that stand for scalar values.

use vstd::prelude::*;
use crate::formula::Primitive;
use crate::le::{lemma_span_positive, lemma_span_values, span};
use crate::value::Value;

verus! {

/// The largest number that `width` bytes hold.
pub fn unsigned_limit(width: usize) -> (limit: u128)
    requires
        width == 1 || width == 2 || width == 4 || width == 8 || width == 16,
    ensures
        limit == span(width as nat) - 1,
{
    proof {
        lemma_span_values();
    }
    if width == 1 {
        0xff
    } else if width == 2 {
        0xffff
    } else if width == 4 {
        0xffff_ffff
    } else if width == 8 {
        0xffff_ffff_ffff_ffff
    } else {
        0xffff_ffff_ffff_ffff_ffff_ffff_ffff_ffff
    }
}

impl Primitive {
    /// Whether `value` is one of the values that this formula holds.
    pub fn admits_value(self, value: &Value) -> (ok: bool)
        ensures
            ok == self.admits(value@),
    {
        let limit = unsigned_limit(self.width());
        proof {
            lemma_span_positive((self.spec_width() - 1) as nat);
            assert(span(self.spec_width() as nat) == 256 * span((self.spec_width() - 1) as nat));
        }
        match value {
            Value::Bool(_) => self == Primitive::Bool,
            Value::Unsigned(x) => self != Primitive::Bool && !self.is_signed() && *x <= limit,
            Value::Signed(x) => {
                let half: i128 = (limit / 2) as i128;
                self.is_signed() && -half - 1 <= *x && *x <= half
            },
            _ => false,
        }
    }

    /// The number whose digits stand for `value`.
    pub fn image_of(self, value: &Value) -> (image: u128)
        requires
            self.admits(value@),
        ensures
            image == self.image(value@),
            image < span(self.spec_width() as nat),
    {
        let limit = unsigned_limit(self.width());
        proof {
            lemma_span_positive((self.spec_width() - 1) as nat);
            assert(span(self.spec_width() as nat) == 256 * span((self.spec_width() - 1) as nat));
        }
        match value {
            Value::Bool(b) => if *b {
                1
            } else {
                0
            },
            Value::Unsigned(x) => *x,
            Value::Signed(x) => if *x < 0 {
                let back: u128 = (-(*x + 1)) as u128;
                limit - back
            } else {
                *x as u128
            },
            _ => 0,
        }
    }

    /// The value that the number `n` stands for.
    pub fn value_from(self, n: u128) -> (value: Value)
        requires
            n < span(self.spec_width() as nat),
        ensures
            value@ == self.value_of(n as nat),
    {
        let limit = unsigned_limit(self.width());
        proof {
            lemma_span_positive((self.spec_width() - 1) as nat);
            assert(span(self.spec_width() as nat) == 256 * span((self.spec_width() - 1) as nat));
        }
        if self == Primitive::Bool {
            Value::Bool(n != 0)
        } else if self.is_signed() {
            if n > limit / 2 {
                let back: i128 = (limit - n) as i128;
                Value::Signed(-back - 1)
            } else {
                Value::Signed(n as i128)
            }
        } else {
            Value::Unsigned(n)
        }
    }
}

} // verus!
