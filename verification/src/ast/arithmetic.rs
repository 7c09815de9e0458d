//! Arithmetic and comparison of constants that are no floats.
//!
//! An integer counts as itself, `true` as one and `false` as zero. A
//! float has no exact value here, so every operation with a float among
//! its operands gives none.

use vstd::prelude::*;

use crate::ast::value::{Value, ValueView};

verus! {

/// Whether an integer can be held by a constant.
pub open spec fn fits(i: int) -> bool {
    i64::MIN <= i <= i64::MAX
}

/// The integer constant `i`, where a constant can hold it.
pub open spec fn integer(i: int) -> Option<ValueView> {
    if fits(i) {
        Some(ValueView::Integer(i))
    } else {
        None
    }
}

/// The remainder of a division that rounds towards zero: it has the sign
/// of the dividend and is smaller in magnitude than the divisor, which is
/// not zero.
pub open spec fn remainder(a: int, b: int) -> int {
    let magnitude = if b < 0 {
        -b
    } else {
        b
    };
    if a >= 0 {
        a % magnitude
    } else {
        -((-a) % magnitude)
    }
}

impl ValueView {
    /// The sum of two constants, where neither is a float and a constant
    /// can hold it.
    pub open spec fn plus(self, rhs: ValueView) -> Option<ValueView> {
        match (self.number(), rhs.number()) {
            (Some(a), Some(b)) => integer(a + b),
            _ => None,
        }
    }

    /// The difference of two constants, where neither is a float and a
    /// constant can hold it.
    pub open spec fn minus(self, rhs: ValueView) -> Option<ValueView> {
        match (self.number(), rhs.number()) {
            (Some(a), Some(b)) => integer(a - b),
            _ => None,
        }
    }

    /// The product of two constants, where neither is a float and a
    /// constant can hold it.
    pub open spec fn times(self, rhs: ValueView) -> Option<ValueView> {
        match (self.number(), rhs.number()) {
            (Some(a), Some(b)) => integer(a * b),
            _ => None,
        }
    }

    /// The remainder of one constant by another, where neither is a float
    /// and the second is not zero.
    pub open spec fn modulo(self, rhs: ValueView) -> Option<ValueView> {
        match (self.number(), rhs.number()) {
            (Some(a), Some(b)) => if b != 0 {
                Some(ValueView::Integer(remainder(a, b)))
            } else {
                None
            },
            _ => None,
        }
    }

    /// Whether two constants are the same number, where neither is a
    /// float.
    pub open spec fn equals(self, rhs: ValueView) -> Option<bool> {
        match (self.number(), rhs.number()) {
            (Some(a), Some(b)) => Some(a == b),
            _ => None,
        }
    }

    /// Whether the first constant is the smaller number, where neither is
    /// a float.
    pub open spec fn below(self, rhs: ValueView) -> Option<bool> {
        match (self.number(), rhs.number()) {
            (Some(a), Some(b)) => Some(a < b),
            _ => None,
        }
    }
}

/// What a function that computes a constant has to return.
pub open spec fn gives(r: Option<Value>, expected: Option<ValueView>) -> bool {
    match r {
        Some(value) => expected == Some(value@),
        None => expected is None,
    }
}

impl Value {
    /// The sum; see [`ValueView::plus`].
    pub fn checked_add(&self, rhs: &Value) -> (r: Option<Value>)
        ensures
            gives(r, self@.plus(rhs@)),
    {
        match (self.as_integer(), rhs.as_integer()) {
            (Some(a), Some(b)) => match a.checked_add(b) {
                Some(sum) => Some(Value::Integer(sum)),
                None => None,
            },
            _ => None,
        }
    }

    /// The difference; see [`ValueView::minus`].
    pub fn checked_sub(&self, rhs: &Value) -> (r: Option<Value>)
        ensures
            gives(r, self@.minus(rhs@)),
    {
        match (self.as_integer(), rhs.as_integer()) {
            (Some(a), Some(b)) => match a.checked_sub(b) {
                Some(difference) => Some(Value::Integer(difference)),
                None => None,
            },
            _ => None,
        }
    }

    /// The product; see [`ValueView::times`].
    pub fn checked_mul(&self, rhs: &Value) -> (r: Option<Value>)
        ensures
            gives(r, self@.times(rhs@)),
    {
        match (self.as_integer(), rhs.as_integer()) {
            (Some(a), Some(b)) => match a.checked_mul(b) {
                Some(product) => Some(Value::Integer(product)),
                None => None,
            },
            _ => None,
        }
    }

    /// The remainder; see [`ValueView::modulo`].
    pub fn checked_rem(&self, rhs: &Value) -> (r: Option<Value>)
        ensures
            gives(r, self@.modulo(rhs@)),
    {
        match (self.as_integer(), rhs.as_integer()) {
            (Some(a), Some(b)) => {
                if b == 0 {
                    None
                } else if b == -1 {
                    assert(remainder(a as int, b as int) == 0);
                    Some(Value::Integer(0))
                } else {
                    match a.checked_rem(b) {
                        Some(rest) => {
                            assert(rest == remainder(a as int, b as int));
                            Some(Value::Integer(rest))
                        },
                        None => {
                            proof {
                                lemma_remainder_is_small(a as int, b as int);
                            }
                            None
                        },
                    }
                }
            },
            _ => None,
        }
    }

    /// Whether the two are the same number; see [`ValueView::equals`].
    pub fn same_number(&self, other: &Value) -> (r: Option<bool>)
        ensures
            r == self@.equals(other@),
    {
        match (self.as_integer(), other.as_integer()) {
            (Some(a), Some(b)) => Some(a == b),
            _ => None,
        }
    }

    /// Whether this is the smaller number; see [`ValueView::below`].
    pub fn less_than(&self, other: &Value) -> (r: Option<bool>)
        ensures
            r == self@.below(other@),
    {
        match (self.as_integer(), other.as_integer()) {
            (Some(a), Some(b)) => Some(a < b),
            _ => None,
        }
    }
}

/// A remainder is smaller in magnitude than the divisor and than the
/// dividend is, and has the sign of the dividend.
pub proof fn lemma_remainder_is_small(a: int, b: int)
    requires
        b != 0,
    ensures
        a >= 0 ==> 0 <= remainder(a, b) <= a,
        a <= 0 ==> a <= remainder(a, b) <= 0,
        b > 0 ==> -b < remainder(a, b) < b,
        b < 0 ==> b < remainder(a, b) < -b,
{
    let magnitude = if b < 0 {
        -b
    } else {
        b
    };
    if a >= 0 {
        vstd::arithmetic::div_mod::lemma_mod_bound(a, magnitude);
        vstd::arithmetic::div_mod::lemma_mod_decreases(a as nat, magnitude as nat);
    } else {
        vstd::arithmetic::div_mod::lemma_mod_bound(-a, magnitude);
        vstd::arithmetic::div_mod::lemma_mod_decreases((-a) as nat, magnitude as nat);
    }
}

/// `true` counts as one and `false` as zero: in a sum, a difference, a
/// product, a remainder or a comparison, either can stand for the other.
pub proof fn law_booleans_count_as_numbers(other: ValueView)
    ensures
        ValueView::True.plus(other) == ValueView::Integer(1).plus(other),
        ValueView::False.plus(other) == ValueView::Integer(0).plus(other),
        other.minus(ValueView::True) == other.minus(ValueView::Integer(1)),
        other.minus(ValueView::False) == other.minus(ValueView::Integer(0)),
        ValueView::True.times(other) == ValueView::Integer(1).times(other),
        ValueView::False.times(other) == ValueView::Integer(0).times(other),
        other.modulo(ValueView::True) == other.modulo(ValueView::Integer(1)),
        ValueView::True.equals(other) == ValueView::Integer(1).equals(other),
        ValueView::False.equals(other) == ValueView::Integer(0).equals(other),
        ValueView::True.below(other) == ValueView::Integer(1).below(other),
        ValueView::False.below(other) == ValueView::Integer(0).below(other),
{
}

/// Of two constants that are no floats, exactly one of three holds: the
/// first is the smaller number, the two are the same number, or the
/// second is the smaller.
pub proof fn law_numbers_are_ordered(a: ValueView, b: ValueView)
    requires
        a.number() is Some,
        b.number() is Some,
    ensures
        a.below(b) == Some(true) || a.equals(b) == Some(true) || b.below(a) == Some(true),
        !(a.below(b) == Some(true) && a.equals(b) == Some(true)),
        !(a.below(b) == Some(true) && b.below(a) == Some(true)),
        !(a.equals(b) == Some(true) && b.below(a) == Some(true)),
{
}

} // verus!
