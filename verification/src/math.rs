//! Integer helpers shared by the coordinate conversions.

use vstd::prelude::*;

verus! {

/// The quotient of truncating division, the one machine division computes.
pub open spec fn trunc_div(lhs: int, rhs: int) -> int
    recommends
        rhs != 0,
{
    if lhs >= 0 {
        if rhs > 0 {
            lhs / rhs
        } else {
            -(lhs / (-rhs))
        }
    } else {
        if rhs > 0 {
            -((-lhs) / rhs)
        } else {
            (-lhs) / (-rhs)
        }
    }
}

/// What `floor_div_i32` computes: the floor of `lhs / rhs` for a positive
/// divisor, and the same formula carried over to a negative one.
pub open spec fn floor_div(lhs: int, rhs: int) -> int
    recommends
        rhs != 0,
{
    if lhs < 0 {
        trunc_div(lhs + 1, rhs) - 1
    } else {
        trunc_div(lhs, rhs)
    }
}

/// For a positive divisor `floor_div` is the mathematical floor: the unique
/// `q` with `q * rhs <= lhs < (q + 1) * rhs`.
pub proof fn lemma_floor_div_is_floor(lhs: int, rhs: int)
    requires
        rhs > 0,
    ensures
        floor_div(lhs, rhs) == lhs / rhs,
        floor_div(lhs, rhs) * rhs <= lhs < (floor_div(lhs, rhs) + 1) * rhs,
{
    if lhs < 0 {
        let a = -(lhs + 1);
        assert(a >= 0);
        let q = a / rhs;
        let r = a % rhs;
        assert(a == rhs * q + r && 0 <= r < rhs) by {
            vstd::arithmetic::div_mod::lemma_fundamental_div_mod(a, rhs);
            vstd::arithmetic::div_mod::lemma_mod_bound(a, rhs);
        }
        // lhs = -a - 1 = rhs * (-q - 1) + (rhs - 1 - r)
        let q2 = -q - 1;
        let r2 = rhs - 1 - r;
        assert(lhs == q2 * rhs + r2) by (nonlinear_arith)
            requires
                a == rhs * q + r,
                lhs == -a - 1,
                q2 == -q - 1,
                r2 == rhs - 1 - r,
        ;
        assert(0 <= r2 < rhs);
        vstd::arithmetic::div_mod::lemma_fundamental_div_mod_converse(lhs, rhs, q2, r2);
        assert(floor_div(lhs, rhs) == q2);
        assert((q2 + 1) * rhs == q2 * rhs + rhs) by (nonlinear_arith);
    } else {
        vstd::arithmetic::div_mod::lemma_fundamental_div_mod(lhs, rhs);
        vstd::arithmetic::div_mod::lemma_mod_bound(lhs, rhs);
        let q = lhs / rhs;
        assert((q + 1) * rhs == q * rhs + rhs) by (nonlinear_arith);
        assert(rhs * q == q * rhs) by (nonlinear_arith);
    }
}

/// Division rounded toward negative infinity for a positive divisor.
pub fn floor_div_i32(lhs: i32, rhs: i32) -> (result: i32)
    requires
        rhs != 0,
    ensures
        result == floor_div(lhs as int, rhs as int),
        rhs > 0 ==> result == (lhs as int) / (rhs as int),
{
    proof {
        if rhs > 0 {
            lemma_floor_div_is_floor(lhs as int, rhs as int);
        }
    }
    let numerator: i64 = if lhs < 0 { lhs as i64 + 1 } else { lhs as i64 };
    let magnitude: i64 = if numerator < 0 { -numerator } else { numerator };
    let divisor: i64 = if rhs < 0 { -(rhs as i64) } else { rhs as i64 };
    let quotient: i64 = magnitude / divisor;
    assert(0 <= quotient <= magnitude) by {
        vstd::arithmetic::div_mod::lemma_div_pos_is_pos(magnitude as int, divisor as int);
        vstd::arithmetic::div_mod::lemma_div_is_ordered_by_denominator(magnitude as int, 1,
            divisor as int);
        vstd::arithmetic::div_mod::lemma_div_basics(magnitude as int);
    }
    let truncated: i64 = if (numerator < 0) != (rhs < 0) { -quotient } else { quotient };
    if lhs < 0 {
        (truncated - 1) as i32
    } else {
        truncated as i32
    }
}

/// `value` clamped into `[min, max]`; `min` wins when the bounds cross.
pub open spec fn clamp_spec(value: int, min: int, max: int) -> int {
    if value < min {
        min
    } else if value > max {
        max
    } else {
        value
    }
}

/// Values that can be held between two bounds.
pub trait Clamp1: Sized {
    /// `self` held between `min` and `max`; `min` wins when the bounds cross.
    spec fn clamp1_spec(self, min: Self, max: Self) -> Self;

    /// `self` held between `min` and `max`.
    fn clamp1(self, min: Self, max: Self) -> (result: Self)
        ensures
            result == self.clamp1_spec(min, max),
    ;
}

impl Clamp1 for usize {
    open spec fn clamp1_spec(self, min: usize, max: usize) -> usize {
        clamp_spec(self as int, min as int, max as int) as usize
    }

    fn clamp1(self, min: usize, max: usize) -> (result: usize) {
        if self < min {
            min
        } else if self > max {
            max
        } else {
            self
        }
    }
}

impl Clamp1 for i32 {
    open spec fn clamp1_spec(self, min: i32, max: i32) -> i32 {
        clamp_spec(self as int, min as int, max as int) as i32
    }

    fn clamp1(self, min: i32, max: i32) -> (result: i32) {
        if self < min {
            min
        } else if self > max {
            max
        } else {
            self
        }
    }
}

/// Values that can be multiplied by themselves.
pub trait Square: Sized {
    /// Whether the square can be held.
    spec fn can_square(self) -> bool;

    /// The square.
    spec fn square_spec(self) -> Self;

    /// `self` times `self`.
    fn square(self) -> (result: Self)
        requires
            self.can_square(),
        ensures
            result == self.square_spec(),
    ;
}

impl Square for i64 {
    open spec fn can_square(self) -> bool {
        i64::MIN <= self * self <= i64::MAX
    }

    open spec fn square_spec(self) -> i64 {
        (self * self) as i64
    }

    fn square(self) -> (result: i64) {
        self * self
    }
}

} // verus!
