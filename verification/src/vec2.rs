//! Integer 2-D vectors: tile, grid and map-click coordinates.

use vstd::prelude::*;
use crate::math::{floor_div, floor_div_i32};

verus! {

/// A pair of `i32` coordinates.
#[derive(Clone, Copy, Debug, PartialEq, Eq, Structural, PartialOrd, Ord, Hash)]
pub struct Vec2i {
    pub x: i32,
    pub y: i32,
}

/// Whether `v` can be held in an `i32`.
pub open spec fn fits_i32(v: int) -> bool {
    i32::MIN <= v <= i32::MAX
}

/// `-1`, `0` or `1` by the sign of `v`.
pub open spec fn signum_spec(v: int) -> int {
    if v > 0 {
        1
    } else if v < 0 {
        -1
    } else {
        0
    }
}

/// The absolute value of `v`.
pub open spec fn abs_spec(v: int) -> int {
    if v < 0 {
        -v
    } else {
        v
    }
}

impl Vec2i {
    pub fn new(x: i32, y: i32) -> (result: Vec2i)
        ensures
            result == (Vec2i { x, y }),
    {
        Vec2i { x, y }
    }

    pub fn zero() -> (result: Vec2i)
        ensures
            result == (Vec2i { x: 0, y: 0 }),
    {
        Vec2i { x: 0, y: 0 }
    }

    pub fn x(&self) -> (result: i32)
        ensures
            result == self.x,
    {
        self.x
    }

    pub fn y(&self) -> (result: i32)
        ensures
            result == self.y,
    {
        self.y
    }

    pub fn only_x(x: i32) -> (result: Vec2i)
        ensures
            result == (Vec2i { x, y: 0 }),
    {
        Vec2i { x, y: 0 }
    }

    pub fn only_y(y: i32) -> (result: Vec2i)
        ensures
            result == (Vec2i { x: 0, y }),
    {
        Vec2i { x: 0, y }
    }

    pub fn add_x(&mut self, x: i32)
        requires
            fits_i32(old(self).x + x),
        ensures
            final(self).x == old(self).x + x,
            final(self).y == old(self).y,
    {
        self.x = self.x + x;
    }

    pub fn add_y(&mut self, y: i32)
        requires
            fits_i32(old(self).y + y),
        ensures
            final(self).x == old(self).x,
            final(self).y == old(self).y + y,
    {
        self.y = self.y + y;
    }

    pub fn with_x(&self, x: i32) -> (result: Vec2i)
        ensures
            result == (Vec2i { x, y: self.y }),
    {
        Vec2i { x, y: self.y }
    }

    pub fn with_y(&self, y: i32) -> (result: Vec2i)
        ensures
            result == (Vec2i { x: self.x, y }),
    {
        Vec2i { x: self.x, y }
    }

    /// Both coordinates divided by `value`, rounded toward negative infinity.
    pub open spec fn floor_div_spec(self, value: int) -> Vec2i {
        Vec2i { x: floor_div(self.x as int, value) as i32, y: floor_div(self.y as int, value) as i32 }
    }

    pub fn floor_div_i32(&self, value: i32) -> (result: Vec2i)
        requires
            value != 0,
        ensures
            result == self.floor_div_spec(value as int),
            result.x == floor_div(self.x as int, value as int),
            result.y == floor_div(self.y as int, value as int),
    {
        Vec2i { x: floor_div_i32(self.x, value), y: floor_div_i32(self.y, value) }
    }

    /// The vector of the signs of both coordinates.
    pub open spec fn signum_vec(self) -> Vec2i {
        Vec2i { x: signum_spec(self.x as int) as i32, y: signum_spec(self.y as int) as i32 }
    }

    pub fn signum(&self) -> (result: Vec2i)
        ensures
            result == self.signum_vec(),
    {
        let sx: i32 = if self.x > 0 { 1 } else if self.x < 0 { -1 } else { 0 };
        let sy: i32 = if self.y > 0 { 1 } else if self.y < 0 { -1 } else { 0 };
        Vec2i { x: sx, y: sy }
    }

    /// `|x| + |y|`.
    pub open spec fn manhattan_spec(self) -> int {
        abs_spec(self.x as int) + abs_spec(self.y as int)
    }

    pub fn manhattan(&self) -> (result: i32)
        requires
            fits_i32(self.manhattan_spec()),
        ensures
            result == self.manhattan_spec(),
    {
        let ax: i64 = if self.x < 0 { -(self.x as i64) } else { self.x as i64 };
        let ay: i64 = if self.y < 0 { -(self.y as i64) } else { self.y as i64 };
        (ax + ay) as i32
    }

    /// The sum with both coordinates taken modulo `2^32`.
    pub open spec fn wrapping_add_spec(self, rhs: Vec2i) -> Vec2i {
        Vec2i {
            x: vstd::wrapping::i32_specs::wrapping_add(self.x, rhs.x),
            y: vstd::wrapping::i32_specs::wrapping_add(self.y, rhs.y),
        }
    }

    /// The difference with both coordinates taken modulo `2^32`.
    pub open spec fn wrapping_sub_spec(self, rhs: Vec2i) -> Vec2i {
        Vec2i {
            x: vstd::wrapping::i32_specs::wrapping_sub(self.x, rhs.x),
            y: vstd::wrapping::i32_specs::wrapping_sub(self.y, rhs.y),
        }
    }

    /// Adds coordinate-wise, wrapping around at the ends of `i32`.
    pub fn wrapping_add(self, rhs: Vec2i) -> (result: Vec2i)
        ensures
            result == self.wrapping_add_spec(rhs),
            fits_i32(self.x + rhs.x) ==> result.x == self.x + rhs.x,
            fits_i32(self.y + rhs.y) ==> result.y == self.y + rhs.y,
    {
        Vec2i { x: self.x.wrapping_add(rhs.x), y: self.y.wrapping_add(rhs.y) }
    }

    /// Subtracts coordinate-wise, wrapping around at the ends of `i32`.
    pub fn wrapping_sub(self, rhs: Vec2i) -> (result: Vec2i)
        ensures
            result == self.wrapping_sub_spec(rhs),
            fits_i32(self.x - rhs.x) ==> result.x == self.x - rhs.x,
            fits_i32(self.y - rhs.y) ==> result.y == self.y - rhs.y,
    {
        Vec2i { x: self.x.wrapping_sub(rhs.x), y: self.y.wrapping_sub(rhs.y) }
    }
}

/// Wrapping addition and subtraction undo each other.
pub proof fn lemma_wrapping_add_sub_inverse(a: Vec2i, b: Vec2i)
    ensures
        a.wrapping_add_spec(b).wrapping_sub_spec(b) == a,
        a.wrapping_sub_spec(b).wrapping_add_spec(b) == a,
{
}

/// Shifting by a fixed vector never maps two positions onto one.
pub proof fn lemma_wrapping_add_injective(a: Vec2i, b: Vec2i, shift: Vec2i)
    requires
        a.wrapping_add_spec(shift) == b.wrapping_add_spec(shift),
    ensures
        a == b,
{
    lemma_wrapping_add_sub_inverse(a, shift);
    lemma_wrapping_add_sub_inverse(b, shift);
}

/// Counted from another origin, the difference of two positions taken from
/// one origin tells where the first lies from the second: `(b - o) - (b -
/// n) == n - o`, all modulo `2^32`.
pub proof fn lemma_wrapping_base(b: Vec2i, o: Vec2i, n: Vec2i)
    ensures
        b.wrapping_sub_spec(o).wrapping_sub_spec(b.wrapping_sub_spec(n)) == n.wrapping_sub_spec(o),
{
}

/// A position counted from the origin `s` and shifted by what leads from
/// `s` to the origin `t` is the position counted from `t`: `(p - s) + (((n
/// - t) + (q - n)) - (q - s)) == p - t`, all modulo `2^32`.
pub proof fn lemma_wrapping_shift(p: Vec2i, s: Vec2i, q: Vec2i, n: Vec2i, t: Vec2i)
    ensures
        p.wrapping_sub_spec(s).wrapping_add_spec(
            n.wrapping_sub_spec(t).wrapping_add_spec(q.wrapping_sub_spec(n)).wrapping_sub_spec(
                q.wrapping_sub_spec(s),
            ),
        ) == p.wrapping_sub_spec(t),
{
}

/// Two positions that lie alike from one origin are one position.
pub proof fn lemma_wrapping_sub_injective(a: Vec2i, b: Vec2i, o: Vec2i)
    requires
        a.wrapping_sub_spec(o) == b.wrapping_sub_spec(o),
    ensures
        a == b,
{
}

impl Default for Vec2i {
    fn default() -> (result: Vec2i)
        ensures
            result == (Vec2i { x: 0, y: 0 }),
    {
        Vec2i { x: 0, y: 0 }
    }
}

impl vstd::std_specs::ops::AddSpecImpl for Vec2i {
    open spec fn obeys_add_spec() -> bool {
        true
    }

    open spec fn add_req(self, rhs: Vec2i) -> bool {
        fits_i32(self.x + rhs.x) && fits_i32(self.y + rhs.y)
    }

    open spec fn add_spec(self, rhs: Vec2i) -> Vec2i {
        Vec2i { x: (self.x + rhs.x) as i32, y: (self.y + rhs.y) as i32 }
    }
}

impl core::ops::Add for Vec2i {
    type Output = Vec2i;

    fn add(self, rhs: Vec2i) -> (result: Vec2i) {
        Vec2i { x: self.x + rhs.x, y: self.y + rhs.y }
    }
}

impl vstd::std_specs::ops::SubSpecImpl for Vec2i {
    open spec fn obeys_sub_spec() -> bool {
        true
    }

    open spec fn sub_req(self, rhs: Vec2i) -> bool {
        fits_i32(self.x - rhs.x) && fits_i32(self.y - rhs.y)
    }

    open spec fn sub_spec(self, rhs: Vec2i) -> Vec2i {
        Vec2i { x: (self.x - rhs.x) as i32, y: (self.y - rhs.y) as i32 }
    }
}

impl core::ops::Sub for Vec2i {
    type Output = Vec2i;

    fn sub(self, rhs: Vec2i) -> (result: Vec2i) {
        Vec2i { x: self.x - rhs.x, y: self.y - rhs.y }
    }
}

impl vstd::std_specs::ops::MulSpecImpl<i32> for Vec2i {
    open spec fn obeys_mul_spec() -> bool {
        true
    }

    open spec fn mul_req(self, rhs: i32) -> bool {
        fits_i32(self.x * rhs) && fits_i32(self.y * rhs)
    }

    open spec fn mul_spec(self, rhs: i32) -> Vec2i {
        Vec2i { x: (self.x * rhs) as i32, y: (self.y * rhs) as i32 }
    }
}

impl core::ops::Mul<i32> for Vec2i {
    type Output = Vec2i;

    fn mul(self, rhs: i32) -> (result: Vec2i) {
        Vec2i { x: self.x * rhs, y: self.y * rhs }
    }
}

impl vstd::std_specs::ops::MulSpecImpl for Vec2i {
    open spec fn obeys_mul_spec() -> bool {
        true
    }

    open spec fn mul_req(self, rhs: Vec2i) -> bool {
        fits_i32(self.x * rhs.x) && fits_i32(self.y * rhs.y)
    }

    open spec fn mul_spec(self, rhs: Vec2i) -> Vec2i {
        Vec2i { x: (self.x * rhs.x) as i32, y: (self.y * rhs.y) as i32 }
    }
}

impl core::ops::Mul for Vec2i {
    type Output = Vec2i;

    fn mul(self, rhs: Vec2i) -> (result: Vec2i) {
        Vec2i { x: self.x * rhs.x, y: self.y * rhs.y }
    }
}

} // verus!
