//! World-space vectors, in thousandths of a unit.
//!
//! Componentwise products and ratios are fixed-point: the result of a
//! multiplication is scaled back down by a thousand, the result of a
//! division is scaled up, so that the vectors behave like the fractional
//! quantities they stand for.

use crate::fixmath::{div_toward_zero, div_tz, lemma_div_toward_zero_bounds, sqrt_floor, MILLI};
use vstd::prelude::*;

verus! {

/// A 3D world position, in thousandths of a unit per axis.
#[derive(Debug, Clone, Copy, PartialEq)]
pub struct Vec3 {
    pub x: i64,
    pub y: i64,
    pub z: i64,
}

/// A 2D world position, in thousandths of a unit per axis.
#[derive(Debug, Clone, Copy, PartialEq)]
pub struct Vec2 {
    pub x: i64,
    pub y: i64,
}

/// The fixed-point componentwise ratio `a / b`, scaled by `MILLI` and
/// rounded toward zero.
pub open spec fn fix_ratio(a: int, b: int) -> int {
    if b >= 0 {
        div_toward_zero(a * (MILLI as int), b)
    } else {
        -div_toward_zero(a * (MILLI as int), -b)
    }
}

/// The fixed-point product `a * b`, scaled back down by `MILLI` and rounded
/// toward zero.
pub open spec fn fix_prod(a: int, b: int) -> int {
    if b >= 0 {
        div_toward_zero(a * b, MILLI as int)
    } else {
        -div_toward_zero(a * (-b), MILLI as int)
    }
}

/// Bound under which every fixed-point intermediate of this module fits its
/// machine type.
pub open spec fn coord_ok(v: i64) -> bool {
    -0x8000_0000 <= v <= 0x8000_0000
}

impl Vec3 {
    pub fn new(x: i64, y: i64, z: i64) -> (v: Vec3)
        ensures
            v == (Vec3 { x, y, z }),
    {
        Vec3 { x, y, z }
    }

    /// Drop the elevation component.
    pub fn to_vec2(&self) -> (v: Vec2)
        ensures
            v == (Vec2 { x: self.x, y: self.y }),
    {
        Vec2 { x: self.x, y: self.y }
    }

    /// Componentwise sum.
    pub fn add(self, other: Vec3) -> (v: Vec3)
        requires
            coord_ok(self.x) && coord_ok(self.y) && coord_ok(self.z),
            coord_ok(other.x) && coord_ok(other.y) && coord_ok(other.z),
        ensures
            v.x == self.x + other.x,
            v.y == self.y + other.y,
            v.z == self.z + other.z,
    {
        Vec3 { x: self.x + other.x, y: self.y + other.y, z: self.z + other.z }
    }

    /// Componentwise difference.
    pub fn sub(self, other: Vec3) -> (v: Vec3)
        requires
            coord_ok(self.x) && coord_ok(self.y) && coord_ok(self.z),
            coord_ok(other.x) && coord_ok(other.y) && coord_ok(other.z),
        ensures
            v.x == self.x - other.x,
            v.y == self.y - other.y,
            v.z == self.z - other.z,
    {
        Vec3 { x: self.x - other.x, y: self.y - other.y, z: self.z - other.z }
    }

    /// Componentwise fixed-point product.
    pub fn mul(self, other: Vec3) -> (v: Vec3)
        requires
            coord_ok(self.x) && coord_ok(self.y) && coord_ok(self.z),
            coord_ok(other.x) && coord_ok(other.y) && coord_ok(other.z),
        ensures
            v.x == fix_prod(self.x as int, other.x as int),
            v.y == fix_prod(self.y as int, other.y as int),
            v.z == fix_prod(self.z as int, other.z as int),
    {
        Vec3 {
            x: fix_prod_exec(self.x, other.x),
            y: fix_prod_exec(self.y, other.y),
            z: fix_prod_exec(self.z, other.z),
        }
    }

    /// Componentwise fixed-point ratio.
    pub fn div(self, other: Vec3) -> (v: Vec3)
        requires
            coord_ok(self.x) && coord_ok(self.y) && coord_ok(self.z),
            coord_ok(other.x) && coord_ok(other.y) && coord_ok(other.z),
            other.x != 0 && other.y != 0 && other.z != 0,
        ensures
            v.x == fix_ratio(self.x as int, other.x as int),
            v.y == fix_ratio(self.y as int, other.y as int),
            v.z == fix_ratio(self.z as int, other.z as int),
    {
        Vec3 {
            x: fix_ratio_exec(self.x, other.x),
            y: fix_ratio_exec(self.y, other.y),
            z: fix_ratio_exec(self.z, other.z),
        }
    }
}

impl Vec2 {
    pub fn new(x: i64, y: i64) -> (v: Vec2)
        ensures
            v == (Vec2 { x, y }),
    {
        Vec2 { x, y }
    }

    /// Raise into 3D space at the given elevation.
    pub fn to_vec3(&self, z: i64) -> (v: Vec3)
        ensures
            v == (Vec3 { x: self.x, y: self.y, z }),
    {
        Vec3 { x: self.x, y: self.y, z }
    }

    /// Euclidean distance to `other`, rounded down.
    pub fn distance(&self, other: &Vec2) -> (d: i64)
        requires
            coord_ok(self.x) && coord_ok(self.y),
            coord_ok(other.x) && coord_ok(other.y),
        ensures
            d == sqrt_floor(
                ((self.x - other.x) * (self.x - other.x) + (self.y - other.y) * (self.y
                    - other.y)) as nat,
            ),
    {
        let dx: i128 = self.x as i128 - other.x as i128;
        let dy: i128 = self.y as i128 - other.y as i128;
        proof {
            assert(dx * dx + dy * dy < 0x4_0000_0000_0000_0000 && dx * dx >= 0 && dy * dy >= 0)
                by (nonlinear_arith)
                requires
                    -0x1_0000_0001 < dx < 0x1_0000_0001,
                    -0x1_0000_0001 < dy < 0x1_0000_0001,
            {
            }
        }
        let d2: u128 = (dx * dx + dy * dy) as u128;
        let r: u64 = crate::fixmath::isqrt(d2);
        proof {
            crate::fixmath::lemma_sqrt_floor_bounds(d2 as nat);
            assert(sqrt_floor(d2 as nat) * sqrt_floor(d2 as nat) <= d2 as nat);
            assert(r as nat <= 0x2_0000_0000) by (nonlinear_arith)
                requires
                    (r as nat) * (r as nat) <= 0x4_0000_0000_0000_0000,
            {
            }
        }
        r as i64
    }

    /// Direction of `self`, as a fixed-point vector whose components are the
    /// ratios of each axis to the taxicab length of the whole.
    pub fn normalize(&self) -> (v: Vec2)
        requires
            coord_ok(self.x) && coord_ok(self.y),
            self.x != 0 || self.y != 0,
        ensures
            v.x == div_toward_zero(self.x * (MILLI as int), abs_spec(self.x) + abs_spec(self.y)),
            v.y == div_toward_zero(self.y * (MILLI as int), abs_spec(self.x) + abs_spec(self.y)),
    {
        let ax: i64 = if self.x >= 0 {
            self.x
        } else {
            -self.x
        };
        let ay: i64 = if self.y >= 0 {
            self.y
        } else {
            -self.y
        };
        let l1: i128 = ax as i128 + ay as i128;
        let nx: i128 = div_tz(self.x as i128 * MILLI as i128, l1);
        let ny: i128 = div_tz(self.y as i128 * MILLI as i128, l1);
        proof {
            lemma_div_toward_zero_bounds(self.x as int * MILLI as int, l1 as int);
            lemma_div_toward_zero_bounds(self.y as int * MILLI as int, l1 as int);
            assert(-0x8000_0000_0000i128 <= self.x as i128 * MILLI as i128 <= 0x8000_0000_0000i128
                && -0x8000_0000_0000i128 <= self.y as i128 * MILLI as i128
                    <= 0x8000_0000_0000i128) by (nonlinear_arith)
                requires
                    -0x8000_0000 <= self.x as i128 <= 0x8000_0000,
                    -0x8000_0000 <= self.y as i128 <= 0x8000_0000,
            {
            }
        }
        Vec2 { x: nx as i64, y: ny as i64 }
    }

    /// Componentwise sum.
    pub fn add(self, other: Vec2) -> (v: Vec2)
        requires
            coord_ok(self.x) && coord_ok(self.y),
            coord_ok(other.x) && coord_ok(other.y),
        ensures
            v.x == self.x + other.x,
            v.y == self.y + other.y,
    {
        Vec2 { x: self.x + other.x, y: self.y + other.y }
    }

    /// Componentwise difference.
    pub fn sub(self, other: Vec2) -> (v: Vec2)
        requires
            coord_ok(self.x) && coord_ok(self.y),
            coord_ok(other.x) && coord_ok(other.y),
        ensures
            v.x == self.x - other.x,
            v.y == self.y - other.y,
    {
        Vec2 { x: self.x - other.x, y: self.y - other.y }
    }

    /// Componentwise fixed-point product.
    pub fn mul(self, other: Vec2) -> (v: Vec2)
        requires
            coord_ok(self.x) && coord_ok(self.y),
            coord_ok(other.x) && coord_ok(other.y),
        ensures
            v.x == fix_prod(self.x as int, other.x as int),
            v.y == fix_prod(self.y as int, other.y as int),
    {
        Vec2 { x: fix_prod_exec(self.x, other.x), y: fix_prod_exec(self.y, other.y) }
    }

    /// Componentwise fixed-point ratio.
    pub fn div(self, other: Vec2) -> (v: Vec2)
        requires
            coord_ok(self.x) && coord_ok(self.y),
            coord_ok(other.x) && coord_ok(other.y),
            other.x != 0 && other.y != 0,
        ensures
            v.x == fix_ratio(self.x as int, other.x as int),
            v.y == fix_ratio(self.y as int, other.y as int),
    {
        Vec2 { x: fix_ratio_exec(self.x, other.x), y: fix_ratio_exec(self.y, other.y) }
    }
}

/// Magnitude of a scalar.
pub open spec fn abs_spec(v: i64) -> int {
    if v >= 0 {
        v as int
    } else {
        -(v as int)
    }
}

/// Fixed-point scalar ratio on machine words.
fn fix_ratio_exec(a: i64, b: i64) -> (r: i64)
    requires
        coord_ok(a),
        coord_ok(b),
        b != 0,
    ensures
        r == fix_ratio(a as int, b as int),
{
    proof {
        assert(-0x8000_0000_0000i128 <= a as i128 * MILLI as i128 <= 0x8000_0000_0000i128)
            by (nonlinear_arith)
            requires
                -0x8000_0000 <= a as i128 <= 0x8000_0000,
        {
        }
    }
    let num: i128 = a as i128 * MILLI as i128;
    if b >= 0 {
        let q: i128 = div_tz(num, b as i128);
        proof {
            lemma_div_toward_zero_bounds(num as int, b as int);
        }
        q as i64
    } else {
        let q: i128 = div_tz(num, -(b as i128));
        proof {
            lemma_div_toward_zero_bounds(num as int, -(b as int));
        }
        -(q as i64)
    }
}

/// Fixed-point scalar product on machine words.
fn fix_prod_exec(a: i64, b: i64) -> (r: i64)
    requires
        coord_ok(a),
        coord_ok(b),
    ensures
        r == fix_prod(a as int, b as int),
{
    proof {
        assert(-0x4000_0000_0000_0000i128 <= a as i128 * b as i128 <= 0x4000_0000_0000_0000i128
            && a as i128 * (-(b as i128)) == -(a as i128 * (b as i128))) by (nonlinear_arith)
            requires
                -0x8000_0000 <= a as i128 <= 0x8000_0000,
                -0x8000_0000 <= b as i128 <= 0x8000_0000,
        {
        }
    }
    if b >= 0 {
        let q: i128 = div_tz(a as i128 * b as i128, MILLI as i128);
        proof {
            lemma_div_toward_zero_bounds(a as int * b as int, MILLI as int);
        }
        q as i64
    } else {
        let q: i128 = div_tz(a as i128 * (-(b as i128)), MILLI as i128);
        proof {
            lemma_div_toward_zero_bounds(a as int * (-(b as int)), MILLI as int);
        }
        -(q as i64)
    }
}

} // verus!
