//! Fixed-point 3D vectors and the exact arithmetic the sampler relies on.

use vstd::prelude::*;

verus! {

/// Mathematical model of a 3D point: unbounded integer components.
pub ghost struct GVec3 {
    pub x: int,
    pub y: int,
    pub z: int,
}

/// A 3D point in fixed-point integer units.
#[derive(Debug, Clone, Copy, PartialEq, Eq, Structural)]
pub struct Vec3Fixed {
    pub x: i64,
    pub y: i64,
    pub z: i64,
}

impl View for Vec3Fixed {
    type V = GVec3;

    open spec fn view(&self) -> GVec3 {
        GVec3 { x: self.x as int, y: self.y as int, z: self.z as int }
    }
}

pub open spec fn gv_zero() -> GVec3 {
    GVec3 { x: 0, y: 0, z: 0 }
}

pub open spec fn gv_plus(a: GVec3, b: GVec3) -> GVec3 {
    GVec3 { x: a.x + b.x, y: a.y + b.y, z: a.z + b.z }
}

/// Every component of `v` lies within `[-m, m]`.
pub open spec fn gv_bounded(v: GVec3, m: int) -> bool {
    &&& -m <= v.x <= m
    &&& -m <= v.y <= m
    &&& -m <= v.z <= m
}

/// Truncating division, the rounding used for the center-of-gravity average:
/// the exact quotient rounded toward zero.
pub open spec fn div_trunc(a: int, b: int) -> int
    recommends
        b > 0,
{
    if a >= 0 {
        a / b
    } else {
        -((-a) / b)
    }
}

/// Component-wise truncating division of a point by a positive count.
pub open spec fn gv_div(v: GVec3, n: int) -> GVec3
    recommends
        n > 0,
{
    GVec3 { x: div_trunc(v.x, n), y: div_trunc(v.y, n), z: div_trunc(v.z, n) }
}

impl Vec3Fixed {
    pub fn zero() -> (r: Self)
        ensures
            r@ == gv_zero(),
    {
        Vec3Fixed { x: 0, y: 0, z: 0 }
    }

    pub fn plus(self, other: Self) -> (r: Self)
        requires
            i64::MIN <= self.x + other.x <= i64::MAX,
            i64::MIN <= self.y + other.y <= i64::MAX,
            i64::MIN <= self.z + other.z <= i64::MAX,
        ensures
            r@ == gv_plus(self@, other@),
    {
        Vec3Fixed { x: self.x + other.x, y: self.y + other.y, z: self.z + other.z }
    }
}

/// Truncating division of one signed component by a positive count.
pub fn div_component(a: i64, b: u64) -> (r: i64)
    requires
        b >= 1,
        -0x7FFF_FFFF_FFFF_FFFF <= a,
    ensures
        r as int == div_trunc(a as int, b as int),
{
    if a >= 0 {
        let q: u64 = (a as u64) / b;
        q as i64
    } else {
        let neg: u64 = (-a) as u64;
        let q: u64 = neg / b;
        proof {
            assert(q <= neg) by {
                vstd::arithmetic::div_mod::lemma_div_is_ordered_by_denominator(
                    neg as int, 1, b as int);
            }
        }
        -(q as i64)
    }
}

/// Component-wise truncating division of a point by a positive count.
pub fn vec3_div(v: Vec3Fixed, n: u64) -> (r: Vec3Fixed)
    requires
        n >= 1,
        gv_bounded(v@, 0x7FFF_FFFF_FFFF_FFFF),
    ensures
        r@ == gv_div(v@, n as int),
{
    Vec3Fixed {
        x: div_component(v.x, n),
        y: div_component(v.y, n),
        z: div_component(v.z, n),
    }
}

} // verus!
