//! Integer 3-vectors.
//!
//! Executable geometry uses [`Vec3`] with `i64` coordinates.  Specifications
//! lift vectors to [`V3i`], whose coordinates are unbounded integers, so that
//! no specification-level operation can overflow.  Executable operations carry
//! explicit coordinate bounds in their contracts and compute wide products in
//! `i128`.

use vstd::prelude::*;
use crate::ratio::lemma_mul_bound;

verus! {

/// Executable point or vector in 3-space with integer coordinates.
#[derive(Clone, Copy, Debug, PartialEq, Eq, Structural)]
pub struct Vec3 {
    /// First coordinate.
    pub x: i64,
    /// Second coordinate.
    pub y: i64,
    /// Third coordinate.
    pub z: i64,
}

impl Vec3 {
    /// Construct a vector from its three coordinates.
    pub fn new(x: i64, y: i64, z: i64) -> (r: Vec3)
        ensures
            r == (Vec3 { x, y, z }),
    {
        Vec3 { x, y, z }
    }
}

impl View for Vec3 {
    type V = V3i;

    /// The specification-level value of this vector.
    open spec fn view(&self) -> V3i {
        V3i { x: self.x as int, y: self.y as int, z: self.z as int }
    }
}

/// Specification-level vector with unbounded integer coordinates.
pub struct V3i {
    /// First coordinate.
    pub x: int,
    /// Second coordinate.
    pub y: int,
    /// Third coordinate.
    pub z: int,
}

/// All three coordinates lie within `[-m, m]`.
pub open spec fn b3(v: V3i, m: int) -> bool {
    &&& -m <= v.x <= m
    &&& -m <= v.y <= m
    &&& -m <= v.z <= m
}

/// Coordinatewise difference.
pub open spec fn ssub(a: V3i, b: V3i) -> V3i {
    V3i { x: a.x - b.x, y: a.y - b.y, z: a.z - b.z }
}

/// Dot product.
pub open spec fn sdot(a: V3i, b: V3i) -> int {
    a.x * b.x + a.y * b.y + a.z * b.z
}

/// Cross product.
pub open spec fn scross(a: V3i, b: V3i) -> V3i {
    V3i {
        x: a.y * b.z - a.z * b.y,
        y: a.z * b.x - a.x * b.z,
        z: a.x * b.y - a.y * b.x,
    }
}

/// A dot product of bounded vectors is bounded.
pub proof fn lemma_dot_bound(a: V3i, b: V3i, ma: int, mb: int) by (nonlinear_arith)
    requires
        0 <= ma,
        0 <= mb,
        b3(a, ma),
        b3(b, mb),
    ensures
        -(3 * ma * mb) <= sdot(a, b) <= 3 * ma * mb,
{
}

/// A cross product of bounded vectors is bounded.
pub proof fn lemma_cross_bound(a: V3i, b: V3i, ma: int, mb: int) by (nonlinear_arith)
    requires
        0 <= ma,
        0 <= mb,
        b3(a, ma),
        b3(b, mb),
    ensures
        b3(scross(a, b), 2 * ma * mb),
{
}

/// Coordinate bound used by the executable cross product.
pub const CROSS_IN_MAX: i64 = 0x4000_0000;

/// Coordinate bound used by the executable dot product.
pub const DOT_IN_MAX: i64 = 0x100_0000_0000;

/// Coordinatewise difference of moderately sized vectors.
pub(crate) fn sub3(a: &Vec3, b: &Vec3) -> (r: Vec3)
    requires
        b3(a@, 0x1000_0000_0000_0000),
        b3(b@, 0x1000_0000_0000_0000),
    ensures
        r@ == ssub(a@, b@),
{
    Vec3 { x: a.x - b.x, y: a.y - b.y, z: a.z - b.z }
}

/// Dot product computed exactly in `i128`.
pub(crate) fn dot3(a: &Vec3, b: &Vec3) -> (r: i128)
    requires
        b3(a@, DOT_IN_MAX as int),
        b3(b@, DOT_IN_MAX as int),
    ensures
        r == sdot(a@, b@),
        -(3 * (DOT_IN_MAX as int) * (DOT_IN_MAX as int)) <= r
            <= 3 * (DOT_IN_MAX as int) * (DOT_IN_MAX as int),
{
    proof {
        let m = DOT_IN_MAX as int;
        lemma_mul_bound(a@.x, b@.x, m, m);
        lemma_mul_bound(a@.y, b@.y, m, m);
        lemma_mul_bound(a@.z, b@.z, m, m);
        assert(m * m == 0x1_0000_0000_0000_0000_0000) by (nonlinear_arith)
            requires m == 0x100_0000_0000;
    }
    (a.x as i128) * (b.x as i128) + (a.y as i128) * (b.y as i128) + (a.z as i128) * (b.z as i128)
}

/// Cross product; inputs small enough that each component fits `i64`.
pub(crate) fn cross3(a: &Vec3, b: &Vec3) -> (r: Vec3)
    requires
        b3(a@, CROSS_IN_MAX as int),
        b3(b@, CROSS_IN_MAX as int),
    ensures
        r@ == scross(a@, b@),
        b3(r@, 2 * (CROSS_IN_MAX as int) * (CROSS_IN_MAX as int)),
{
    proof {
        let m = CROSS_IN_MAX as int;
        lemma_mul_bound(a@.y, b@.z, m, m);
        lemma_mul_bound(a@.z, b@.y, m, m);
        lemma_mul_bound(a@.z, b@.x, m, m);
        lemma_mul_bound(a@.x, b@.z, m, m);
        lemma_mul_bound(a@.x, b@.y, m, m);
        lemma_mul_bound(a@.y, b@.x, m, m);
        assert(m * m == 0x1000_0000_0000_0000) by (nonlinear_arith)
            requires m == 0x4000_0000;
    }
    Vec3 {
        x: a.y * b.z - a.z * b.y,
        y: a.z * b.x - a.x * b.z,
        z: a.x * b.y - a.y * b.x,
    }
}

} // verus!
