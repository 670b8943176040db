//! Triangles, bounding-box gaps, and the exact triangle overlap test.
//!
//! Two closed triangles are disjoint exactly when some direction strictly
//! separates their projections.  For triangles of positive area a separating
//! direction, when one exists, is always found among: the coordinate axes,
//! the triangles' normals, the in-plane edge normals, the pairwise edge cross
//! products, and the pairwise vertex differences.  The overlap predicate is
//! defined as the absence of a strict separator in that family, and the
//! executable test mirrors it exactly.  For zero-area (degenerate) triangles
//! the family can miss a separator, so the predicate errs, conservatively, on
//! the side of overlap; degenerate input never causes a crash.

use vstd::prelude::*;
use crate::vec3::{
    b3, cross3, dot3, lemma_cross_bound, scross, sdot, ssub, sub3, V3i, Vec3,
};

verus! {

/// Bound on the coordinates of transformed (world-frame, scaled) vertices
/// accepted by the query engine; chosen so that every exact intermediate
/// value of the narrow phase fits the machine integers used to compute it.
pub const WORLD_MAX: i64 = 1024;

/// Bound that holds for every separating-axis candidate built from vertices
/// within the query envelope.
pub const AXIS_MAX: i64 = 0x10_0000_0000;

/// Executable triangle: three vertices in a consistent winding order.
#[derive(Clone, Copy, Debug, PartialEq, Eq, Structural)]
pub struct Triangle {
    /// First vertex.
    pub p0: Vec3,
    /// Second vertex.
    pub p1: Vec3,
    /// Third vertex.
    pub p2: Vec3,
}

/// Specification-level triangle over unbounded integer vertices.
pub struct STri {
    /// First vertex.
    pub a: V3i,
    /// Second vertex.
    pub b: V3i,
    /// Third vertex.
    pub c: V3i,
}

impl View for Triangle {
    type V = STri;

    open spec fn view(&self) -> STri {
        STri { a: self.p0@, b: self.p1@, c: self.p2@ }
    }
}

/// All vertex coordinates of `t` lie within `[-m, m]`.
pub open spec fn tri_in(t: STri, m: int) -> bool {
    &&& b3(t.a, m)
    &&& b3(t.b, m)
    &&& b3(t.c, m)
}

/// Smallest of three integers.
pub open spec fn smin3(a: int, b: int, c: int) -> int {
    if a <= b && a <= c {
        a
    } else if b <= c {
        b
    } else {
        c
    }
}

/// Largest of three integers.
pub open spec fn smax3(a: int, b: int, c: int) -> int {
    if a >= b && a >= c {
        a
    } else if b >= c {
        b
    } else {
        c
    }
}

/// The projections of `t1` and `t2` on direction `ax` are strictly separated.
pub open spec fn sep_axis(ax: V3i, t1: STri, t2: STri) -> bool {
    let lo1 = smin3(sdot(ax, t1.a), sdot(ax, t1.b), sdot(ax, t1.c));
    let hi1 = smax3(sdot(ax, t1.a), sdot(ax, t1.b), sdot(ax, t1.c));
    let lo2 = smin3(sdot(ax, t2.a), sdot(ax, t2.b), sdot(ax, t2.c));
    let hi2 = smax3(sdot(ax, t2.a), sdot(ax, t2.b), sdot(ax, t2.c));
    hi1 < lo2 || hi2 < lo1
}

/// Some direction of the candidate family anchored at `t1` separates the
/// two triangles: a coordinate axis, the normal of `t1`, an in-plane edge
/// normal of `t1` against either triangle's edges, an edge-edge cross
/// product, or a vertex difference.
pub open spec fn sep_dir(t1: STri, t2: STri) -> bool {
    let e10 = ssub(t1.b, t1.a);
    let e11 = ssub(t1.c, t1.b);
    let e12 = ssub(t1.a, t1.c);
    let e20 = ssub(t2.b, t2.a);
    let e21 = ssub(t2.c, t2.b);
    let e22 = ssub(t2.a, t2.c);
    let n1 = scross(e10, ssub(t1.c, t1.a));
    ||| sep_axis(V3i { x: 1, y: 0, z: 0 }, t1, t2)
    ||| sep_axis(V3i { x: 0, y: 1, z: 0 }, t1, t2)
    ||| sep_axis(V3i { x: 0, y: 0, z: 1 }, t1, t2)
    ||| sep_axis(n1, t1, t2)
    ||| sep_axis(scross(e10, n1), t1, t2)
    ||| sep_axis(scross(e11, n1), t1, t2)
    ||| sep_axis(scross(e12, n1), t1, t2)
    ||| sep_axis(scross(e20, n1), t1, t2)
    ||| sep_axis(scross(e21, n1), t1, t2)
    ||| sep_axis(scross(e22, n1), t1, t2)
    ||| sep_axis(scross(e10, e20), t1, t2)
    ||| sep_axis(scross(e10, e21), t1, t2)
    ||| sep_axis(scross(e10, e22), t1, t2)
    ||| sep_axis(scross(e11, e20), t1, t2)
    ||| sep_axis(scross(e11, e21), t1, t2)
    ||| sep_axis(scross(e11, e22), t1, t2)
    ||| sep_axis(scross(e12, e20), t1, t2)
    ||| sep_axis(scross(e12, e21), t1, t2)
    ||| sep_axis(scross(e12, e22), t1, t2)
    ||| sep_axis(ssub(t1.a, t2.a), t1, t2)
    ||| sep_axis(ssub(t1.a, t2.b), t1, t2)
    ||| sep_axis(ssub(t1.a, t2.c), t1, t2)
    ||| sep_axis(ssub(t1.b, t2.a), t1, t2)
    ||| sep_axis(ssub(t1.b, t2.b), t1, t2)
    ||| sep_axis(ssub(t1.b, t2.c), t1, t2)
    ||| sep_axis(ssub(t1.c, t2.a), t1, t2)
    ||| sep_axis(ssub(t1.c, t2.b), t1, t2)
    ||| sep_axis(ssub(t1.c, t2.c), t1, t2)
}

/// The triangles are strictly separated by some candidate direction.
pub open spec fn tri_disjoint(t1: STri, t2: STri) -> bool {
    sep_dir(t1, t2) || sep_dir(t2, t1)
}

/// The closed triangles share a point (no candidate direction separates
/// them); symmetric in its arguments by construction.
pub open spec fn tri_intersect(t1: STri, t2: STri) -> bool {
    !tri_disjoint(t1, t2)
}

/// Squared gap between the axis-aligned bounding boxes of two triangles:
/// the sum over the axes of the squared distance between the projection
/// intervals.  A lower bound for the squared distance between any point of
/// one box and any point of the other.
pub open spec fn box_gap2(t1: STri, t2: STri) -> int {
    let gx = axis_gap(
        smin3(t1.a.x, t1.b.x, t1.c.x), smax3(t1.a.x, t1.b.x, t1.c.x),
        smin3(t2.a.x, t2.b.x, t2.c.x), smax3(t2.a.x, t2.b.x, t2.c.x),
    );
    let gy = axis_gap(
        smin3(t1.a.y, t1.b.y, t1.c.y), smax3(t1.a.y, t1.b.y, t1.c.y),
        smin3(t2.a.y, t2.b.y, t2.c.y), smax3(t2.a.y, t2.b.y, t2.c.y),
    );
    let gz = axis_gap(
        smin3(t1.a.z, t1.b.z, t1.c.z), smax3(t1.a.z, t1.b.z, t1.c.z),
        smin3(t2.a.z, t2.b.z, t2.c.z), smax3(t2.a.z, t2.b.z, t2.c.z),
    );
    gx * gx + gy * gy + gz * gz
}

/// Distance between the intervals `[lo1, hi1]` and `[lo2, hi2]`, zero when
/// they meet.
pub open spec fn axis_gap(lo1: int, hi1: int, lo2: int, hi2: int) -> int {
    if lo2 > hi1 {
        lo2 - hi1
    } else if lo1 > hi2 {
        lo1 - hi2
    } else {
        0
    }
}

/// Smallest of three machine integers.
pub(crate) fn min3(a: i64, b: i64, c: i64) -> (r: i64)
    ensures
        r == smin3(a as int, b as int, c as int),
{
    if a <= b && a <= c {
        a
    } else if b <= c {
        b
    } else {
        c
    }
}

/// Largest of three machine integers.
pub(crate) fn max3(a: i64, b: i64, c: i64) -> (r: i64)
    ensures
        r == smax3(a as int, b as int, c as int),
{
    if a >= b && a >= c {
        a
    } else if b >= c {
        b
    } else {
        c
    }
}

/// Executable strict-separation test for one direction.
pub(crate) fn sep_axis_ex(ax: &Vec3, t1: &Triangle, t2: &Triangle) -> (r: bool)
    requires
        b3(ax@, AXIS_MAX as int),
        tri_in(t1@, WORLD_MAX as int),
        tri_in(t2@, WORLD_MAX as int),
    ensures
        r == sep_axis(ax@, t1@, t2@),
{
    let d1a = dot3(ax, &t1.p0);
    let d1b = dot3(ax, &t1.p1);
    let d1c = dot3(ax, &t1.p2);
    let d2a = dot3(ax, &t2.p0);
    let d2b = dot3(ax, &t2.p1);
    let d2c = dot3(ax, &t2.p2);
    let lo1 = min3_128(d1a, d1b, d1c);
    let hi1 = max3_128(d1a, d1b, d1c);
    let lo2 = min3_128(d2a, d2b, d2c);
    let hi2 = max3_128(d2a, d2b, d2c);
    hi1 < lo2 || hi2 < lo1
}

/// Smallest of three wide integers.
fn min3_128(a: i128, b: i128, c: i128) -> (r: i128)
    ensures
        r == smin3(a as int, b as int, c as int),
{
    if a <= b && a <= c {
        a
    } else if b <= c {
        b
    } else {
        c
    }
}

/// Largest of three wide integers.
fn max3_128(a: i128, b: i128, c: i128) -> (r: i128)
    ensures
        r == smax3(a as int, b as int, c as int),
{
    if a >= b && a >= c {
        a
    } else if b >= c {
        b
    } else {
        c
    }
}

/// Executable separation search over the candidate family anchored at `t1`.
pub(crate) fn sep_dir_ex(t1: &Triangle, t2: &Triangle) -> (r: bool)
    requires
        tri_in(t1@, WORLD_MAX as int),
        tri_in(t2@, WORLD_MAX as int),
    ensures
        r == sep_dir(t1@, t2@),
{
    let e10 = sub3(&t1.p1, &t1.p0);
    let e11 = sub3(&t1.p2, &t1.p1);
    let e12 = sub3(&t1.p0, &t1.p2);
    let e13 = sub3(&t1.p2, &t1.p0);
    let e20 = sub3(&t2.p1, &t2.p0);
    let e21 = sub3(&t2.p2, &t2.p1);
    let e22 = sub3(&t2.p0, &t2.p2);
    let n1 = cross3(&e10, &e13);
    proof {
        lemma_cross_bound(e10@, e13@, 2048, 2048);
        lemma_cross_bound(e10@, n1@, 2048, 0x80_0000);
        lemma_cross_bound(e11@, n1@, 2048, 0x80_0000);
        lemma_cross_bound(e12@, n1@, 2048, 0x80_0000);
        lemma_cross_bound(e20@, n1@, 2048, 0x80_0000);
        lemma_cross_bound(e21@, n1@, 2048, 0x80_0000);
        lemma_cross_bound(e22@, n1@, 2048, 0x80_0000);
        lemma_cross_bound(e10@, e20@, 2048, 2048);
        lemma_cross_bound(e10@, e21@, 2048, 2048);
        lemma_cross_bound(e10@, e22@, 2048, 2048);
        lemma_cross_bound(e11@, e20@, 2048, 2048);
        lemma_cross_bound(e11@, e21@, 2048, 2048);
        lemma_cross_bound(e11@, e22@, 2048, 2048);
        lemma_cross_bound(e12@, e20@, 2048, 2048);
        lemma_cross_bound(e12@, e21@, 2048, 2048);
        lemma_cross_bound(e12@, e22@, 2048, 2048);
    }
    sep_axis_ex(&Vec3 { x: 1, y: 0, z: 0 }, t1, t2)
    || sep_axis_ex(&Vec3 { x: 0, y: 1, z: 0 }, t1, t2)
    || sep_axis_ex(&Vec3 { x: 0, y: 0, z: 1 }, t1, t2)
    || sep_axis_ex(&n1, t1, t2)
    || sep_axis_ex(&cross3(&e10, &n1), t1, t2)
    || sep_axis_ex(&cross3(&e11, &n1), t1, t2)
    || sep_axis_ex(&cross3(&e12, &n1), t1, t2)
    || sep_axis_ex(&cross3(&e20, &n1), t1, t2)
    || sep_axis_ex(&cross3(&e21, &n1), t1, t2)
    || sep_axis_ex(&cross3(&e22, &n1), t1, t2)
    || sep_axis_ex(&cross3(&e10, &e20), t1, t2)
    || sep_axis_ex(&cross3(&e10, &e21), t1, t2)
    || sep_axis_ex(&cross3(&e10, &e22), t1, t2)
    || sep_axis_ex(&cross3(&e11, &e20), t1, t2)
    || sep_axis_ex(&cross3(&e11, &e21), t1, t2)
    || sep_axis_ex(&cross3(&e11, &e22), t1, t2)
    || sep_axis_ex(&cross3(&e12, &e20), t1, t2)
    || sep_axis_ex(&cross3(&e12, &e21), t1, t2)
    || sep_axis_ex(&cross3(&e12, &e22), t1, t2)
    || sep_axis_ex(&sub3(&t1.p0, &t2.p0), t1, t2)
    || sep_axis_ex(&sub3(&t1.p0, &t2.p1), t1, t2)
    || sep_axis_ex(&sub3(&t1.p0, &t2.p2), t1, t2)
    || sep_axis_ex(&sub3(&t1.p1, &t2.p0), t1, t2)
    || sep_axis_ex(&sub3(&t1.p1, &t2.p1), t1, t2)
    || sep_axis_ex(&sub3(&t1.p1, &t2.p2), t1, t2)
    || sep_axis_ex(&sub3(&t1.p2, &t2.p0), t1, t2)
    || sep_axis_ex(&sub3(&t1.p2, &t2.p1), t1, t2)
    || sep_axis_ex(&sub3(&t1.p2, &t2.p2), t1, t2)
}

/// Executable exact overlap test for two closed triangles.
pub(crate) fn tri_intersect_ex(t1: &Triangle, t2: &Triangle) -> (r: bool)
    requires
        tri_in(t1@, WORLD_MAX as int),
        tri_in(t2@, WORLD_MAX as int),
    ensures
        r == tri_intersect(t1@, t2@),
{
    !(sep_dir_ex(t1, t2) || sep_dir_ex(t2, t1))
}

/// Executable squared bounding-box gap.
pub(crate) fn box_gap2_ex(t1: &Triangle, t2: &Triangle) -> (r: i64)
    requires
        tri_in(t1@, WORLD_MAX as int),
        tri_in(t2@, WORLD_MAX as int),
    ensures
        r == box_gap2(t1@, t2@),
        0 <= r <= 0x120_0000,
{
    let gx = axis_gap_ex(
        min3(t1.p0.x, t1.p1.x, t1.p2.x), max3(t1.p0.x, t1.p1.x, t1.p2.x),
        min3(t2.p0.x, t2.p1.x, t2.p2.x), max3(t2.p0.x, t2.p1.x, t2.p2.x),
    );
    let gy = axis_gap_ex(
        min3(t1.p0.y, t1.p1.y, t1.p2.y), max3(t1.p0.y, t1.p1.y, t1.p2.y),
        min3(t2.p0.y, t2.p1.y, t2.p2.y), max3(t2.p0.y, t2.p1.y, t2.p2.y),
    );
    let gz = axis_gap_ex(
        min3(t1.p0.z, t1.p1.z, t1.p2.z), max3(t1.p0.z, t1.p1.z, t1.p2.z),
        min3(t2.p0.z, t2.p1.z, t2.p2.z), max3(t2.p0.z, t2.p1.z, t2.p2.z),
    );
    proof {
        crate::ratio::lemma_mul_bound(gx as int, gx as int, 2048, 2048);
        crate::ratio::lemma_mul_bound(gy as int, gy as int, 2048, 2048);
        crate::ratio::lemma_mul_bound(gz as int, gz as int, 2048, 2048);
        assert(gx as int * gx as int >= 0) by (nonlinear_arith);
        assert(gy as int * gy as int >= 0) by (nonlinear_arith);
        assert(gz as int * gz as int >= 0) by (nonlinear_arith);
    }
    gx * gx + gy * gy + gz * gz
}

/// Executable interval gap.
pub(crate) fn axis_gap_ex(lo1: i64, hi1: i64, lo2: i64, hi2: i64) -> (r: i64)
    requires
        -0x1000_0000 <= lo1 <= 0x1000_0000,
        -0x1000_0000 <= hi1 <= 0x1000_0000,
        -0x1000_0000 <= lo2 <= 0x1000_0000,
        -0x1000_0000 <= hi2 <= 0x1000_0000,
    ensures
        r == axis_gap(lo1 as int, hi1 as int, lo2 as int, hi2 as int),
        r >= 0,
{
    if lo2 > hi1 {
        lo2 - hi1
    } else if lo1 > hi2 {
        lo1 - hi2
    } else {
        0
    }
}

} // verus!
