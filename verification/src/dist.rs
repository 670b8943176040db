//! Exact squared distance between two triangles.
//!
//! Following the nearest-feature decomposition, the squared distance between
//! two disjoint closed triangles is the least of finitely many feature
//! distances: each vertex against each edge of the other triangle (which
//! covers vertex–vertex pairs through clamping), each vertex against the
//! other triangle's face when its normal projection falls inside, and each
//! pair of edges when the closest points of their lines fall inside both
//! segments.  Every candidate is the exact squared distance between a point
//! of one triangle and a point of the other, so the minimum never
//! underestimates the true separation, and the globally closest feature pair
//! is always among the candidates.  The candidate list is additionally
//! clamped from below by the squared gap of the triangles' bounding boxes,
//! which the gap can never exceed; this records the bound the traversal
//! prunes by.
//!
//! All conditions and values are computed exactly, mirroring the
//! specification formula for formula.

use vstd::prelude::*;
use crate::ratio::{
    lemma_mul_bound, rat_max, rat_min, rat_of_int, ratio_bounded, ratio_max, ratio_min, Rat,
    Ratio,
};
use crate::tri::{box_gap2, box_gap2_ex, tri_in, STri, Triangle, WORLD_MAX};
use crate::vec3::{b3, cross3, dot3, lemma_cross_bound, lemma_dot_bound, scross, sdot, ssub, sub3, V3i, Vec3};

verus! {

/// Exact squared distance from point `p` to the closed segment `[a, b]`,
/// by clamping the projection parameter of `p` onto the segment's line.
pub open spec fn seg_d2(p: V3i, a: V3i, b: V3i) -> Rat {
    let u = ssub(b, a);
    let w = ssub(p, a);
    let uu = sdot(u, u);
    let t = sdot(w, u);
    if uu <= 0 || t <= 0 {
        rat_of_int(sdot(w, w))
    } else if t >= uu {
        let w2 = ssub(p, b);
        rat_of_int(sdot(w2, w2))
    } else {
        Rat { num: sdot(w, w) * uu - t * t, den: uu }
    }
}

/// Squared distance from point `p` to the plane of `t`, taken as a candidate
/// only when the projection of `p` falls inside the triangle (checked by the
/// three in-plane edge normals); otherwise the nearest point lies on the
/// boundary, which the edge candidates cover, so an edge candidate is
/// returned unchanged.
pub open spec fn tri_plane_d2(p: V3i, t: STri) -> Rat {
    let e0 = ssub(t.b, t.a);
    let e1 = ssub(t.c, t.b);
    let e2 = ssub(t.a, t.c);
    let n = scross(e0, ssub(t.c, t.a));
    let nn = sdot(n, n);
    let c0 = sdot(scross(e0, n), ssub(p, t.a));
    let c1 = sdot(scross(e1, n), ssub(p, t.b));
    let c2 = sdot(scross(e2, n), ssub(p, t.c));
    if nn > 0 && c0 <= 0 && c1 <= 0 && c2 <= 0 {
        let d = sdot(ssub(p, t.a), n);
        Rat { num: d * d, den: nn }
    } else {
        seg_d2(p, t.a, t.b)
    }
}

/// Squared distance between the lines of segments `[a1, b1]` and `[a2, b2]`,
/// taken as a candidate only when the lines' closest points fall inside both
/// segments.  The denominator `uu*vv - uv^2` equals `|u x v|^2` (Lagrange's
/// identity), the squared norm of the common normal the numerator projects
/// onto.  Outside that case the nearest points involve a segment endpoint,
/// which the vertex-edge candidates cover, so one of those is returned
/// unchanged.
pub open spec fn edges_d2(a1: V3i, b1: V3i, a2: V3i, b2: V3i) -> Rat {
    let u = ssub(b1, a1);
    let v = ssub(b2, a2);
    let w0 = ssub(a1, a2);
    let uu = sdot(u, u);
    let vv = sdot(v, v);
    let uv = sdot(u, v);
    let du = sdot(w0, u);
    let dv = sdot(w0, v);
    let dd = uu * vv - uv * uv;
    let sn = uv * dv - vv * du;
    let tn = uu * dv - uv * du;
    if dd > 0 && 0 <= sn && sn <= dd && 0 <= tn && tn <= dd {
        let h = sdot(w0, scross(u, v));
        Rat { num: h * h, den: dd }
    } else {
        seg_d2(a1, a2, b2)
    }
}

/// Minimum over the full candidate family for the ordered pair, folded in a
/// fixed order: vertices of `t1` against edges of `t2`, vertices of `t2`
/// against edges of `t1`, vertices against opposite faces both ways, and the
/// nine edge pairs.
pub open spec fn pair_min_d2(t1: STri, t2: STri) -> Rat {
    let m01 = rat_min(seg_d2(t1.a, t2.a, t2.b), seg_d2(t1.a, t2.b, t2.c));
    let m02 = rat_min(m01, seg_d2(t1.a, t2.c, t2.a));
    let m03 = rat_min(m02, seg_d2(t1.b, t2.a, t2.b));
    let m04 = rat_min(m03, seg_d2(t1.b, t2.b, t2.c));
    let m05 = rat_min(m04, seg_d2(t1.b, t2.c, t2.a));
    let m06 = rat_min(m05, seg_d2(t1.c, t2.a, t2.b));
    let m07 = rat_min(m06, seg_d2(t1.c, t2.b, t2.c));
    let m08 = rat_min(m07, seg_d2(t1.c, t2.c, t2.a));
    let m09 = rat_min(m08, seg_d2(t2.a, t1.a, t1.b));
    let m10 = rat_min(m09, seg_d2(t2.a, t1.b, t1.c));
    let m11 = rat_min(m10, seg_d2(t2.a, t1.c, t1.a));
    let m12 = rat_min(m11, seg_d2(t2.b, t1.a, t1.b));
    let m13 = rat_min(m12, seg_d2(t2.b, t1.b, t1.c));
    let m14 = rat_min(m13, seg_d2(t2.b, t1.c, t1.a));
    let m15 = rat_min(m14, seg_d2(t2.c, t1.a, t1.b));
    let m16 = rat_min(m15, seg_d2(t2.c, t1.b, t1.c));
    let m17 = rat_min(m16, seg_d2(t2.c, t1.c, t1.a));
    let m18 = rat_min(m17, tri_plane_d2(t1.a, t2));
    let m19 = rat_min(m18, tri_plane_d2(t1.b, t2));
    let m20 = rat_min(m19, tri_plane_d2(t1.c, t2));
    let m21 = rat_min(m20, tri_plane_d2(t2.a, t1));
    let m22 = rat_min(m21, tri_plane_d2(t2.b, t1));
    let m23 = rat_min(m22, tri_plane_d2(t2.c, t1));
    let m24 = rat_min(m23, edges_d2(t1.a, t1.b, t2.a, t2.b));
    let m25 = rat_min(m24, edges_d2(t1.a, t1.b, t2.b, t2.c));
    let m26 = rat_min(m25, edges_d2(t1.a, t1.b, t2.c, t2.a));
    let m27 = rat_min(m26, edges_d2(t1.b, t1.c, t2.a, t2.b));
    let m28 = rat_min(m27, edges_d2(t1.b, t1.c, t2.b, t2.c));
    let m29 = rat_min(m28, edges_d2(t1.b, t1.c, t2.c, t2.a));
    let m30 = rat_min(m29, edges_d2(t1.c, t1.a, t2.a, t2.b));
    let m31 = rat_min(m30, edges_d2(t1.c, t1.a, t2.b, t2.c));
    let m32 = rat_min(m31, edges_d2(t1.c, t1.a, t2.c, t2.a));
    m32
}

/// Exact squared distance between two triangles of the candidate family,
/// never below the squared gap of their bounding boxes.
pub open spec fn pair_d2(t1: STri, t2: STri) -> Rat {
    rat_max(rat_of_int(box_gap2(t1, t2)), pair_min_d2(t1, t2))
}

/// Executable exact point-segment squared distance.
pub(crate) fn seg_d2_ex(p: &Vec3, a: &Vec3, b: &Vec3) -> (r: Ratio)
    requires
        b3(p@, WORLD_MAX as int),
        b3(a@, WORLD_MAX as int),
        b3(b@, WORLD_MAX as int),
    ensures
        r.as_rat() == seg_d2(p@, a@, b@),
        ratio_bounded(r),
{
    let u = sub3(b, a);
    let w = sub3(p, a);
    let uu = dot3(&u, &u);
    let t = dot3(&w, &u);
    proof {
        lemma_dot_bound(u@, u@, 2048, 2048);
        lemma_dot_bound(w@, u@, 2048, 2048);
        lemma_dot_bound(w@, w@, 2048, 2048);
    }
    if uu <= 0 || t <= 0 {
        Ratio { num: dot3(&w, &w), den: 1 }
    } else if t >= uu {
        let w2 = sub3(p, b);
        proof {
            lemma_dot_bound(w2@, w2@, 2048, 2048);
        }
        Ratio { num: dot3(&w2, &w2), den: 1 }
    } else {
        let ww = dot3(&w, &w);
        proof {
            lemma_mul_bound(ww as int, uu as int, 0xC0_0000, 0xC0_0000);
            lemma_mul_bound(t as int, t as int, 0xC0_0000, 0xC0_0000);
        }
        Ratio { num: ww * uu - t * t, den: uu }
    }
}

/// Executable exact vertex-face candidate.
pub(crate) fn tri_plane_d2_ex(p: &Vec3, t: &Triangle) -> (r: Ratio)
    requires
        b3(p@, WORLD_MAX as int),
        tri_in(t@, WORLD_MAX as int),
    ensures
        r.as_rat() == tri_plane_d2(p@, t@),
        ratio_bounded(r),
{
    let e0 = sub3(&t.p1, &t.p0);
    let e1 = sub3(&t.p2, &t.p1);
    let e2 = sub3(&t.p0, &t.p2);
    let ed = sub3(&t.p2, &t.p0);
    let n = cross3(&e0, &ed);
    proof {
        lemma_cross_bound(e0@, ed@, 2048, 2048);
        lemma_cross_bound(e0@, n@, 2048, 0x80_0000);
        lemma_cross_bound(e1@, n@, 2048, 0x80_0000);
        lemma_cross_bound(e2@, n@, 2048, 0x80_0000);
        lemma_dot_bound(n@, n@, 0x80_0000, 0x80_0000);
    }
    let nn = dot3(&n, &n);
    let m0 = cross3(&e0, &n);
    let m1 = cross3(&e1, &n);
    let m2 = cross3(&e2, &n);
    let c0 = dot3(&m0, &sub3(p, &t.p0));
    let c1 = dot3(&m1, &sub3(p, &t.p1));
    let c2 = dot3(&m2, &sub3(p, &t.p2));
    if nn > 0 && c0 <= 0 && c1 <= 0 && c2 <= 0 {
        let w = sub3(p, &t.p0);
        let d = dot3(&w, &n);
        proof {
            lemma_dot_bound(w@, n@, 2048, 0x80_0000);
            lemma_mul_bound(d as int, d as int, 0xC_0000_0000, 0xC_0000_0000);
        }
        Ratio { num: d * d, den: nn }
    } else {
        seg_d2_ex(p, &t.p0, &t.p1)
    }
}

/// Executable exact edge-edge candidate.
pub(crate) fn edges_d2_ex(a1: &Vec3, b1: &Vec3, a2: &Vec3, b2: &Vec3) -> (r: Ratio)
    requires
        b3(a1@, WORLD_MAX as int),
        b3(b1@, WORLD_MAX as int),
        b3(a2@, WORLD_MAX as int),
        b3(b2@, WORLD_MAX as int),
    ensures
        r.as_rat() == edges_d2(a1@, b1@, a2@, b2@),
        ratio_bounded(r),
{
    let u = sub3(b1, a1);
    let v = sub3(b2, a2);
    let w0 = sub3(a1, a2);
    let uu = dot3(&u, &u);
    let vv = dot3(&v, &v);
    let uv = dot3(&u, &v);
    let du = dot3(&w0, &u);
    let dv = dot3(&w0, &v);
    proof {
        lemma_dot_bound(u@, u@, 2048, 2048);
        lemma_dot_bound(v@, v@, 2048, 2048);
        lemma_dot_bound(u@, v@, 2048, 2048);
        lemma_dot_bound(w0@, u@, 2048, 2048);
        lemma_dot_bound(w0@, v@, 2048, 2048);
        lemma_mul_bound(uu as int, vv as int, 0xC0_0000, 0xC0_0000);
        lemma_mul_bound(uv as int, uv as int, 0xC0_0000, 0xC0_0000);
        lemma_mul_bound(uv as int, dv as int, 0xC0_0000, 0xC0_0000);
        lemma_mul_bound(vv as int, du as int, 0xC0_0000, 0xC0_0000);
        lemma_mul_bound(uu as int, dv as int, 0xC0_0000, 0xC0_0000);
        lemma_mul_bound(uv as int, du as int, 0xC0_0000, 0xC0_0000);
        assert(uv as int * uv as int >= 0) by (nonlinear_arith);
    }
    let dd = uu * vv - uv * uv;
    let sn = uv * dv - vv * du;
    let tn = uu * dv - uv * du;
    if dd > 0 && 0 <= sn && sn <= dd && 0 <= tn && tn <= dd {
        let cr = cross3(&u, &v);
        proof {
            lemma_cross_bound(u@, v@, 2048, 2048);
            lemma_dot_bound(w0@, cr@, 2048, 0x80_0000);
        }
        let h = dot3(&w0, &cr);
        proof {
            lemma_mul_bound(h as int, h as int, 0xC_0000_0000, 0xC_0000_0000);
        }
        Ratio { num: h * h, den: dd }
    } else {
        seg_d2_ex(a1, a2, b2)
    }
}

/// Executable exact candidate minimum for an ordered triangle pair.
pub(crate) fn pair_min_d2_ex(t1: &Triangle, t2: &Triangle) -> (r: Ratio)
    requires
        tri_in(t1@, WORLD_MAX as int),
        tri_in(t2@, WORLD_MAX as int),
    ensures
        r.as_rat() == pair_min_d2(t1@, t2@),
        ratio_bounded(r),
{
    let mut m = ratio_min(
        seg_d2_ex(&t1.p0, &t2.p0, &t2.p1),
        seg_d2_ex(&t1.p0, &t2.p1, &t2.p2),
    );
    m = ratio_min(m, seg_d2_ex(&t1.p0, &t2.p2, &t2.p0));
    m = ratio_min(m, seg_d2_ex(&t1.p1, &t2.p0, &t2.p1));
    m = ratio_min(m, seg_d2_ex(&t1.p1, &t2.p1, &t2.p2));
    m = ratio_min(m, seg_d2_ex(&t1.p1, &t2.p2, &t2.p0));
    m = ratio_min(m, seg_d2_ex(&t1.p2, &t2.p0, &t2.p1));
    m = ratio_min(m, seg_d2_ex(&t1.p2, &t2.p1, &t2.p2));
    m = ratio_min(m, seg_d2_ex(&t1.p2, &t2.p2, &t2.p0));
    m = ratio_min(m, seg_d2_ex(&t2.p0, &t1.p0, &t1.p1));
    m = ratio_min(m, seg_d2_ex(&t2.p0, &t1.p1, &t1.p2));
    m = ratio_min(m, seg_d2_ex(&t2.p0, &t1.p2, &t1.p0));
    m = ratio_min(m, seg_d2_ex(&t2.p1, &t1.p0, &t1.p1));
    m = ratio_min(m, seg_d2_ex(&t2.p1, &t1.p1, &t1.p2));
    m = ratio_min(m, seg_d2_ex(&t2.p1, &t1.p2, &t1.p0));
    m = ratio_min(m, seg_d2_ex(&t2.p2, &t1.p0, &t1.p1));
    m = ratio_min(m, seg_d2_ex(&t2.p2, &t1.p1, &t1.p2));
    m = ratio_min(m, seg_d2_ex(&t2.p2, &t1.p2, &t1.p0));
    m = ratio_min(m, tri_plane_d2_ex(&t1.p0, t2));
    m = ratio_min(m, tri_plane_d2_ex(&t1.p1, t2));
    m = ratio_min(m, tri_plane_d2_ex(&t1.p2, t2));
    m = ratio_min(m, tri_plane_d2_ex(&t2.p0, t1));
    m = ratio_min(m, tri_plane_d2_ex(&t2.p1, t1));
    m = ratio_min(m, tri_plane_d2_ex(&t2.p2, t1));
    m = ratio_min(m, edges_d2_ex(&t1.p0, &t1.p1, &t2.p0, &t2.p1));
    m = ratio_min(m, edges_d2_ex(&t1.p0, &t1.p1, &t2.p1, &t2.p2));
    m = ratio_min(m, edges_d2_ex(&t1.p0, &t1.p1, &t2.p2, &t2.p0));
    m = ratio_min(m, edges_d2_ex(&t1.p1, &t1.p2, &t2.p0, &t2.p1));
    m = ratio_min(m, edges_d2_ex(&t1.p1, &t1.p2, &t2.p1, &t2.p2));
    m = ratio_min(m, edges_d2_ex(&t1.p1, &t1.p2, &t2.p2, &t2.p0));
    m = ratio_min(m, edges_d2_ex(&t1.p2, &t1.p0, &t2.p0, &t2.p1));
    m = ratio_min(m, edges_d2_ex(&t1.p2, &t1.p0, &t2.p1, &t2.p2));
    m = ratio_min(m, edges_d2_ex(&t1.p2, &t1.p0, &t2.p2, &t2.p0));
    m
}

/// Executable exact pair squared distance, clamped by the bounding-box gap.
pub(crate) fn pair_d2_ex(t1: &Triangle, t2: &Triangle) -> (r: Ratio)
    requires
        tri_in(t1@, WORLD_MAX as int),
        tri_in(t2@, WORLD_MAX as int),
    ensures
        r.as_rat() == pair_d2(t1@, t2@),
        ratio_bounded(r),
{
    let g = box_gap2_ex(t1, t2);
    ratio_max(Ratio { num: g as i128, den: 1 }, pair_min_d2_ex(t1, t2))
}

} // verus!
