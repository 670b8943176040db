//! Exact rotations and rigid placement.
//!
//! A [`Rotation`] is a 3x3 integer matrix `N` together with a positive
//! denominator `d`, standing for the orthonormal matrix `N / d`: its rows
//! are pairwise orthogonal, each of squared norm `d^2`, and its determinant
//! is `d^3` (a proper rotation, never a reflection).  All of this is checked
//! exactly in integers, so a well-formed value really is a rotation — the
//! identity, the axis-aligned quarter turns (`d = 1`), and Pythagorean
//! rotations such as one by `atan(3/4)` (`d = 5`) are all representable.
//!
//! Placing a model-local point `p` under rotation `N/d` and translation `t`
//! yields `(N p)/d + t`.  Queries compare two placed models; to stay in
//! integers both sides are scaled by the product of the two denominators,
//! which multiplies every distance by the same positive factor and is
//! divided back out of reported results.

use vstd::prelude::*;
use crate::ratio::lemma_mul_bound;
use crate::tri::{tri_in, STri, Triangle, WORLD_MAX};
use crate::vec3::{b3, dot3, lemma_dot_bound, scross, sdot, V3i, Vec3};

verus! {

/// Largest accepted rotation denominator.
pub const DEN_MAX: i64 = 32;

/// Largest magnitude of a model-local coordinate or translation component.
pub const MODEL_MAX: i64 = 0x10_0000;

/// Exact rotation: the orthonormal matrix with rows `r0/den`, `r1/den`,
/// `r2/den`.
#[derive(Clone, Copy, Debug, PartialEq, Eq, Structural)]
pub struct Rotation {
    /// First row of the scaled matrix.
    pub r0: Vec3,
    /// Second row of the scaled matrix.
    pub r1: Vec3,
    /// Third row of the scaled matrix.
    pub r2: Vec3,
    /// Common positive denominator of all entries.
    pub den: i64,
}

/// The exact orthonormality invariant of a rotation value.
pub open spec fn rot_wf(r: Rotation) -> bool {
    &&& 1 <= r.den <= DEN_MAX
    &&& sdot(r.r0@, r.r0@) == r.den * r.den
    &&& sdot(r.r1@, r.r1@) == r.den * r.den
    &&& sdot(r.r2@, r.r2@) == r.den * r.den
    &&& sdot(r.r0@, r.r1@) == 0
    &&& sdot(r.r0@, r.r2@) == 0
    &&& sdot(r.r1@, r.r2@) == 0
    &&& sdot(r.r0@, scross(r.r1@, r.r2@)) == r.den * r.den * r.den
}

/// Each entry of a row of squared norm `d^2` lies within `[-d, d]`.
proof fn lemma_row_entry_bound(v: V3i, d: int) by (nonlinear_arith)
    requires
        d >= 0,
        sdot(v, v) == d * d,
    ensures
        b3(v, d),
{
}

/// A well-formed rotation has all entries within `[-den, den]`.
pub proof fn lemma_rot_entries(r: Rotation)
    requires
        rot_wf(r),
    ensures
        b3(r.r0@, r.den as int),
        b3(r.r1@, r.den as int),
        b3(r.r2@, r.den as int),
{
    lemma_row_entry_bound(r.r0@, r.den as int);
    lemma_row_entry_bound(r.r1@, r.den as int);
    lemma_row_entry_bound(r.r2@, r.den as int);
}

impl Rotation {
    /// The identity rotation.
    pub fn identity() -> (r: Rotation)
        ensures
            rot_wf(r),
            r.den == 1,
            r.r0 == (Vec3 { x: 1, y: 0, z: 0 }),
            r.r1 == (Vec3 { x: 0, y: 1, z: 0 }),
            r.r2 == (Vec3 { x: 0, y: 0, z: 1 }),
    {
        Rotation {
            r0: Vec3 { x: 1, y: 0, z: 0 },
            r1: Vec3 { x: 0, y: 1, z: 0 },
            r2: Vec3 { x: 0, y: 0, z: 1 },
            den: 1,
        }
    }

    /// Build a rotation from three scaled rows and their denominator,
    /// checking the orthonormality invariant exactly; returns `None` if and
    /// only if the given values do not form a proper rotation within the
    /// accepted denominator range.
    pub fn new(r0: Vec3, r1: Vec3, r2: Vec3, den: i64) -> (res: Option<Rotation>)
        ensures
            res is Some <==> rot_wf(Rotation { r0, r1, r2, den }),
            res is Some ==> res->Some_0 == (Rotation { r0, r1, r2, den }),
    {
        let cand = Rotation { r0, r1, r2, den };
        if den < 1 || den > DEN_MAX {
            return None;
        }
        if !(in_row(&r0, den) && in_row(&r1, den) && in_row(&r2, den)) {
            proof {
                if rot_wf(cand) {
                    lemma_rot_entries(cand);
                }
            }
            return None;
        }
        proof {
            lemma_mul_bound(den as int, den as int, DEN_MAX as int, DEN_MAX as int);
        }
        let dd = den * den;
        let ok = dot3(&r0, &r0) == dd as i128 && dot3(&r1, &r1) == dd as i128
            && dot3(&r2, &r2) == dd as i128 && dot3(&r0, &r1) == 0 && dot3(&r0, &r2) == 0
            && dot3(&r1, &r2) == 0;
        if !ok {
            return None;
        }
        let c = crate::vec3::cross3(&r1, &r2);
        proof {
            crate::vec3::lemma_cross_bound(r1@, r2@, DEN_MAX as int, DEN_MAX as int);
        }
        let det = dot3(&r0, &c);
        proof {
            lemma_mul_bound(dd as int, den as int, 1024, DEN_MAX as int);
        }
        let ddd = (dd as i128) * (den as i128);
        if det == ddd {
            Some(cand)
        } else {
            None
        }
    }
}

/// All three components lie within `[-den, den]`.
fn in_row(v: &Vec3, den: i64) -> (r: bool)
    requires
        1 <= den <= DEN_MAX,
    ensures
        r == b3(v@, den as int),
{
    -den <= v.x && v.x <= den && -den <= v.y && v.y <= den && -den <= v.z && v.z <= den
}

/// Specification of scaled rigid placement: the image of model-local point
/// `p` under rotation `rot` and translation `t`, multiplied by
/// `other * rot.den` to stay in integers (`other` is the denominator of the
/// opposite model's rotation).
pub open spec fn place_pt(rot: Rotation, t: V3i, other: int, p: V3i) -> V3i {
    V3i {
        x: other * (sdot(rot.r0@, p) + rot.den * t.x),
        y: other * (sdot(rot.r1@, p) + rot.den * t.y),
        z: other * (sdot(rot.r2@, p) + rot.den * t.z),
    }
}

/// Scaled rigid placement of a whole triangle.
pub open spec fn place_tri(rot: Rotation, t: V3i, other: int, tri: STri) -> STri {
    STri {
        a: place_pt(rot, t, other, tri.a),
        b: place_pt(rot, t, other, tri.b),
        c: place_pt(rot, t, other, tri.c),
    }
}

/// Executable scaled rigid placement of one point.
pub(crate) fn place_pt_ex(rot: &Rotation, t: &Vec3, other: i64, p: &Vec3) -> (r: Vec3)
    requires
        rot_wf(*rot),
        1 <= other <= DEN_MAX as int,
        b3(t@, MODEL_MAX as int),
        b3(p@, MODEL_MAX as int),
    ensures
        r@ == place_pt(*rot, t@, other as int, p@),
{
    proof {
        lemma_rot_entries(*rot);
        lemma_dot_bound(rot.r0@, p@, DEN_MAX as int, MODEL_MAX as int);
        lemma_dot_bound(rot.r1@, p@, DEN_MAX as int, MODEL_MAX as int);
        lemma_dot_bound(rot.r2@, p@, DEN_MAX as int, MODEL_MAX as int);
        lemma_mul_bound(rot.den as int, t@.x, DEN_MAX as int, MODEL_MAX as int);
        lemma_mul_bound(rot.den as int, t@.y, DEN_MAX as int, MODEL_MAX as int);
        lemma_mul_bound(rot.den as int, t@.z, DEN_MAX as int, MODEL_MAX as int);
    }
    let sx = dot3(&rot.r0, p) + (rot.den as i128) * (t.x as i128);
    let sy = dot3(&rot.r1, p) + (rot.den as i128) * (t.y as i128);
    let sz = dot3(&rot.r2, p) + (rot.den as i128) * (t.z as i128);
    proof {
        lemma_mul_bound(other as int, sx as int, DEN_MAX as int, 0x800_0000);
        lemma_mul_bound(other as int, sy as int, DEN_MAX as int, 0x800_0000);
        lemma_mul_bound(other as int, sz as int, DEN_MAX as int, 0x800_0000);
    }
    Vec3 {
        x: ((other as i128) * sx) as i64,
        y: ((other as i128) * sy) as i64,
        z: ((other as i128) * sz) as i64,
    }
}

/// Executable scaled rigid placement of one triangle.
pub(crate) fn place_tri_ex(rot: &Rotation, t: &Vec3, other: i64, tri: &Triangle) -> (r: Triangle)
    requires
        rot_wf(*rot),
        1 <= other <= DEN_MAX as int,
        b3(t@, MODEL_MAX as int),
        tri_in(tri@, MODEL_MAX as int),
    ensures
        r@ == place_tri(*rot, t@, other as int, tri@),
{
    Triangle {
        p0: place_pt_ex(rot, t, other, &tri.p0),
        p1: place_pt_ex(rot, t, other, &tri.p1),
        p2: place_pt_ex(rot, t, other, &tri.p2),
    }
}

} // verus!
