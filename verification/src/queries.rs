//! Collision and distance queries over two placed models.
//!
//! Both queries descend the two models' bounding-volume hierarchies
//! simultaneously.  Each visited node's model-local box is carried into the
//! shared (scaled) world frame by exact interval arithmetic and clamped to
//! the query envelope; a node pair whose world boxes are strictly separated
//! on a coordinate axis can contain no overlapping triangle pair and, for
//! distance, no pair closer than the boxes' squared gap, so the pair is
//! pruned.  Pruning is conservative and proved sound: the collision result
//! equals the exact pairwise overlap predicate, and the distance result is
//! exactly the minimum pairwise squared distance.

use vstd::prelude::*;
use crate::dist::{pair_d2, pair_d2_ex};
use crate::model::{in_box, lemma_node_covers, node_wf, BvhNode, Model};
use crate::ratio::{
    lemma_mul_bound, lemma_rat_le_trans, rat_eq, rat_le, rat_of_int, rat_wf,
    ratio_bounded, ratio_le, ratio_min, Rat, Ratio,
};
use crate::rot::{place_pt, place_tri, place_tri_ex, rot_wf, Rotation, DEN_MAX, MODEL_MAX};
use crate::tri::{
    axis_gap, box_gap2, sep_axis, sep_dir, smax3, smin3, tri_in, tri_intersect, tri_intersect_ex,
    Triangle, STri, WORLD_MAX,
};
use crate::vec3::{b3, sdot, V3i, Vec3};

verus! {

/// Every triangle of `m`, placed under `rot` and `t` and scaled by `other`,
/// stays within the query envelope `[-WORLD_MAX, WORLD_MAX]` — the
/// precondition under which all narrow-phase arithmetic is exact.
pub open spec fn placed_in_env(m: Seq<Triangle>, rot: Rotation, t: Vec3, other: int) -> bool {
    forall |i: int| 0 <= i < m.len() ==> tri_in(
        #[trigger] place_tri(rot, t@, other, m[i]@),
        WORLD_MAX as int,
    )
}

/// Two placed models overlap: some triangle of one intersects some triangle
/// of the other in the shared world frame.
pub open spec fn models_collide(
    a: Seq<Triangle>, ra: Rotation, ta: Vec3,
    b: Seq<Triangle>, rb: Rotation, tb: Vec3,
) -> bool {
    rect_intersects(
        a, ra, ta, rb.den as int,
        b, rb, tb, ra.den as int,
        0, a.len() as int, 0, b.len() as int,
    )
}

/// `e * x` lies between `e * a` and `e * b` whenever `x` lies in `[a, b]`.
proof fn lemma_mono_mul(e: int, a: int, b: int, x: int) by (nonlinear_arith)
    requires
        a <= x <= b,
    ensures
        e * x <= e * a || e * x <= e * b,
        e * a <= e * x || e * b <= e * x,
{
}

/// Multiplying by a positive factor preserves order.
proof fn lemma_pos_scale(s: int, x: int, y: int) by (nonlinear_arith)
    requires
        s > 0,
        x <= y,
    ensures
        s * x <= s * y,
{
}

/// Product of a rotation entry and a model coordinate.
fn mul_entry(e: i64, c: i64) -> (r: i64)
    requires
        -DEN_MAX <= e <= DEN_MAX,
        -MODEL_MAX <= c <= MODEL_MAX,
    ensures
        r == e * c,
        -0x200_0000 <= r <= 0x200_0000,
{
    proof {
        lemma_mul_bound(e as int, c as int, DEN_MAX as int, MODEL_MAX as int);
    }
    e * c
}

/// Smaller of two machine integers.
fn imin(a: i64, b: i64) -> (r: i64)
    ensures
        r == if a <= b { a } else { b },
{
    if a <= b { a } else { b }
}

/// Larger of two machine integers.
fn imax(a: i64, b: i64) -> (r: i64)
    ensures
        r == if a >= b { a } else { b },
{
    if a >= b { a } else { b }
}

/// Exact range of one world coordinate (the row-`row` component) of the
/// placement image of the box `[lo, hi]`, clamped to the query envelope.
fn world_axis_range(row: &Vec3, den: i64, tc: i64, other: i64, lo: &Vec3, hi: &Vec3) -> (r: (
    i64,
    i64,
))
    requires
        rot_row_ok(*row),
        1 <= den <= DEN_MAX,
        1 <= other <= DEN_MAX,
        -MODEL_MAX <= tc <= MODEL_MAX,
        b3(lo@, MODEL_MAX as int),
        b3(hi@, MODEL_MAX as int),
    ensures
        -WORLD_MAX <= r.0 <= WORLD_MAX,
        -WORLD_MAX <= r.1 <= WORLD_MAX,
        forall |p: V3i| in_box(lo@, hi@, p) ==> {
            let w = (other as int) * (sdot(row@, p) + den * tc);
            (-WORLD_MAX <= w <= WORLD_MAX ==> r.0 <= w <= r.1)
        },
{
    let xl = mul_entry(row.x, lo.x);
    let xh = mul_entry(row.x, hi.x);
    let yl = mul_entry(row.y, lo.y);
    let yh = mul_entry(row.y, hi.y);
    let zl = mul_entry(row.z, lo.z);
    let zh = mul_entry(row.z, hi.z);
    let tt = mul_entry(den, tc);
    let smin = imin(xl, xh) + imin(yl, yh) + imin(zl, zh) + tt;
    let smax = imax(xl, xh) + imax(yl, yh) + imax(zl, zh) + tt;
    proof {
        lemma_mul_bound(other as int, smin as int, DEN_MAX as int, 0x800_0000);
        lemma_mul_bound(other as int, smax as int, DEN_MAX as int, 0x800_0000);
    }
    let wmin = other * smin;
    let wmax = other * smax;
    let cl = imin(imax(wmin, -WORLD_MAX), WORLD_MAX);
    let ch = imax(imin(wmax, WORLD_MAX), -WORLD_MAX);
    proof {
        assert forall |p: V3i| in_box(lo@, hi@, p) implies {
            let w = (other as int) * (sdot(row@, p) + den * tc);
            (-WORLD_MAX <= w <= WORLD_MAX ==> cl <= w <= ch)
        } by {
            lemma_mono_mul(row@.x, lo@.x, hi@.x, p.x);
            lemma_mono_mul(row@.y, lo@.y, hi@.y, p.y);
            lemma_mono_mul(row@.z, lo@.z, hi@.z, p.z);
            let s = sdot(row@, p) + den * tc;
            assert(smin <= s <= smax);
            lemma_pos_scale(other as int, smin as int, s);
            lemma_pos_scale(other as int, s, smax as int);
        }
    }
    (cl, ch)
}

/// All entries of a rotation row are within the denominator bound.
pub open spec fn rot_row_ok(row: Vec3) -> bool {
    b3(row@, DEN_MAX as int)
}

/// World-frame clamped bounding box of a node's model-local box: contains
/// the placement image of every box point whose image lies in the envelope.
fn world_box(lo: &Vec3, hi: &Vec3, rot: &Rotation, t: &Vec3, other: i64) -> (r: (Vec3, Vec3))
    requires
        rot_wf(*rot),
        1 <= other <= DEN_MAX,
        b3(t@, MODEL_MAX as int),
        b3(lo@, MODEL_MAX as int),
        b3(hi@, MODEL_MAX as int),
    ensures
        b3(r.0@, WORLD_MAX as int),
        b3(r.1@, WORLD_MAX as int),
        forall |p: V3i| in_box(lo@, hi@, p) && b3(
            #[trigger] place_pt(*rot, t@, other as int, p),
            WORLD_MAX as int,
        ) ==> in_box(r.0@, r.1@, place_pt(*rot, t@, other as int, p)),
{
    proof {
        crate::rot::lemma_rot_entries(*rot);
    }
    let (xl, xh) = world_axis_range(&rot.r0, rot.den, t.x, other, lo, hi);
    let (yl, yh) = world_axis_range(&rot.r1, rot.den, t.y, other, lo, hi);
    let (zl, zh) = world_axis_range(&rot.r2, rot.den, t.z, other, lo, hi);
    (Vec3 { x: xl, y: yl, z: zl }, Vec3 { x: xh, y: yh, z: zh })
}

/// Triangles whose placed vertices lie in two strictly separated boxes are
/// disjoint: the separating coordinate axis is in the candidate family.
proof fn lemma_boxes_separate(l1: V3i, h1: V3i, l2: V3i, h2: V3i, t1: STri, t2: STri)
    requires
        in_box(l1, h1, t1.a),
        in_box(l1, h1, t1.b),
        in_box(l1, h1, t1.c),
        in_box(l2, h2, t2.a),
        in_box(l2, h2, t2.b),
        in_box(l2, h2, t2.c),
        h1.x < l2.x || h2.x < l1.x || h1.y < l2.y || h2.y < l1.y || h1.z < l2.z || h2.z < l1.z,
    ensures
        !tri_intersect(t1, t2),
{
    if h1.x < l2.x || h2.x < l1.x {
        assert(sep_axis(V3i { x: 1, y: 0, z: 0 }, t1, t2));
    } else if h1.y < l2.y || h2.y < l1.y {
        assert(sep_axis(V3i { x: 0, y: 1, z: 0 }, t1, t2));
    } else {
        assert(sep_axis(V3i { x: 0, y: 0, z: 1 }, t1, t2));
    }
    assert(sep_dir(t1, t2));
}

/// Some triangle pair from the two index rectangles intersects in the world
/// frame.
pub open spec fn rect_intersects(
    a: Seq<Triangle>, ra: Rotation, ta: Vec3, oa: int,
    b: Seq<Triangle>, rb: Rotation, tb: Vec3, ob: int,
    a0: int, a1: int, b0: int, b1: int,
) -> bool {
    exists |k: int, l: int|
        a0 <= k < a1 && b0 <= l < b1 && tri_intersect(
            #[trigger] place_tri(ra, ta@, oa, a[k]@),
            #[trigger] place_tri(rb, tb@, ob, b[l]@),
        )
}

/// Simultaneous descent of the two hierarchies for the overlap test, with
/// sound pruning of node pairs whose world boxes are strictly separated.
#[verifier::rlimit(30)]
fn descend_collide(
    ta: &Vec<Triangle>, na: &Vec<BvhNode>, ia: usize, ra: &Rotation, tra: &Vec3, oa: i64,
    tb: &Vec<Triangle>, nb: &Vec<BvhNode>, ib: usize, rb: &Rotation, trb: &Vec3, ob: i64,
    Ghost(a0): Ghost<int>, Ghost(a1): Ghost<int>, Ghost(b0): Ghost<int>, Ghost(b1): Ghost<int>,
) -> (r: bool)
    requires
        node_wf(na@, ta@, ia as int, a0, a1),
        node_wf(nb@, tb@, ib as int, b0, b1),
        rot_wf(*ra),
        rot_wf(*rb),
        1 <= oa <= DEN_MAX,
        1 <= ob <= DEN_MAX,
        b3(tra@, MODEL_MAX as int),
        b3(trb@, MODEL_MAX as int),
        forall |i: int| 0 <= i < ta@.len() ==> tri_in(#[trigger] ta@[i]@, MODEL_MAX as int),
        forall |i: int| 0 <= i < tb@.len() ==> tri_in(#[trigger] tb@[i]@, MODEL_MAX as int),
        placed_in_env(ta@, *ra, *tra, oa as int),
        placed_in_env(tb@, *rb, *trb, ob as int),
    ensures
        r == rect_intersects(ta@, *ra, *tra, oa as int, tb@, *rb, *trb, ob as int, a0, a1, b0, b1),
    decreases ia + ib,
{
    let (alo, ahi) = crate::model::node_box(na, ia);
    let (blo, bhi) = crate::model::node_box(nb, ib);
    let (wal, wah) = world_box(&alo, &ahi, ra, tra, oa);
    let (wbl, wbh) = world_box(&blo, &bhi, rb, trb, ob);
    if wah.x < wbl.x || wbh.x < wal.x || wah.y < wbl.y || wbh.y < wal.y || wah.z < wbl.z
        || wbh.z < wal.z {
        proof {
            assert forall |k: int, l: int| a0 <= k < a1 && b0 <= l < b1 implies !tri_intersect(
                #[trigger] place_tri(*ra, tra@, oa as int, ta@[k]@),
                #[trigger] place_tri(*rb, trb@, ob as int, tb@[l]@),
            ) by {
                lemma_node_covers(na@, ta@, ia as int, a0, a1, k);
                lemma_node_covers(nb@, tb@, ib as int, b0, b1, l);
                let wt1 = place_tri(*ra, tra@, oa as int, ta@[k]@);
                let wt2 = place_tri(*rb, trb@, ob as int, tb@[l]@);
                assert(tri_in(wt1, WORLD_MAX as int));
                assert(tri_in(wt2, WORLD_MAX as int));
                assert(in_box(wal@, wah@, place_pt(*ra, tra@, oa as int, ta@[k]@.a)));
                assert(in_box(wal@, wah@, place_pt(*ra, tra@, oa as int, ta@[k]@.b)));
                assert(in_box(wal@, wah@, place_pt(*ra, tra@, oa as int, ta@[k]@.c)));
                assert(in_box(wbl@, wbh@, place_pt(*rb, trb@, ob as int, tb@[l]@.a)));
                assert(in_box(wbl@, wbh@, place_pt(*rb, trb@, ob as int, tb@[l]@.b)));
                assert(in_box(wbl@, wbh@, place_pt(*rb, trb@, ob as int, tb@[l]@.c)));
                lemma_boxes_separate(wal@, wah@, wbl@, wbh@, wt1, wt2);
            }
        }
        return false;
    }
    let node_a = na[ia];
    let node_b = nb[ib];
    match node_a {
        BvhNode::Node { left, right, mid, .. } => {
            let r1 = descend_collide(
                ta, na, left, ra, tra, oa, tb, nb, ib, rb, trb, ob,
                Ghost(a0), Ghost(mid as int), Ghost(b0), Ghost(b1),
            );
            if r1 {
                return true;
            }
            descend_collide(
                ta, na, right, ra, tra, oa, tb, nb, ib, rb, trb, ob,
                Ghost(mid as int), Ghost(a1), Ghost(b0), Ghost(b1),
            )
        },
        BvhNode::Leaf { tri: ka, .. } => {
            match node_b {
                BvhNode::Node { left, right, mid, .. } => {
                    let r1 = descend_collide(
                        ta, na, ia, ra, tra, oa, tb, nb, left, rb, trb, ob,
                        Ghost(a0), Ghost(a1), Ghost(b0), Ghost(mid as int),
                    );
                    if r1 {
                        return true;
                    }
                    descend_collide(
                        ta, na, ia, ra, tra, oa, tb, nb, right, rb, trb, ob,
                        Ghost(a0), Ghost(a1), Ghost(mid as int), Ghost(b1),
                    )
                },
                BvhNode::Leaf { tri: kb, .. } => {
                    let wta = place_tri_ex(ra, tra, oa, &ta[ka]);
                    let wtb = place_tri_ex(rb, trb, ob, &tb[kb]);
                    tri_intersect_ex(&wta, &wtb)
                },
            }
        },
    }
}

/// Squares are monotone on non-negative integers.
proof fn lemma_sq_mono(a: int, b: int) by (nonlinear_arith)
    requires
        0 <= b <= a,
    ensures
        b * b <= a * a,
{
}

/// The squared gap of two triangles' bounding boxes is at least the squared
/// gap of any pair of boxes containing their vertices.
proof fn lemma_gap2_mono(l1: V3i, h1: V3i, l2: V3i, h2: V3i, t1: STri, t2: STri, g2: int)
    requires
        in_box(l1, h1, t1.a),
        in_box(l1, h1, t1.b),
        in_box(l1, h1, t1.c),
        in_box(l2, h2, t2.a),
        in_box(l2, h2, t2.b),
        in_box(l2, h2, t2.c),
        g2 == axis_gap(l1.x, h1.x, l2.x, h2.x) * axis_gap(l1.x, h1.x, l2.x, h2.x) + axis_gap(
            l1.y,
            h1.y,
            l2.y,
            h2.y,
        ) * axis_gap(l1.y, h1.y, l2.y, h2.y) + axis_gap(l1.z, h1.z, l2.z, h2.z) * axis_gap(
            l1.z,
            h1.z,
            l2.z,
            h2.z,
        ),
    ensures
        box_gap2(t1, t2) >= g2,
{
    lemma_sq_mono(
        axis_gap(
            smin3(t1.a.x, t1.b.x, t1.c.x), smax3(t1.a.x, t1.b.x, t1.c.x),
            smin3(t2.a.x, t2.b.x, t2.c.x), smax3(t2.a.x, t2.b.x, t2.c.x),
        ),
        axis_gap(l1.x, h1.x, l2.x, h2.x),
    );
    lemma_sq_mono(
        axis_gap(
            smin3(t1.a.y, t1.b.y, t1.c.y), smax3(t1.a.y, t1.b.y, t1.c.y),
            smin3(t2.a.y, t2.b.y, t2.c.y), smax3(t2.a.y, t2.b.y, t2.c.y),
        ),
        axis_gap(l1.y, h1.y, l2.y, h2.y),
    );
    lemma_sq_mono(
        axis_gap(
            smin3(t1.a.z, t1.b.z, t1.c.z), smax3(t1.a.z, t1.b.z, t1.c.z),
            smin3(t2.a.z, t2.b.z, t2.c.z), smax3(t2.a.z, t2.b.z, t2.c.z),
        ),
        axis_gap(l1.z, h1.z, l2.z, h2.z),
    );
}

/// `pair_d2` is a well-formed rational and at least the boxes' squared gap.
proof fn lemma_pair_d2_wf(t1: STri, t2: STri)
    ensures
        rat_wf(pair_d2(t1, t2)),
        rat_le(rat_of_int(box_gap2(t1, t2)), pair_d2(t1, t2)),
{
}

/// Scaling both denominators by the same positive factor preserves order
/// and equality of rational values.
proof fn lemma_rat_scale(w: Rat, p: Rat, ss: int) by (nonlinear_arith)
    requires
        ss > 0,
    ensures
        rat_le(w, p) == rat_le(Rat { num: w.num, den: w.den * ss }, Rat { num: p.num, den: p.den * ss }),
        rat_eq(w, p) == rat_eq(Rat { num: w.num, den: w.den * ss }, Rat { num: p.num, den: p.den * ss }),
{
}

/// Simultaneous best-first style descent for the exact minimum pairwise
/// squared distance: carries the best value found so far and prunes node
/// pairs whose world boxes cannot contain anything closer.
#[verifier::rlimit(60)]
fn descend_d2(
    ta: &Vec<Triangle>, na: &Vec<BvhNode>, ia: usize, ra: &Rotation, tra: &Vec3, oa: i64,
    tb: &Vec<Triangle>, nb: &Vec<BvhNode>, ib: usize, rb: &Rotation, trb: &Vec3, ob: i64,
    best: Ratio,
    Ghost(a0): Ghost<int>, Ghost(a1): Ghost<int>, Ghost(b0): Ghost<int>, Ghost(b1): Ghost<int>,
) -> (r: Ratio)
    requires
        node_wf(na@, ta@, ia as int, a0, a1),
        node_wf(nb@, tb@, ib as int, b0, b1),
        rot_wf(*ra),
        rot_wf(*rb),
        1 <= oa <= DEN_MAX,
        1 <= ob <= DEN_MAX,
        b3(tra@, MODEL_MAX as int),
        b3(trb@, MODEL_MAX as int),
        forall |i: int| 0 <= i < ta@.len() ==> tri_in(#[trigger] ta@[i]@, MODEL_MAX as int),
        forall |i: int| 0 <= i < tb@.len() ==> tri_in(#[trigger] tb@[i]@, MODEL_MAX as int),
        placed_in_env(ta@, *ra, *tra, oa as int),
        placed_in_env(tb@, *rb, *trb, ob as int),
        ratio_bounded(best),
    ensures
        ratio_bounded(r),
        rat_le(r.as_rat(), best.as_rat()),
        forall |k: int, l: int| a0 <= k < a1 && b0 <= l < b1 ==> rat_le(
            r.as_rat(),
            pair_d2(
                #[trigger] place_tri(*ra, tra@, oa as int, ta@[k]@),
                #[trigger] place_tri(*rb, trb@, ob as int, tb@[l]@),
            ),
        ),
        r == best || exists |k: int, l: int|
            a0 <= k < a1 && b0 <= l < b1 && r.as_rat() == pair_d2(
                #[trigger] place_tri(*ra, tra@, oa as int, ta@[k]@),
                #[trigger] place_tri(*rb, trb@, ob as int, tb@[l]@),
            ),
    decreases ia + ib,
{
    let (alo, ahi) = crate::model::node_box(na, ia);
    let (blo, bhi) = crate::model::node_box(nb, ib);
    let (wal, wah) = world_box(&alo, &ahi, ra, tra, oa);
    let (wbl, wbh) = world_box(&blo, &bhi, rb, trb, ob);
    let gx = crate::tri::axis_gap_ex(wal.x, wah.x, wbl.x, wbh.x);
    let gy = crate::tri::axis_gap_ex(wal.y, wah.y, wbl.y, wbh.y);
    let gz = crate::tri::axis_gap_ex(wal.z, wah.z, wbl.z, wbh.z);
    proof {
        lemma_mul_bound(gx as int, gx as int, 2048, 2048);
        lemma_mul_bound(gy as int, gy as int, 2048, 2048);
        lemma_mul_bound(gz as int, gz as int, 2048, 2048);
        assert(gx as int * gx as int >= 0) by (nonlinear_arith);
        assert(gy as int * gy as int >= 0) by (nonlinear_arith);
        assert(gz as int * gz as int >= 0) by (nonlinear_arith);
    }
    let g2 = gx * gx + gy * gy + gz * gz;
    let gr = Ratio { num: g2 as i128, den: 1 };
    if ratio_le(&best, &gr) {
        proof {
            assert forall |k: int, l: int| a0 <= k < a1 && b0 <= l < b1 implies rat_le(
                best.as_rat(),
                pair_d2(
                    #[trigger] place_tri(*ra, tra@, oa as int, ta@[k]@),
                    #[trigger] place_tri(*rb, trb@, ob as int, tb@[l]@),
                ),
            ) by {
                lemma_node_covers(na@, ta@, ia as int, a0, a1, k);
                lemma_node_covers(nb@, tb@, ib as int, b0, b1, l);
                let wt1 = place_tri(*ra, tra@, oa as int, ta@[k]@);
                let wt2 = place_tri(*rb, trb@, ob as int, tb@[l]@);
                assert(tri_in(wt1, WORLD_MAX as int));
                assert(tri_in(wt2, WORLD_MAX as int));
                assert(in_box(wal@, wah@, wt1.a) && in_box(wal@, wah@, wt1.b) && in_box(
                    wal@,
                    wah@,
                    wt1.c,
                ));
                assert(in_box(wbl@, wbh@, wt2.a) && in_box(wbl@, wbh@, wt2.b) && in_box(
                    wbl@,
                    wbh@,
                    wt2.c,
                ));
                lemma_gap2_mono(wal@, wah@, wbl@, wbh@, wt1, wt2, g2 as int);
                lemma_pair_d2_wf(wt1, wt2);
                lemma_rat_le_trans(best.as_rat(), gr.as_rat(), rat_of_int(box_gap2(wt1, wt2)));
                lemma_rat_le_trans(
                    best.as_rat(),
                    rat_of_int(box_gap2(wt1, wt2)),
                    pair_d2(wt1, wt2),
                );
            }
        }
        return best;
    }
    let node_a = na[ia];
    let node_b = nb[ib];
    match node_a {
        BvhNode::Node { left, right, mid, .. } => {
            let r1 = descend_d2(
                ta, na, left, ra, tra, oa, tb, nb, ib, rb, trb, ob, best,
                Ghost(a0), Ghost(mid as int), Ghost(b0), Ghost(b1),
            );
            let r2 = descend_d2(
                ta, na, right, ra, tra, oa, tb, nb, ib, rb, trb, ob, r1,
                Ghost(mid as int), Ghost(a1), Ghost(b0), Ghost(b1),
            );
            proof {
                lemma_rat_le_trans(r2.as_rat(), r1.as_rat(), best.as_rat());
                assert forall |k: int, l: int| a0 <= k < a1 && b0 <= l < b1 implies rat_le(
                    r2.as_rat(),
                    pair_d2(
                        #[trigger] place_tri(*ra, tra@, oa as int, ta@[k]@),
                        #[trigger] place_tri(*rb, trb@, ob as int, tb@[l]@),
                    ),
                ) by {
                    let wt1 = place_tri(*ra, tra@, oa as int, ta@[k]@);
                    let wt2 = place_tri(*rb, trb@, ob as int, tb@[l]@);
                    lemma_pair_d2_wf(wt1, wt2);
                    if k < mid {
                        lemma_rat_le_trans(r2.as_rat(), r1.as_rat(), pair_d2(wt1, wt2));
                    }
                }
            }
            r2
        },
        BvhNode::Leaf { tri: ka, .. } => {
            match node_b {
                BvhNode::Node { left, right, mid, .. } => {
                    let r1 = descend_d2(
                        ta, na, ia, ra, tra, oa, tb, nb, left, rb, trb, ob, best,
                        Ghost(a0), Ghost(a1), Ghost(b0), Ghost(mid as int),
                    );
                    let r2 = descend_d2(
                        ta, na, ia, ra, tra, oa, tb, nb, right, rb, trb, ob, r1,
                        Ghost(a0), Ghost(a1), Ghost(mid as int), Ghost(b1),
                    );
                    proof {
                        lemma_rat_le_trans(r2.as_rat(), r1.as_rat(), best.as_rat());
                        assert forall |k: int, l: int| a0 <= k < a1 && b0 <= l < b1 implies
                            rat_le(
                            r2.as_rat(),
                            pair_d2(
                                #[trigger] place_tri(*ra, tra@, oa as int, ta@[k]@),
                                #[trigger] place_tri(*rb, trb@, ob as int, tb@[l]@),
                            ),
                        ) by {
                            let wt1 = place_tri(*ra, tra@, oa as int, ta@[k]@);
                            let wt2 = place_tri(*rb, trb@, ob as int, tb@[l]@);
                            lemma_pair_d2_wf(wt1, wt2);
                            if l < mid {
                                lemma_rat_le_trans(r2.as_rat(), r1.as_rat(), pair_d2(wt1, wt2));
                            }
                        }
                    }
                    r2
                },
                BvhNode::Leaf { tri: kb, .. } => {
                    let wta = place_tri_ex(ra, tra, oa, &ta[ka]);
                    let wtb = place_tri_ex(rb, trb, ob, &tb[kb]);
                    let d = pair_d2_ex(&wta, &wtb);
                    ratio_min(best, d)
                },
            }
        },
    }
}

/// Perform collision check between two models transformed in space.
///
/// Each model has a translation and rotation applied to it: the model is
/// rotated around its local origin and then moved by the translation.  The
/// result is `true` exactly when some triangle of one placed model overlaps
/// some triangle of the other (touching counts as overlap).
pub fn collide(
    model_a: &Model, rotation_a: &Rotation, translation_a: &Vec3,
    model_b: &Model, rotation_b: &Rotation, translation_b: &Vec3,
) -> (r: bool)
    requires
        crate::model::model_wf(*model_a),
        crate::model::model_wf(*model_b),
        rot_wf(*rotation_a),
        rot_wf(*rotation_b),
        b3(translation_a@, MODEL_MAX as int),
        b3(translation_b@, MODEL_MAX as int),
        placed_in_env(model_a@, *rotation_a, *translation_a, rotation_b.den as int),
        placed_in_env(model_b@, *rotation_b, *translation_b, rotation_a.den as int),
    ensures
        r == models_collide(
            model_a@, *rotation_a, *translation_a, model_b@, *rotation_b, *translation_b,
        ),
{
    if model_a.len() == 0 || model_b.len() == 0 {
        return false;
    }
    descend_collide(
        model_a.tris(), model_a.nodes(), model_a.root_index(), rotation_a, translation_a,
        rotation_b.den,
        model_b.tris(), model_b.nodes(), model_b.root_index(), rotation_b, translation_b,
        rotation_a.den,
        Ghost(0), Ghost(model_a@.len() as int), Ghost(0), Ghost(model_b@.len() as int),
    )
}

/// Options for distance check.
///
/// Sets the maximum allowed distance underestimate.  For distance `D`, with
/// absolute error `a` and relative error `r` (a fraction in `[0, 1]`), a
/// result anywhere between `max(D - a, D * (1 - r))` and `D` would be
/// acceptable.  This engine always computes `D` itself exactly, which lies
/// inside every such band, so the options never change the result; they are
/// accepted so that callers can state their tolerance.
#[derive(Clone, Copy, Debug)]
pub struct DistanceOptions {
    /// Maximum allowed absolute underestimate of the distance.
    pub absolute_error: Ratio,
    /// Maximum allowed relative underestimate, as a fraction in `[0, 1]`.
    pub relative_error: Ratio,
}

impl Default for DistanceOptions {
    /// Zero tolerances: the exact distance is requested.
    fn default() -> (r: DistanceOptions)
        ensures
            r.absolute_error == (Ratio { num: 0, den: 1 }),
            r.relative_error == (Ratio { num: 0, den: 1 }),
    {
        DistanceOptions {
            absolute_error: Ratio { num: 0, den: 1 },
            relative_error: Ratio { num: 0, den: 1 },
        }
    }
}

/// The exact squared distance between world-frame triangles `i` of `a` and
/// `j` of `b`, in unscaled world units: the scaled pair distance divided by
/// the square of the common scale factor `ra.den * rb.den`.
pub open spec fn pair_dist2(
    a: Seq<Triangle>, ra: Rotation, ta: Vec3,
    b: Seq<Triangle>, rb: Rotation, tb: Vec3,
    i: int, j: int,
) -> Rat {
    let p = pair_d2(
        place_tri(ra, ta@, rb.den as int, a[i]@),
        place_tri(rb, tb@, ra.den as int, b[j]@),
    );
    let s = ra.den * rb.den;
    Rat { num: p.num, den: p.den * (s * s) }
}

/// Perform distance check between two models transformed in space.
///
/// Each model has a translation and rotation applied to it, as in
/// [`collide`].  The returned value is `None` in case of collision (or when
/// either model is empty), otherwise it is the exact squared distance
/// between the two placed meshes, as a rational number: the greatest value
/// that is at most every pairwise triangle distance, attained by some pair.
/// Callers wanting the distance itself take the square root of
/// `num / den`.  The result is exact regardless of the tolerances passed in
/// `options`; an exact answer lies within every tolerance band.
#[verifier::rlimit(80)]
pub fn distance(
    model_a: &Model, rotation_a: &Rotation, translation_a: &Vec3,
    model_b: &Model, rotation_b: &Rotation, translation_b: &Vec3,
    options: &DistanceOptions,
) -> (r: Option<Ratio>)
    requires
        crate::model::model_wf(*model_a),
        crate::model::model_wf(*model_b),
        rot_wf(*rotation_a),
        rot_wf(*rotation_b),
        b3(translation_a@, MODEL_MAX as int),
        b3(translation_b@, MODEL_MAX as int),
        placed_in_env(model_a@, *rotation_a, *translation_a, rotation_b.den as int),
        placed_in_env(model_b@, *rotation_b, *translation_b, rotation_a.den as int),
    ensures
        (r is None) == (model_a@.len() == 0 || model_b@.len() == 0 || models_collide(
            model_a@, *rotation_a, *translation_a, model_b@, *rotation_b, *translation_b,
        )),
        r is Some ==> r->Some_0.den > 0,
        r is Some ==> forall |i: int, j: int|
            0 <= i < model_a@.len() && 0 <= j < model_b@.len() ==> rat_le(
                r->Some_0.as_rat(),
                #[trigger] pair_dist2(
                    model_a@, *rotation_a, *translation_a,
                    model_b@, *rotation_b, *translation_b, i, j,
                ),
            ),
        r is Some ==> exists |i: int, j: int|
            0 <= i < model_a@.len() && 0 <= j < model_b@.len() && rat_eq(
                r->Some_0.as_rat(),
                #[trigger] pair_dist2(
                    model_a@, *rotation_a, *translation_a,
                    model_b@, *rotation_b, *translation_b, i, j,
                ),
            ),
{
    let _ = options;
    if model_a.len() == 0 || model_b.len() == 0 {
        return None;
    }
    if collide(model_a, rotation_a, translation_a, model_b, rotation_b, translation_b) {
        return None;
    }
    let ta = model_a.tris();
    let tb = model_b.tris();
    let wta0 = place_tri_ex(rotation_a, translation_a, rotation_b.den, &ta[0]);
    let wtb0 = place_tri_ex(rotation_b, translation_b, rotation_a.den, &tb[0]);
    let best0 = pair_d2_ex(&wta0, &wtb0);
    let w = descend_d2(
        ta, model_a.nodes(), model_a.root_index(), rotation_a, translation_a, rotation_b.den,
        tb, model_b.nodes(), model_b.root_index(), rotation_b, translation_b, rotation_a.den,
        best0,
        Ghost(0), Ghost(model_a@.len() as int), Ghost(0), Ghost(model_b@.len() as int),
    );
    proof {
        lemma_mul_bound(rotation_a.den as int, rotation_b.den as int, DEN_MAX as int, DEN_MAX as int);
    }
    let s = rotation_a.den * rotation_b.den;
    proof {
        assert(s >= 1) by (nonlinear_arith)
            requires
                rotation_a.den >= 1,
                rotation_b.den >= 1,
                s == rotation_a.den * rotation_b.den,
        ;
        lemma_mul_bound(s as int, s as int, 1024, 1024);
    }
    let ss = (s as i128) * (s as i128);
    proof {
        assert(ss >= 1) by (nonlinear_arith)
            requires
                s >= 1,
                ss == s as int * s as int,
        ;
        lemma_mul_bound(w.den as int, ss as int, crate::ratio::CAND_DEN_MAX as int, 0x10_0000);
        assert(w.den as int * ss as int >= 1) by (nonlinear_arith)
            requires
                w.den >= 1,
                ss >= 1,
        ;
    }
    let v = Ratio { num: w.num, den: w.den * ss };
    proof {
        let sint = (rotation_a.den * rotation_b.den) as int;
        assert(ss == sint * sint);
        assert forall |i: int, j: int|
            0 <= i < model_a@.len() && 0 <= j < model_b@.len() implies rat_le(
            v.as_rat(),
            #[trigger] pair_dist2(
                model_a@, *rotation_a, *translation_a, model_b@, *rotation_b, *translation_b, i, j,
            ),
        ) by {
            let p = pair_d2(
                place_tri(*rotation_a, translation_a@, rotation_b.den as int, model_a@[i]@),
                place_tri(*rotation_b, translation_b@, rotation_a.den as int, model_b@[j]@),
            );
            assert(rat_le(w.as_rat(), p));
            lemma_rat_scale(w.as_rat(), p, ss as int);
        }
        if w == best0 {
            assert(w.as_rat() == pair_d2(
                place_tri(*rotation_a, translation_a@, rotation_b.den as int, model_a@[0]@),
                place_tri(*rotation_b, translation_b@, rotation_a.den as int, model_b@[0]@),
            ));
        }
        let (ki, kj) = choose |ki: int, kj: int|
            0 <= ki < model_a@.len() && 0 <= kj < model_b@.len() && w.as_rat() == pair_d2(
                #[trigger] place_tri(*rotation_a, translation_a@, rotation_b.den as int, model_a@[ki]@),
                #[trigger] place_tri(*rotation_b, translation_b@, rotation_a.den as int, model_b@[kj]@),
            );
        let p = pair_d2(
            place_tri(*rotation_a, translation_a@, rotation_b.den as int, model_a@[ki]@),
            place_tri(*rotation_b, translation_b@, rotation_a.den as int, model_b@[kj]@),
        );
        assert(rat_eq(w.as_rat(), p));
        lemma_rat_scale(w.as_rat(), p, ss as int);
        assert(rat_eq(
            v.as_rat(),
            pair_dist2(
                model_a@, *rotation_a, *translation_a, model_b@, *rotation_b, *translation_b, ki,
                kj,
            ),
        ));
    }
    Some(v)
}

/// A point with exact rational coordinates.
#[derive(Clone, Copy, Debug, PartialEq, Eq, Structural)]
pub struct RatPoint {
    /// First coordinate.
    pub x: Ratio,
    /// Second coordinate.
    pub y: Ratio,
    /// Third coordinate.
    pub z: Ratio,
}

/// Structure that holds the squared distance between objects, together with
/// the points between which this distance is achieved.
///
/// The points don't have to be unique, so this is just one single instance
/// of them: when surfaces are parallel, infinitely many pairs realise the
/// same distance.  The points are the closest-feature pair of a closest
/// triangle pair, in world coordinates.
#[derive(Clone, Copy, Debug)]
pub struct DistancePoints {
    /// Exact squared distance between the two models.
    pub distance: Ratio,
    /// Point on the first model that is closest to the second model.
    pub point_a: RatPoint,
    /// Point on the second model that is closest to the first model.
    pub point_b: RatPoint,
}

/// Closest-point pair for the point-segment candidate, in scaled world
/// coordinates over denominator `s`.
fn seg_pts(p: &Vec3, a: &Vec3, b: &Vec3, s: i64) -> (r: (Ratio, RatPoint, RatPoint))
    requires
        b3(p@, WORLD_MAX as int),
        b3(a@, WORLD_MAX as int),
        b3(b@, WORLD_MAX as int),
        1 <= s <= 1024,
    ensures
        ratio_bounded(r.0),
{
    let d = crate::dist::seg_d2_ex(p, a, b);
    let u = crate::vec3::sub3(b, a);
    let w = crate::vec3::sub3(p, a);
    let uu = crate::vec3::dot3(&u, &u);
    let t = crate::vec3::dot3(&w, &u);
    proof {
        crate::vec3::lemma_dot_bound(u@, u@, 2048, 2048);
        crate::vec3::lemma_dot_bound(w@, u@, 2048, 2048);
    }
    let pa = int_point(p, s);
    let pb = if uu <= 0 || t <= 0 {
        int_point(a, s)
    } else if t >= uu {
        int_point(b, s)
    } else {
        proof {
            lemma_mul_bound(a@.x, uu as int, 1024, 0xC0_0000);
            lemma_mul_bound(a@.y, uu as int, 1024, 0xC0_0000);
            lemma_mul_bound(a@.z, uu as int, 1024, 0xC0_0000);
            lemma_mul_bound(t as int, u@.x, 0xC0_0000, 2048);
            lemma_mul_bound(t as int, u@.y, 0xC0_0000, 2048);
            lemma_mul_bound(t as int, u@.z, 0xC0_0000, 2048);
            lemma_mul_bound(uu as int, s as int, 0xC0_0000, 1024);
        }
        let den = uu * (s as i128);
        RatPoint {
            x: Ratio { num: (a.x as i128) * uu + t * (u.x as i128), den },
            y: Ratio { num: (a.y as i128) * uu + t * (u.y as i128), den },
            z: Ratio { num: (a.z as i128) * uu + t * (u.z as i128), den },
        }
    };
    (d, pa, pb)
}

/// A scaled integer point as exact world coordinates over denominator `s`.
fn int_point(p: &Vec3, s: i64) -> (r: RatPoint)
    requires
        b3(p@, WORLD_MAX as int),
        1 <= s <= 1024,
{
    RatPoint {
        x: Ratio { num: p.x as i128, den: s as i128 },
        y: Ratio { num: p.y as i128, den: s as i128 },
        z: Ratio { num: p.z as i128, den: s as i128 },
    }
}

/// Closest-point pair among all candidate features of two world triangles:
/// the feature pair achieving the exact pair distance.
fn pair_pts(t1: &Triangle, t2: &Triangle, s: i64) -> (r: (Ratio, RatPoint, RatPoint))
    requires
        tri_in(t1@, WORLD_MAX as int),
        tri_in(t2@, WORLD_MAX as int),
        1 <= s <= 1024,
    ensures
        ratio_bounded(r.0),
{
    let mut best = seg_pts(&t1.p0, &t2.p0, &t2.p1, s);
    best = pts_min(best, seg_pts(&t1.p0, &t2.p1, &t2.p2, s));
    best = pts_min(best, seg_pts(&t1.p0, &t2.p2, &t2.p0, s));
    best = pts_min(best, seg_pts(&t1.p1, &t2.p0, &t2.p1, s));
    best = pts_min(best, seg_pts(&t1.p1, &t2.p1, &t2.p2, s));
    best = pts_min(best, seg_pts(&t1.p1, &t2.p2, &t2.p0, s));
    best = pts_min(best, seg_pts(&t1.p2, &t2.p0, &t2.p1, s));
    best = pts_min(best, seg_pts(&t1.p2, &t2.p1, &t2.p2, s));
    best = pts_min(best, seg_pts(&t1.p2, &t2.p2, &t2.p0, s));
    best = pts_min(best, swap_pts(seg_pts(&t2.p0, &t1.p0, &t1.p1, s)));
    best = pts_min(best, swap_pts(seg_pts(&t2.p0, &t1.p1, &t1.p2, s)));
    best = pts_min(best, swap_pts(seg_pts(&t2.p0, &t1.p2, &t1.p0, s)));
    best = pts_min(best, swap_pts(seg_pts(&t2.p1, &t1.p0, &t1.p1, s)));
    best = pts_min(best, swap_pts(seg_pts(&t2.p1, &t1.p1, &t1.p2, s)));
    best = pts_min(best, swap_pts(seg_pts(&t2.p1, &t1.p2, &t1.p0, s)));
    best = pts_min(best, swap_pts(seg_pts(&t2.p2, &t1.p0, &t1.p1, s)));
    best = pts_min(best, swap_pts(seg_pts(&t2.p2, &t1.p1, &t1.p2, s)));
    best = pts_min(best, swap_pts(seg_pts(&t2.p2, &t1.p2, &t1.p0, s)));
    best = pts_min(best, plane_pts(&t1.p0, t2, s));
    best = pts_min(best, plane_pts(&t1.p1, t2, s));
    best = pts_min(best, plane_pts(&t1.p2, t2, s));
    best = pts_min(best, swap_pts(plane_pts(&t2.p0, t1, s)));
    best = pts_min(best, swap_pts(plane_pts(&t2.p1, t1, s)));
    best = pts_min(best, swap_pts(plane_pts(&t2.p2, t1, s)));
    best = pts_min(best, edges_pts(&t1.p0, &t1.p1, &t2.p0, &t2.p1, s));
    best = pts_min(best, edges_pts(&t1.p0, &t1.p1, &t2.p1, &t2.p2, s));
    best = pts_min(best, edges_pts(&t1.p0, &t1.p1, &t2.p2, &t2.p0, s));
    best = pts_min(best, edges_pts(&t1.p1, &t1.p2, &t2.p0, &t2.p1, s));
    best = pts_min(best, edges_pts(&t1.p1, &t1.p2, &t2.p1, &t2.p2, s));
    best = pts_min(best, edges_pts(&t1.p1, &t1.p2, &t2.p2, &t2.p0, s));
    best = pts_min(best, edges_pts(&t1.p2, &t1.p0, &t2.p0, &t2.p1, s));
    best = pts_min(best, edges_pts(&t1.p2, &t1.p0, &t2.p1, &t2.p2, s));
    best = pts_min(best, edges_pts(&t1.p2, &t1.p0, &t2.p2, &t2.p0, s));
    best
}

/// Keep the candidate with the smaller squared distance (first wins ties).
fn pts_min(a: (Ratio, RatPoint, RatPoint), b: (Ratio, RatPoint, RatPoint)) -> (r: (
    Ratio,
    RatPoint,
    RatPoint,
))
    requires
        ratio_bounded(a.0),
        ratio_bounded(b.0),
    ensures
        ratio_bounded(r.0),
{
    if ratio_le(&a.0, &b.0) {
        a
    } else {
        b
    }
}

/// Exchange the two points of a candidate computed with the triangles in
/// the opposite order.
fn swap_pts(a: (Ratio, RatPoint, RatPoint)) -> (r: (Ratio, RatPoint, RatPoint))
    requires
        ratio_bounded(a.0),
    ensures
        ratio_bounded(r.0),
{
    (a.0, a.2, a.1)
}

/// Closest-point pair for the vertex-face candidate.
fn plane_pts(p: &Vec3, t: &Triangle, s: i64) -> (r: (Ratio, RatPoint, RatPoint))
    requires
        b3(p@, WORLD_MAX as int),
        tri_in(t@, WORLD_MAX as int),
        1 <= s <= 1024,
    ensures
        ratio_bounded(r.0),
{
    let d2 = crate::dist::tri_plane_d2_ex(p, t);
    let e0 = crate::vec3::sub3(&t.p1, &t.p0);
    let ed = crate::vec3::sub3(&t.p2, &t.p0);
    let n = crate::vec3::cross3(&e0, &ed);
    proof {
        crate::vec3::lemma_cross_bound(e0@, ed@, 2048, 2048);
        crate::vec3::lemma_dot_bound(n@, n@, 0x80_0000, 0x80_0000);
    }
    let nn = crate::vec3::dot3(&n, &n);
    let w = crate::vec3::sub3(p, &t.p0);
    proof {
        crate::vec3::lemma_dot_bound(w@, n@, 2048, 0x80_0000);
    }
    let d = crate::vec3::dot3(&w, &n);
    let pa = int_point(p, s);
    let pb = if nn > 0 {
        proof {
            lemma_mul_bound(p@.x, nn as int, 1024, 0xC000_0000_0000);
            lemma_mul_bound(p@.y, nn as int, 1024, 0xC000_0000_0000);
            lemma_mul_bound(p@.z, nn as int, 1024, 0xC000_0000_0000);
            lemma_mul_bound(d as int, n@.x, 0xC_0000_0000, 0x80_0000);
            lemma_mul_bound(d as int, n@.y, 0xC_0000_0000, 0x80_0000);
            lemma_mul_bound(d as int, n@.z, 0xC_0000_0000, 0x80_0000);
            lemma_mul_bound(nn as int, s as int, 0xC000_0000_0000, 1024);
        }
        let den = nn * (s as i128);
        RatPoint {
            x: Ratio { num: (p.x as i128) * nn - d * (n.x as i128), den },
            y: Ratio { num: (p.y as i128) * nn - d * (n.y as i128), den },
            z: Ratio { num: (p.z as i128) * nn - d * (n.z as i128), den },
        }
    } else {
        int_point(&t.p0, s)
    };
    (d2, pa, pb)
}

/// Closest-point pair for the edge-edge candidate.
fn edges_pts(a1: &Vec3, b1: &Vec3, a2: &Vec3, b2: &Vec3, s: i64) -> (r: (
    Ratio,
    RatPoint,
    RatPoint,
))
    requires
        b3(a1@, WORLD_MAX as int),
        b3(b1@, WORLD_MAX as int),
        b3(a2@, WORLD_MAX as int),
        b3(b2@, WORLD_MAX as int),
        1 <= s <= 1024,
    ensures
        ratio_bounded(r.0),
{
    let d2 = crate::dist::edges_d2_ex(a1, b1, a2, b2);
    let u = crate::vec3::sub3(b1, a1);
    let v = crate::vec3::sub3(b2, a2);
    let w0 = crate::vec3::sub3(a1, a2);
    let uu = crate::vec3::dot3(&u, &u);
    let vv = crate::vec3::dot3(&v, &v);
    let uv = crate::vec3::dot3(&u, &v);
    let du = crate::vec3::dot3(&w0, &u);
    let dv = crate::vec3::dot3(&w0, &v);
    proof {
        crate::vec3::lemma_dot_bound(u@, u@, 2048, 2048);
        crate::vec3::lemma_dot_bound(v@, v@, 2048, 2048);
        crate::vec3::lemma_dot_bound(u@, v@, 2048, 2048);
        crate::vec3::lemma_dot_bound(w0@, u@, 2048, 2048);
        crate::vec3::lemma_dot_bound(w0@, v@, 2048, 2048);
        lemma_mul_bound(uu as int, vv as int, 0xC0_0000, 0xC0_0000);
        lemma_mul_bound(uv as int, uv as int, 0xC0_0000, 0xC0_0000);
        lemma_mul_bound(uv as int, dv as int, 0xC0_0000, 0xC0_0000);
        lemma_mul_bound(vv as int, du as int, 0xC0_0000, 0xC0_0000);
        lemma_mul_bound(uu as int, dv as int, 0xC0_0000, 0xC0_0000);
        lemma_mul_bound(uv as int, du as int, 0xC0_0000, 0xC0_0000);
    }
    let dd = uu * vv - uv * uv;
    let sn = uv * dv - vv * du;
    let tn = uu * dv - uv * du;
    if dd > 0 && 0 <= sn && sn <= dd && 0 <= tn && tn <= dd {
        proof {
            lemma_mul_bound(a1@.x, dd as int, 1024, 0x9_0000_0000_0000);
            lemma_mul_bound(a1@.y, dd as int, 1024, 0x9_0000_0000_0000);
            lemma_mul_bound(a1@.z, dd as int, 1024, 0x9_0000_0000_0000);
            lemma_mul_bound(a2@.x, dd as int, 1024, 0x9_0000_0000_0000);
            lemma_mul_bound(a2@.y, dd as int, 1024, 0x9_0000_0000_0000);
            lemma_mul_bound(a2@.z, dd as int, 1024, 0x9_0000_0000_0000);
            lemma_mul_bound(sn as int, u@.x, 0x9_0000_0000_0000, 2048);
            lemma_mul_bound(sn as int, u@.y, 0x9_0000_0000_0000, 2048);
            lemma_mul_bound(sn as int, u@.z, 0x9_0000_0000_0000, 2048);
            lemma_mul_bound(tn as int, v@.x, 0x9_0000_0000_0000, 2048);
            lemma_mul_bound(tn as int, v@.y, 0x9_0000_0000_0000, 2048);
            lemma_mul_bound(tn as int, v@.z, 0x9_0000_0000_0000, 2048);
            lemma_mul_bound(dd as int, s as int, 0x9_0000_0000_0000, 1024);
        }
        let den = dd * (s as i128);
        let pa = RatPoint {
            x: Ratio { num: (a1.x as i128) * dd + sn * (u.x as i128), den },
            y: Ratio { num: (a1.y as i128) * dd + sn * (u.y as i128), den },
            z: Ratio { num: (a1.z as i128) * dd + sn * (u.z as i128), den },
        };
        let pb = RatPoint {
            x: Ratio { num: (a2.x as i128) * dd + tn * (v.x as i128), den },
            y: Ratio { num: (a2.y as i128) * dd + tn * (v.y as i128), den },
            z: Ratio { num: (a2.z as i128) * dd + tn * (v.z as i128), den },
        };
        (d2, pa, pb)
    } else {
        seg_pts(a1, a2, b2, s)
    }
}

/// Perform distance check between two models transformed in space,
/// additionally reporting one pair of closest points.
///
/// The returned value is `None` in case of collision (or when either model
/// is empty); otherwise the `distance` field carries the same exact squared
/// distance that [`distance`] reports, and the two points are the
/// closest-feature pair of a closest triangle pair, in exact world
/// coordinates.
#[verifier::rlimit(80)]
pub fn distance_points(
    model_a: &Model, rotation_a: &Rotation, translation_a: &Vec3,
    model_b: &Model, rotation_b: &Rotation, translation_b: &Vec3,
    options: &DistanceOptions,
) -> (r: Option<DistancePoints>)
    requires
        crate::model::model_wf(*model_a),
        crate::model::model_wf(*model_b),
        rot_wf(*rotation_a),
        rot_wf(*rotation_b),
        b3(translation_a@, MODEL_MAX as int),
        b3(translation_b@, MODEL_MAX as int),
        placed_in_env(model_a@, *rotation_a, *translation_a, rotation_b.den as int),
        placed_in_env(model_b@, *rotation_b, *translation_b, rotation_a.den as int),
    ensures
        (r is None) == (model_a@.len() == 0 || model_b@.len() == 0 || models_collide(
            model_a@, *rotation_a, *translation_a, model_b@, *rotation_b, *translation_b,
        )),
        r is Some ==> r->Some_0.distance.den > 0,
        r is Some ==> forall |i: int, j: int|
            0 <= i < model_a@.len() && 0 <= j < model_b@.len() ==> rat_le(
                r->Some_0.distance.as_rat(),
                #[trigger] pair_dist2(
                    model_a@, *rotation_a, *translation_a,
                    model_b@, *rotation_b, *translation_b, i, j,
                ),
            ),
{
    let d = distance(
        model_a, rotation_a, translation_a, model_b, rotation_b, translation_b, options,
    );
    match d {
        None => None,
        Some(v) => {
            let ta = model_a.tris();
            let tb = model_b.tris();
            proof {
                lemma_mul_bound(rotation_a.den as int, rotation_b.den as int, DEN_MAX as int, DEN_MAX as int);
            }
            let s = rotation_a.den * rotation_b.den;
            proof {
                assert(s >= 1 && s <= 1024) by (nonlinear_arith)
                    requires
                        1 <= rotation_a.den <= 32,
                        1 <= rotation_b.den <= 32,
                        s == rotation_a.den * rotation_b.den,
                ;
            }
            let wta0 = place_tri_ex(rotation_a, translation_a, rotation_b.den, &ta[0]);
            let wtb0 = place_tri_ex(rotation_b, translation_b, rotation_a.den, &tb[0]);
            let mut bestp = pair_pts(&wta0, &wtb0, s);
            let mut i: usize = 0;
            while i < ta.len()
                invariant
                    ta@.len() == model_a@.len(),
                    tb@.len() == model_b@.len(),
                    model_a@.len() > 0,
                    model_b@.len() > 0,
                    i <= ta@.len(),
                    ratio_bounded(bestp.0),
                    rot_wf(*rotation_a),
                    rot_wf(*rotation_b),
                    1 <= s <= 1024,
                    b3(translation_a@, MODEL_MAX as int),
                    b3(translation_b@, MODEL_MAX as int),
                    forall |k: int| 0 <= k < ta@.len() ==> tri_in(#[trigger] ta@[k]@, MODEL_MAX as int),
                    forall |k: int| 0 <= k < tb@.len() ==> tri_in(#[trigger] tb@[k]@, MODEL_MAX as int),
                    placed_in_env(ta@, *rotation_a, *translation_a, rotation_b.den as int),
                    placed_in_env(tb@, *rotation_b, *translation_b, rotation_a.den as int),
                decreases ta@.len() - i,
            {
                let wta = place_tri_ex(rotation_a, translation_a, rotation_b.den, &ta[i]);
                let mut j: usize = 0;
                while j < tb.len()
                    invariant
                        tb@.len() == model_b@.len(),
                        j <= tb@.len(),
                        ratio_bounded(bestp.0),
                        rot_wf(*rotation_b),
                        1 <= rotation_a.den <= DEN_MAX,
                        1 <= s <= 1024,
                        tri_in(wta@, WORLD_MAX as int),
                        b3(translation_b@, MODEL_MAX as int),
                        forall |k: int| 0 <= k < tb@.len() ==> tri_in(#[trigger] tb@[k]@, MODEL_MAX as int),
                        placed_in_env(tb@, *rotation_b, *translation_b, rotation_a.den as int),
                    decreases tb@.len() - j,
                {
                    let wtb = place_tri_ex(rotation_b, translation_b, rotation_a.den, &tb[j]);
                    proof {
                        assert(tri_in(
                            place_tri(*rotation_b, translation_b@, rotation_a.den as int, tb@[j as int]@),
                            WORLD_MAX as int,
                        ));
                    }
                    let cand = pair_pts(&wta, &wtb, s);
                    bestp = pts_min(bestp, cand);
                    j += 1;
                }
                i += 1;
            }
            Some(DistancePoints { distance: v, point_a: bestp.1, point_b: bestp.2 })
        },
    }
}

} // verus!
