//! Mesh models and their bounding-volume hierarchy.
//!
//! A mesh is built incrementally through [`ModelBuilder`] and frozen by
//! [`ModelBuilder::build`] into an immutable [`Model`].  The builder-to-model
//! transition consumes the builder, so appending after finalisation is ruled
//! out by the type system rather than by a runtime flag.  Finalisation
//! derives a binary bounding-volume hierarchy over the triangle list: each
//! leaf holds one triangle index together with the triangle's bounding box,
//! and each internal node holds the componentwise union of its children's
//! boxes.  A node always splits its triangle range in two non-empty halves,
//! so every triangle belongs to exactly one leaf, and construction is
//! deterministic for a fixed triangle list.

use vstd::prelude::*;
use crate::rot::MODEL_MAX;
use crate::tri::{tri_in, Triangle};
use crate::vec3::{b3, V3i, Vec3};

verus! {

/// One node of the bounding-volume hierarchy, stored in a flat arena whose
/// children always precede their parent.
#[derive(Clone, Copy, Debug)]
pub enum BvhNode {
    /// A leaf: the bounding box of one triangle and that triangle's index.
    Leaf {
        /// Componentwise lower corner.
        lo: Vec3,
        /// Componentwise upper corner.
        hi: Vec3,
        /// Index of the covered triangle.
        tri: usize,
    },
    /// An internal node: a box enclosing both children.
    Node {
        /// Componentwise lower corner.
        lo: Vec3,
        /// Componentwise upper corner.
        hi: Vec3,
        /// Arena index of the left child (earlier triangle range).
        left: usize,
        /// Arena index of the right child (later triangle range).
        right: usize,
        /// First triangle index of the right child's range.
        mid: usize,
    },
}

/// Point `p` lies in the closed box `[lo, hi]`.
pub open spec fn in_box(lo: V3i, hi: V3i, p: V3i) -> bool {
    &&& lo.x <= p.x <= hi.x
    &&& lo.y <= p.y <= hi.y
    &&& lo.z <= p.z <= hi.z
}

/// Every corner of the first box lies in the second.
pub open spec fn box_inside(lo: V3i, hi: V3i, outer_lo: V3i, outer_hi: V3i) -> bool {
    &&& outer_lo.x <= lo.x && hi.x <= outer_hi.x
    &&& outer_lo.y <= lo.y && hi.y <= outer_hi.y
    &&& outer_lo.z <= lo.z && hi.z <= outer_hi.z
}

/// The lower corner of a node.
pub open spec fn node_lo(n: BvhNode) -> V3i {
    match n {
        BvhNode::Leaf { lo, .. } => lo@,
        BvhNode::Node { lo, .. } => lo@,
    }
}

/// The upper corner of a node.
pub open spec fn node_hi(n: BvhNode) -> V3i {
    match n {
        BvhNode::Leaf { hi, .. } => hi@,
        BvhNode::Node { hi, .. } => hi@,
    }
}

/// Well-formedness of the subtree rooted at arena index `i`: it covers
/// exactly the triangle indices `[a, b)`, its box corners are ordered,
/// bounded model coordinates, every leaf box contains its triangle, and
/// every internal box contains its children's boxes.
pub open spec fn node_wf(ns: Seq<BvhNode>, tris: Seq<Triangle>, i: int, a: int, b: int) -> bool
    decreases i,
{
    &&& 0 <= i < ns.len()
    &&& b3(node_lo(ns[i]), MODEL_MAX as int)
    &&& b3(node_hi(ns[i]), MODEL_MAX as int)
    &&& match ns[i] {
        BvhNode::Leaf { lo, hi, tri } => {
            &&& b == a + 1
            &&& tri == a
            &&& 0 <= a < tris.len()
            &&& in_box(lo@, hi@, tris[a]@.a)
            &&& in_box(lo@, hi@, tris[a]@.b)
            &&& in_box(lo@, hi@, tris[a]@.c)
        },
        BvhNode::Node { lo, hi, left, right, mid } => {
            &&& left < i
            &&& right < i
            &&& a < mid < b
            &&& node_wf(ns, tris, left as int, a, mid as int)
            &&& node_wf(ns, tris, right as int, mid as int, b)
            &&& box_inside(node_lo(ns[left as int]), node_hi(ns[left as int]), lo@, hi@)
            &&& box_inside(node_lo(ns[right as int]), node_hi(ns[right as int]), lo@, hi@)
        },
    }
}

/// Extending the arena with further nodes preserves well-formedness of an
/// existing subtree.
pub proof fn lemma_node_wf_extend(ns1: Seq<BvhNode>, ns2: Seq<BvhNode>, tris: Seq<Triangle>, i: int, a: int, b: int)
    requires
        node_wf(ns1, tris, i, a, b),
        ns1.len() <= ns2.len(),
        forall |k: int| 0 <= k < ns1.len() ==> ns2[k] == ns1[k],
    ensures
        node_wf(ns2, tris, i, a, b),
    decreases i,
{
    match ns1[i] {
        BvhNode::Leaf { .. } => {
        },
        BvhNode::Node { left, right, mid, .. } => {
            lemma_node_wf_extend(ns1, ns2, tris, left as int, a, mid as int);
            lemma_node_wf_extend(ns1, ns2, tris, right as int, mid as int, b);
        },
    }
}

/// Every vertex of every triangle covered by a well-formed subtree lies in
/// the subtree's box.
pub proof fn lemma_node_covers(ns: Seq<BvhNode>, tris: Seq<Triangle>, i: int, a: int, b: int, k: int)
    requires
        node_wf(ns, tris, i, a, b),
        a <= k < b,
    ensures
        0 <= k < tris.len(),
        in_box(node_lo(ns[i]), node_hi(ns[i]), tris[k]@.a),
        in_box(node_lo(ns[i]), node_hi(ns[i]), tris[k]@.b),
        in_box(node_lo(ns[i]), node_hi(ns[i]), tris[k]@.c),
    decreases i,
{
    match ns[i] {
        BvhNode::Leaf { .. } => {
        },
        BvhNode::Node { left, right, mid, .. } => {
            if k < mid {
                lemma_node_covers(ns, tris, left as int, a, mid as int, k);
            } else {
                lemma_node_covers(ns, tris, right as int, mid as int, b, k);
            }
        },
    }
}

/// Builds models out of passed triangles.
///
/// The builder is the mutable *building* state of a mesh; freezing it with
/// [`ModelBuilder::build`] consumes it, so no mutation after finalisation is
/// possible.
pub struct ModelBuilder {
    triangles: Vec<Triangle>,
}

impl View for ModelBuilder {
    type V = Seq<Triangle>;

    closed spec fn view(&self) -> Seq<Triangle> {
        self.triangles@
    }
}

/// All triangles appended so far are within the model coordinate bound.
pub open spec fn builder_wf(b: ModelBuilder) -> bool {
    forall |i: int| 0 <= i < b@.len() ==> tri_in(#[trigger] b@[i]@, MODEL_MAX as int)
}

impl ModelBuilder {
    /// Create a new model builder with an empty triangle list.
    pub fn new() -> (r: ModelBuilder)
        ensures
            r@ =~= Seq::<Triangle>::empty(),
            builder_wf(r),
    {
        ModelBuilder { triangles: Vec::new() }
    }

    /// Add a triangle, given in model-local coordinates, to the built model.
    ///
    /// Degenerate (zero-area) triangles are accepted.  Coordinates must lie
    /// within `[-MODEL_MAX, MODEL_MAX]`, the exact-arithmetic envelope.
    pub fn add_triangle(&mut self, p0: Vec3, p1: Vec3, p2: Vec3)
        requires
            builder_wf(*old(self)),
            b3(p0@, MODEL_MAX as int),
            b3(p1@, MODEL_MAX as int),
            b3(p2@, MODEL_MAX as int),
        ensures
            final(self)@ =~= old(self)@.push(Triangle { p0, p1, p2 }),
            builder_wf(*final(self)),
    {
        self.triangles.push(Triangle { p0, p1, p2 });
        proof {
            assert forall |i: int| 0 <= i < self@.len() implies tri_in(
                #[trigger] self@[i]@,
                MODEL_MAX as int,
            ) by {
                if i < self@.len() - 1 {
                    assert(tri_in(old(self)@[i]@, MODEL_MAX as int));
                }
            }
        }
    }

    /// Consume the model builder and get the finished model.
    ///
    /// Freezing the triangle list also derives the model's bounding-volume
    /// hierarchy.
    pub fn build(self) -> (m: Model)
        requires
            builder_wf(self),
        ensures
            m@ =~= self@,
            model_wf(m),
    {
        proof {
            assert forall |i: int| 0 <= i < self.triangles@.len() implies tri_in(
                #[trigger] self.triangles@[i]@,
                MODEL_MAX as int,
            ) by {
                assert(tri_in(self@[i]@, MODEL_MAX as int));
            }
        }
        let mut bvh: Vec<BvhNode> = Vec::new();
        let n = self.triangles.len();
        let mut root: usize = 0;
        if n > 0 {
            root = build_node(&self.triangles, &mut bvh, 0, n);
        }
        let m = Model { triangles: self.triangles, bvh, root };
        proof {
            assert forall |i: int| 0 <= i < m@.len() implies tri_in(
                #[trigger] m@[i]@,
                MODEL_MAX as int,
            ) by {
                assert(tri_in(self@[i]@, MODEL_MAX as int));
            }
        }
        m
    }
}

impl Default for ModelBuilder {
    /// An empty builder, as [`ModelBuilder::new`] returns.
    fn default() -> (r: ModelBuilder)
        ensures
            r@ =~= Seq::<Triangle>::empty(),
            builder_wf(r),
    {
        ModelBuilder::new()
    }
}

/// Model created by model builder, used for collision and distance checks.
///
/// A model is immutable: its triangle list and derived hierarchy never
/// change after [`ModelBuilder::build`], so it may be shared freely between
/// concurrent read-only queries.
pub struct Model {
    triangles: Vec<Triangle>,
    bvh: Vec<BvhNode>,
    root: usize,
}

impl View for Model {
    type V = Seq<Triangle>;

    closed spec fn view(&self) -> Seq<Triangle> {
        self.triangles@
    }
}

/// Invariant of a finalized model: bounded coordinates, and a hierarchy
/// covering exactly the triangle indices `[0, len)` whenever the model is
/// non-empty.
pub open spec fn model_wf(m: Model) -> bool {
    &&& forall |i: int| 0 <= i < m@.len() ==> tri_in(#[trigger] m@[i]@, MODEL_MAX as int)
    &&& m@.len() > 0 ==> node_wf(m.bvh_view(), m@, m.root_view(), 0, m@.len() as int)
}

impl Model {
    /// The node arena of the model's hierarchy.
    pub closed spec fn bvh_view(&self) -> Seq<BvhNode> {
        self.bvh@
    }

    /// The arena index of the hierarchy's root.
    pub closed spec fn root_view(&self) -> int {
        self.root as int
    }

    /// The number of triangles in the model.
    pub fn len(&self) -> (r: usize)
        ensures
            r == self@.len(),
    {
        self.triangles.len()
    }

    pub(crate) fn tris(&self) -> (r: &Vec<Triangle>)
        ensures
            r@ == self@,
    {
        &self.triangles
    }

    pub(crate) fn nodes(&self) -> (r: &Vec<BvhNode>)
        ensures
            r@ == self.bvh_view(),
    {
        &self.bvh
    }

    pub(crate) fn root_index(&self) -> (r: usize)
        ensures
            r == self.root_view(),
    {
        self.root
    }
}

/// Smaller of two machine integers.
fn imin(a: i64, b: i64) -> (r: i64)
    ensures
        r == if a <= b { a } else { b },
{
    if a <= b { a } else { b }
}

/// Larger of two machine integers.
fn imax(a: i64, b: i64) -> (r: i64)
    ensures
        r == if a >= b { a } else { b },
{
    if a >= b { a } else { b }
}

/// Componentwise minimum.
fn vmin(a: &Vec3, b: &Vec3) -> (r: Vec3)
    ensures
        r@.x == if a@.x <= b@.x { a@.x } else { b@.x },
        r@.y == if a@.y <= b@.y { a@.y } else { b@.y },
        r@.z == if a@.z <= b@.z { a@.z } else { b@.z },
{
    Vec3 { x: imin(a.x, b.x), y: imin(a.y, b.y), z: imin(a.z, b.z) }
}

/// Componentwise maximum.
fn vmax(a: &Vec3, b: &Vec3) -> (r: Vec3)
    ensures
        r@.x == if a@.x >= b@.x { a@.x } else { b@.x },
        r@.y == if a@.y >= b@.y { a@.y } else { b@.y },
        r@.z == if a@.z >= b@.z { a@.z } else { b@.z },
{
    Vec3 { x: imax(a.x, b.x), y: imax(a.y, b.y), z: imax(a.z, b.z) }
}

/// Recursively build the subtree for triangle range `[a, b)`, appending its
/// nodes to the arena and returning the subtree root's index.
fn build_node(tris: &Vec<Triangle>, arena: &mut Vec<BvhNode>, a: usize, b: usize) -> (root: usize)
    requires
        a < b <= tris@.len(),
        forall |i: int| 0 <= i < tris@.len() ==> tri_in(#[trigger] tris@[i]@, MODEL_MAX as int),
    ensures
        old(arena)@.len() <= final(arena)@.len(),
        forall |k: int| 0 <= k < old(arena)@.len() ==> final(arena)@[k] == old(arena)@[k],
        root < final(arena)@.len(),
        node_wf(final(arena)@, tris@, root as int, a as int, b as int),
    decreases b - a,
{
    if b - a == 1 {
        let t = tris[a];
        proof {
            assert(tri_in(tris@[a as int]@, MODEL_MAX as int));
        }
        let lo = vmin(&vmin(&t.p0, &t.p1), &t.p2);
        let hi = vmax(&vmax(&t.p0, &t.p1), &t.p2);
        let idx = arena.len();
        arena.push(BvhNode::Leaf { lo, hi, tri: a });
        idx
    } else {
        let m = a + (b - a) / 2;
        let left = build_node(tris, arena, a, m);
        let ghost arena1 = arena@;
        let right = build_node(tris, arena, m, b);
        proof {
            lemma_node_wf_extend(arena1, arena@, tris@, left as int, a as int, m as int);
        }
        let (llo, lhi) = node_box(arena, left);
        let (rlo, rhi) = node_box(arena, right);
        let lo = vmin(&llo, &rlo);
        let hi = vmax(&lhi, &rhi);
        let idx = arena.len();
        let ghost arena2 = arena@;
        arena.push(BvhNode::Node { lo, hi, left, right, mid: m });
        proof {
            lemma_node_wf_extend(arena2, arena@, tris@, left as int, a as int, m as int);
            lemma_node_wf_extend(arena2, arena@, tris@, right as int, m as int, b as int);
        }
        idx
    }
}

/// Read a node's box.
pub(crate) fn node_box(arena: &Vec<BvhNode>, i: usize) -> (r: (Vec3, Vec3))
    requires
        i < arena@.len(),
    ensures
        r.0@ == node_lo(arena@[i as int]),
        r.1@ == node_hi(arena@[i as int]),
{
    match arena[i] {
        BvhNode::Leaf { lo, hi, .. } => (lo, hi),
        BvhNode::Node { lo, hi, .. } => (lo, hi),
    }
}

} // verus!
