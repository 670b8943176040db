//! Library-wide laws, proved once and for all placements.
//!
//! These proof functions state properties that relate the query functions to
//! each other and bound their results; each is proved from the
//! specifications that the executable functions are verified against.

use vstd::prelude::*;

use crate::queries::models_collide;

use crate::rot::{place_tri, Rotation};
use crate::tri::{tri_intersect, Triangle};

verus! {

/// The overlap test is symmetric: testing model `A` against model `B`
/// answers the same as testing `B` against `A`, for any placements.
pub proof fn lemma_collide_symmetric(
    a: Seq<Triangle>, ra: Rotation, ta: crate::vec3::Vec3,
    b: Seq<Triangle>, rb: Rotation, tb: crate::vec3::Vec3,
)
    ensures
        models_collide(a, ra, ta, b, rb, tb) == models_collide(b, rb, tb, a, ra, ta),
{
    if models_collide(a, ra, ta, b, rb, tb) {
        let (i, j) = choose |i: int, j: int|
            0 <= i < a.len() && 0 <= j < b.len() && tri_intersect(
                #[trigger] place_tri(ra, ta@, rb.den as int, a[i]@),
                #[trigger] place_tri(rb, tb@, ra.den as int, b[j]@),
            );
        assert(tri_intersect(
            place_tri(rb, tb@, ra.den as int, b[j]@),
            place_tri(ra, ta@, rb.den as int, a[i]@),
        ));
    }
    if models_collide(b, rb, tb, a, ra, ta) {
        let (j, i) = choose |j: int, i: int|
            0 <= j < b.len() && 0 <= i < a.len() && tri_intersect(
                #[trigger] place_tri(rb, tb@, ra.den as int, b[j]@),
                #[trigger] place_tri(ra, ta@, rb.den as int, a[i]@),
            );
        assert(tri_intersect(
            place_tri(ra, ta@, rb.den as int, a[i]@),
            place_tri(rb, tb@, ra.den as int, b[j]@),
        ));
    }
}

/// An empty model can collide with nothing.
pub proof fn lemma_empty_never_collides(
    a: Seq<Triangle>, ra: Rotation, ta: crate::vec3::Vec3,
    b: Seq<Triangle>, rb: Rotation, tb: crate::vec3::Vec3,
)
    requires
        a.len() == 0 || b.len() == 0,
    ensures
        !models_collide(a, ra, ta, b, rb, tb),
{
}

} // verus!
