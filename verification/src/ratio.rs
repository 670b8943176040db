//! Exact rational values.
//!
//! Squared distances between meshes with integer coordinates are rational
//! numbers.  The engine represents them exactly: in specifications as [`Rat`]
//! (unbounded integer numerator and positive denominator), in executable code
//! as [`Ratio`] (an `i128` pair).  Order and equality are defined by
//! cross-multiplication, so no normalisation is ever needed.

use vstd::prelude::*;

verus! {

/// Specification-level rational number: `num / den` with `den > 0`.
pub struct Rat {
    /// Numerator.
    pub num: int,
    /// Denominator; well-formed values keep it positive.
    pub den: int,
}

/// A rational value is well-formed when its denominator is positive.
pub open spec fn rat_wf(a: Rat) -> bool {
    a.den > 0
}

/// Order on rationals by cross-multiplication (valid for positive denominators).
pub open spec fn rat_le(a: Rat, b: Rat) -> bool {
    a.num * b.den <= b.num * a.den
}

/// Equality of rational values by cross-multiplication.
pub open spec fn rat_eq(a: Rat, b: Rat) -> bool {
    a.num * b.den == b.num * a.den
}

/// The smaller of two rationals; ties keep the left argument.
pub open spec fn rat_min(a: Rat, b: Rat) -> Rat {
    if rat_le(a, b) {
        a
    } else {
        b
    }
}

/// The larger of two rationals; ties keep the right argument.
pub open spec fn rat_max(a: Rat, b: Rat) -> Rat {
    if rat_le(a, b) {
        b
    } else {
        a
    }
}

/// The rational with value `i`.
pub open spec fn rat_of_int(i: int) -> Rat {
    Rat { num: i, den: 1 }
}

/// `rat_le` is transitive on well-formed rationals.
pub proof fn lemma_rat_le_trans(a: Rat, b: Rat, c: Rat) by (nonlinear_arith)
    requires
        rat_wf(a),
        rat_wf(b),
        rat_wf(c),
        rat_le(a, b),
        rat_le(b, c),
    ensures
        rat_le(a, c),
{
}

/// Executable exact rational: `num / den` with `den > 0`.
///
/// Used both for reported squared distances and for the coordinates of
/// witness points.
#[derive(Clone, Copy, Debug, PartialEq, Eq, Structural)]
pub struct Ratio {
    /// Numerator.
    pub num: i128,
    /// Denominator, always positive for values produced by this crate.
    pub den: i128,
}

impl Ratio {
    /// The rational value this pair denotes.
    pub open spec fn as_rat(self) -> Rat {
        Rat { num: self.num as int, den: self.den as int }
    }
}

/// Largest numerator magnitude any distance candidate can take when all
/// coordinates are within the query envelope.
pub const CAND_NUM_MAX: i128 = 2304 * 1024 * 1024 * 1024 * 1024 * 1024 * 1024;

/// Largest denominator any distance candidate can take when all coordinates
/// are within the query envelope.
pub const CAND_DEN_MAX: i128 = 192 * 1024 * 1024 * 1024 * 1024;

/// A candidate value is in range when its numerator and denominator are
/// bounded as above; cross-multiplication then stays inside `i128`.
pub open spec fn ratio_bounded(a: Ratio) -> bool {
    &&& -CAND_NUM_MAX <= a.num <= CAND_NUM_MAX
    &&& 0 < a.den <= CAND_DEN_MAX
}

/// Bound on a product from bounds on its factors.
pub proof fn lemma_mul_bound(x: int, y: int, mx: int, my: int) by (nonlinear_arith)
    requires
        -mx <= x <= mx,
        -my <= y <= my,
        0 <= mx,
        0 <= my,
    ensures
        -(mx * my) <= x * y <= mx * my,
{
}

/// Cross-multiplication of bounded candidates stays inside `i128`.
proof fn lemma_cross_in_range(x: int, y: int)
    requires
        -CAND_NUM_MAX <= x <= CAND_NUM_MAX,
        0 <= y <= CAND_DEN_MAX,
    ensures
        -i128::MAX <= x * y <= i128::MAX,
{
    lemma_mul_bound(x, y, CAND_NUM_MAX as int, CAND_DEN_MAX as int);
    assert((CAND_NUM_MAX as int) * (CAND_DEN_MAX as int) <= i128::MAX) by (nonlinear_arith);
}

/// Compare two bounded exact rationals.
pub fn ratio_le(a: &Ratio, b: &Ratio) -> (r: bool)
    requires
        ratio_bounded(*a),
        ratio_bounded(*b),
    ensures
        r == rat_le(a.as_rat(), b.as_rat()),
{
    proof {
        lemma_cross_in_range(a.num as int, b.den as int);
        lemma_cross_in_range(b.num as int, a.den as int);
    }
    a.num * b.den <= b.num * a.den
}

/// The smaller of two bounded exact rationals.
pub fn ratio_min(a: Ratio, b: Ratio) -> (r: Ratio)
    requires
        ratio_bounded(a),
        ratio_bounded(b),
    ensures
        r.as_rat() == rat_min(a.as_rat(), b.as_rat()),
        ratio_bounded(r),
{
    if ratio_le(&a, &b) {
        a
    } else {
        b
    }
}

/// The larger of two bounded exact rationals.
pub fn ratio_max(a: Ratio, b: Ratio) -> (r: Ratio)
    requires
        ratio_bounded(a),
        ratio_bounded(b),
    ensures
        r.as_rat() == rat_max(a.as_rat(), b.as_rat()),
        ratio_bounded(r),
{
    if ratio_le(&a, &b) {
        b
    } else {
        a
    }
}

} // verus!
