//! Exact rational scalars.
//!
//! Screen positions, glyph sizes and texture coordinates are fractions of a
//! window or atlas dimension, so every coordinate this crate produces is a
//! rational number. `Frac` keeps the numerator and denominator exactly; the
//! unverified rendering shell divides them out to floating point only when it
//! uploads vertex data.

use vstd::prelude::*;

verus! {

/// Largest numerator magnitude admitted by [`frac_wf`]: `2^85`. Wide enough
/// for every coordinate the grid produces, small enough that the vertex math
/// in [`crate::geometry`] stays inside `i128`.
pub const FRAC_NUM_BOUND: i128 = 38685626227668133590597632;

/// Largest denominator admitted by [`frac_wf`]: `2^35`.
pub const FRAC_DEN_BOUND: i128 = 34359738368;

/// Largest numerator magnitude of a sum of two well-formed scalars: `2^121`,
/// twice the product of [`FRAC_NUM_BOUND`] and [`FRAC_DEN_BOUND`].
pub const FRAC_SUM_NUM_BOUND: i128 = 2658455991569831745807614120560689152;

/// Largest denominator of a sum of two well-formed scalars: `2^70`, the
/// square of [`FRAC_DEN_BOUND`].
pub const FRAC_SUM_DEN_BOUND: i128 = 1180591620717411303424;

/// A rational number `num / den`.
#[derive(Clone, Copy, PartialEq, Eq, Structural, Debug)]
pub struct Frac {
    pub num: i128,
    pub den: i128,
}

/// Well-formed scalar: positive denominator, both parts bounded so that sums
/// and the final linear map to device coordinates cannot overflow `i128`.
pub open spec fn frac_wf(f: Frac) -> bool {
    &&& 0 < f.den <= FRAC_DEN_BOUND
    &&& -FRAC_NUM_BOUND <= f.num <= FRAC_NUM_BOUND
}

/// `f` has the rational value `n / d`.
pub open spec fn frac_is(f: Frac, n: int, d: int) -> bool {
    &&& d != 0
    &&& f.den != 0
    &&& f.num * d == n * f.den
}

impl Frac {
    /// Build the fraction `num / den`.
    pub fn new(num: i128, den: i128) -> (r: Frac)
        requires
            den > 0,
        ensures
            r.num == num,
            r.den == den,
    {
        Frac { num, den }
    }
}

} // verus!
