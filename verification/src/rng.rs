//! Trusted wrappers around the ambient random-number source.
//!
//! Every stochastic operation of the simulation (spawning, movement samples,
//! combat tie-breaks, mutation offsets) draws through one of the two
//! functions here; their contracts state only what holds of every outcome.

use vstd::prelude::*;

use rand::Rng;

verus! {

/// Relies on `rand::Rng::gen_range` on `rand::thread_rng()`: a draw from the
/// half-open range `0..bound` lies in that range, and the range is non-empty,
/// so the call does not panic.
#[verifier::external_body]
pub(crate) fn rand_below(bound: u32) -> (r: u32)
    requires
        bound > 0,
    ensures
        r < bound,
{
    rand::thread_rng().gen_range(0..bound)
}

/// Relies on `rand::Rng::gen_range` on `rand::thread_rng()`: a draw from the
/// half-open range `-span..span` lies in that range, and the range is
/// non-empty, so the call does not panic.
#[verifier::external_body]
pub(crate) fn rand_offset(span: i32) -> (r: i32)
    requires
        span > 0,
    ensures
        -span <= r < span,
{
    rand::thread_rng().gen_range(-span..span)
}

} // verus!
