//! The uniform random-draw source the simulation consumes.
//!
//! Everything downstream is verified for every value a draw can take: a
//! contract never says more about a draw than its range, and each system
//! states what holds of the world whichever way its rolls land.

use vstd::prelude::*;

verus! {

/// Relies on rand::random_range: a uniform draw from `lo..hi`, which panics
/// only on an empty range; the result always lies inside the range.
#[verifier::external_body]
pub(crate) fn rand_in_range(lo: i64, hi: i64) -> (r: i64)
    requires
        lo < hi,
    ensures
        lo <= r < hi,
{
    rand::random_range(lo..hi)
}

/// A uniform draw in thousandths, for chance rolls against a permille
/// threshold.
pub(crate) fn roll_permille() -> (r: u32)
    ensures
        r < 1000,
{
    let v = rand_in_range(0, 1000);
    v as u32
}

/// A uniform index below `len`.
pub(crate) fn rand_index(len: usize) -> (r: usize)
    requires
        1 <= len <= 0x7fff_ffff,
    ensures
        r < len,
{
    let v = rand_in_range(0, len as i64);
    v as usize
}

} // verus!
