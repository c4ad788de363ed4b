//! Random perturbations for rough reflection.
use vstd::prelude::*;

use rand::Rng;

use crate::fixed::Vec3;

verus! {

/// Relies on `rand::thread_rng` and `rand::Rng::gen_range` over an inclusive range:
/// a value drawn from `lo..=hi` by the calling thread's own generator (it panics on
/// an empty range, which `requires` leaves out).
#[verifier::external_body]
fn random_in(lo: i64, hi: i64) -> (r: i64)
    requires
        lo <= hi,
    ensures
        lo <= r <= hi,
{
    rand::thread_rng().gen_range(lo..=hi)
}

/// A vector whose components are drawn independently from `lo..=hi`.
pub fn random_vec(lo: i64, hi: i64) -> (r: Vec3)
    requires
        lo <= hi,
    ensures
        lo <= r.x <= hi,
        lo <= r.y <= hi,
        lo <= r.z <= hi,
{
    let x = random_in(lo, hi);
    let y = random_in(lo, hi);
    let z = random_in(lo, hi);
    Vec3 { x, y, z }
}

} // verus!
