use vstd::prelude::*;
use rand::Rng;

verus! {

/// Relies on rand's `Rng::gen_range` on the thread-local generator
/// (`rand::thread_rng`): for a non-empty half-open range `lo..hi` it
/// returns a value inside the range, and it panics only when the range is
/// empty, which the precondition rules out. Nothing is assumed about which
/// value comes back.
#[verifier::external_body]
pub(crate) fn sample_range(lo: i32, hi: i32) -> (r: i32)
    requires
        lo < hi,
    ensures
        lo <= r < hi,
{
    rand::thread_rng().gen_range(lo..hi)
}

} // verus!
