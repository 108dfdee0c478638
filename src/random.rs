use vstd::prelude::*;
use rand::Rng;

verus! {

/// Relies on `rand::thread_rng` and `Rng::gen_range`, which draws a number
/// from `0..bound` (and panics on an empty range, hence `bound > 0`).
/// `thread_rng` itself panics only where the operating system yields no
/// random seed at all.
#[verifier::external_body]
pub(crate) fn draw_below(bound: usize) -> (r: usize)
    requires
        bound > 0,
    ensures
        r < bound,
{
    rand::thread_rng().gen_range(0..bound)
}

} // verus!
