//! The one source of chance: uniform draws from the thread's generator.

use rand::Rng;
use vstd::prelude::*;

verus! {

/// `rand::Rng::gen_range(0, high)` on `rand::thread_rng()`: a draw from
/// `[0, high)`. The generator refuses an empty range, so `high` must be
/// positive; nothing but the range is claimed of the number drawn.
#[verifier::external_body]
pub(crate) fn random_below(high: u32) -> (n: u32)
    requires
        high > 0,
    ensures
        n < high,
{
    rand::thread_rng().gen_range(0, high)
}

} // verus!
