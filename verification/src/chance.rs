use rand::Rng;
use vstd::prelude::*;

verus! {

/// Draws an integer from the thread-local generator of the `rand` crate with
/// `Rng::gen_range(low..high)`. That call panics on an empty range, which the
/// precondition excludes; for a non-empty range of integers it returns a value
/// that is at least `low` and below `high`. Which value is left open: two calls
/// may differ. (The generator seeds itself from the operating system on first
/// use.)
#[verifier::external_body]
pub(crate) fn random_in_range(low: i64, high: i64) -> (r: i64)
    requires
        low < high,
    ensures
        low <= r < high,
{
    rand::thread_rng().gen_range(low..high)
}

} // verus!
