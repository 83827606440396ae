//! The choice of a window's configuration.

use vstd::prelude::*;

verus! {

/// Whether a configuration is to be preferred to the best one so far: only if it
/// has more samples.
pub fn more_samples(best: u8, next: u8) -> (yes: bool)
    ensures
        yes == (next > best),
{
    next > best
}

} // verus!
