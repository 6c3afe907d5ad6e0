//! Decision logic for the static-dataset bootstrap: a dataset is
//! downloaded only when no previously stored copy can be found.

use vstd::prelude::*;

verus! {

/// A static dataset must be fetched exactly when it was found neither in
/// the cache directory nor in the data directory.
pub fn shoud_fetch(cache_hit: bool, data_hit: bool) -> (r: bool)
    ensures
        r == (!cache_hit && !data_hit),
{
    !cache_hit && !data_hit
}

} // verus!
