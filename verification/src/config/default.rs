//! The values of the settings that a configuration file may leave out.

use vstd::prelude::*;

verus! {

/// Network access is allowed unless the configuration says otherwise.
pub fn offline() -> (r: bool)
    ensures
        r == false,
{
    false
}

/// The number of requests that may be in flight at once.
pub fn max_concurrent() -> (r: usize)
    ensures
        r == 16,
{
    16
}

} // verus!
