//! Changing the database: beginning and ending the tracking of time.

use vstd::prelude::*;
use crate::entry::TimeEntry;
use crate::error::Error;

verus! {

/// Ends the tracking that is under way and begins one with the given
/// tags. The database cannot be changed yet: the call is always refused.
pub fn start(tags: &str) -> (r: Result<TimeEntry, Error>)
    ensures
        r matches Err(e) && e == Error::Unsupported,
{
    Err(Error::Unsupported)
}

} // verus!
