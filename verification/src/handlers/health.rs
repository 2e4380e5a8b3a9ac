//! The health check.

use vstd::prelude::*;

verus! {

/// The body of the answer to a health check.
pub fn ping() -> (body: &'static str)
    ensures
        body@ == "pong"@,
{
    "pong"
}

} // verus!
