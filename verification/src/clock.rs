//! The one clock call the library makes.

use vstd::prelude::*;

verus! {

/// Relies on chrono::Utc::now for the current instant and on
/// chrono::DateTime::timestamp to read it as whole seconds since the Unix
/// epoch. Nothing is promised of the value: it comes from the machine's
/// clock.
#[verifier::external_body]
pub(crate) fn now_timestamp() -> i64 {
    chrono::Utc::now().timestamp()
}

} // verus!
