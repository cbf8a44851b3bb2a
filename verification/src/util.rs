//! Utility functions.

use vstd::prelude::*;

verus! {

/// Returns the current timestamp in milliseconds from the Unix epoch.
///
/// Relies on `std::time::SystemTime::now`: what time it is is the
/// clock's business, so nothing is promised of the result.  A clock
/// standing before the epoch yields 0.
#[verifier::external_body]
pub fn get_timestamp() -> u64 {
    match std::time::SystemTime::now().duration_since(std::time::UNIX_EPOCH) {
        Ok(d) => d.as_millis() as u64,
        Err(_) => 0,
    }
}

/// Relies on `String: FromIterator<char>`: collecting characters builds
/// the string of exactly those characters.
#[verifier::external_body]
pub(crate) fn string_from_chars(v: &Vec<char>) -> (s: String)
    ensures
        s@ == v@,
{
    v.iter().collect()
}

} // verus!
