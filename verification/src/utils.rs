//! Small helpers at the boundary to the standard library: the clock and
//! string comparison.

use vstd::prelude::*;

verus! {

/// Seconds since the Unix epoch, or 0 if the system clock reads earlier
/// than the epoch.
///
/// Relies on `std::time::SystemTime::now` and
/// `SystemTime::duration_since(UNIX_EPOCH)`: the wall clock, read once.
/// Nothing is assumed of the value; callers treat it as an arbitrary
/// timestamp.
#[verifier::external_body]
pub fn now_date() -> u64 {
    match std::time::SystemTime::now().duration_since(std::time::UNIX_EPOCH) {
        Ok(d) => d.as_secs(),
        Err(_) => 0,
    }
}

/// Relies on `String::push`: appends the given character to the end of
/// the string.
pub assume_specification[ String::push ](s: &mut String, ch: char)
    ensures
        final(s)@ == old(s)@.push(ch),
;

/// Relies on `str`'s `PartialEq`: two string slices are equal exactly when
/// their character sequences are equal.
#[verifier::external_body]
pub(crate) fn str_eq(a: &str, b: &str) -> (r: bool)
    ensures
        r == (a@ == b@),
{
    a == b
}

} // verus!
