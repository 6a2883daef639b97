//! The system clock.
//!
//! Nothing in this file is proved: each function hands its argument to the
//! standard library, and no contract says what time it is.

use std::time::{Duration, SystemTimeError, UNIX_EPOCH};
use vstd::prelude::*;

verus! {

/// `std::time::SystemTimeError`, what reading the clock failed with.
/// Nothing inside it is visible.
#[verifier::external_type_specification]
#[verifier::external_body]
pub struct ExSystemTimeError(SystemTimeError);

/// The whole seconds that a duration holds.
pub uninterp spec fn whole_seconds(elapsed: Duration) -> u64;

/// The message that a clock error displays.
pub uninterp spec fn time_error_text(error: SystemTimeError) -> Seq<char>;

/// Calls `SystemTime::elapsed` on `UNIX_EPOCH`: the time that has passed
/// since the Unix epoch, or an error if the clock is set before it. Nothing
/// is claimed of the result, which differs from call to call.
#[verifier::external_body]
pub(crate) fn read_clock() -> (elapsed: Result<Duration, SystemTimeError>) {
    UNIX_EPOCH.elapsed()
}

/// Calls `Duration::as_secs`, which returns the whole seconds of the
/// duration and drops the fraction. The contract claims only that the
/// number depends on the duration alone.
#[verifier::external_body]
pub(crate) fn seconds_of(elapsed: &Duration) -> (seconds: u64)
    ensures
        seconds == whole_seconds(*elapsed),
{
    elapsed.as_secs()
}

/// Calls `to_string` on a `SystemTimeError`, which returns the message that
/// the error displays. The contract claims only that the message depends on
/// the error alone.
#[verifier::external_body]
pub(crate) fn time_error_message(error: &SystemTimeError) -> (text: String)
    ensures
        text@ == time_error_text(*error),
{
    error.to_string()
}

} // verus!
