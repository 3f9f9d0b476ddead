//! The failures that console automation reports.

use vstd::prelude::*;

verus! {

/// The operating system's own error value. Nothing is known of what it holds.
#[verifier::external_type_specification]
#[verifier::external_body]
pub struct ExIoError(std::io::Error);

/// `std::io::Error::last_os_error` reads the error code that the operating
/// system left for the calling thread. The code depends on the calls made
/// before, so nothing is claimed of the value that comes back.
pub assume_specification[ std::io::Error::last_os_error ]() -> (error: std::io::Error)
;

/// What went wrong.
#[derive(Debug)]
pub enum AutoConError {
    /// A call into the console subsystem failed: the label of the call and
    /// the operating system's error.
    Win32Error(&'static str, std::io::Error),
    /// The deadline passed, every look at the screen had succeeded, and the
    /// expected prompt never appeared.
    Timeout,
    /// A failure that the caller defines, carried through unchanged.
    UserDefinedError(String),
}

/// The failure of the console call named by `ctx`, with the error that the
/// operating system reports for the calling thread at this moment.
pub fn last_os_error(ctx: &'static str) -> (error: AutoConError)
    ensures
        error is Win32Error,
        error->Win32Error_0 == ctx,
{
    AutoConError::Win32Error(ctx, std::io::Error::last_os_error())
}

/// The failure that the caller defines, with `message` as its text.
pub fn user_defined_error(message: String) -> (error: AutoConError)
    ensures
        error == AutoConError::UserDefinedError(message),
{
    AutoConError::UserDefinedError(message)
}

} // verus!
