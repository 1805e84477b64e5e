//! The decoding error type.

use vstd::prelude::*;

verus! {

/// The error produced when CESU-8 data cannot be converted to UTF-8.
///
/// It does not transmit anything beyond the fact that an error occurred:
/// CESU-8 is meant for internal interchange only, so a failure signals a
/// defect in the producer or an attempt to smuggle malformed data past a
/// validity check, and callers are expected to reject the input outright.
#[derive(Debug)]
pub struct DecodingError;

impl DecodingError {
    /// A short description of the failure.
    pub fn message(&self) -> (s: String)
        ensures
            s@ == "could not convert CESU-8 data to UTF-8 data"@,
    {
        "could not convert CESU-8 data to UTF-8 data".to_owned()
    }
}

} // verus!
