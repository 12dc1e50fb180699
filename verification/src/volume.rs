//! Validation of a requested volume percentage before it is handed to the
//! audio server.

use vstd::prelude::*;

verus! {

/// Largest volume percentage the tool will forward to the audio server.
pub const MAX_VOLUME_PERCENT: usize = 100;

/// Error for a volume request outside the accepted range.
#[derive(Debug, Clone, Copy, PartialEq, Eq, Structural)]
pub enum ValidationError {
    OutOfRange,
}

/// Accepts a volume percentage of at most 100 (0 mutes the sink and is
/// allowed); anything larger is rejected before any external call is made.
pub fn validate_volume(volume: usize) -> (r: Result<usize, ValidationError>)
    ensures
        volume <= MAX_VOLUME_PERCENT ==> r == Ok::<usize, ValidationError>(volume),
        volume > MAX_VOLUME_PERCENT ==> r == Err::<usize, ValidationError>(
            ValidationError::OutOfRange,
        ),
{
    if volume > MAX_VOLUME_PERCENT {
        Err(ValidationError::OutOfRange)
    } else {
        Ok(volume)
    }
}

} // verus!
