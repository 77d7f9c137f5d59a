//! The conditions under which playback cannot start.

use vstd::prelude::*;

verus! {

/// Why playback could not be set up. Every one of these is fatal: no worker
/// is started once one of them has been found.
#[derive(Clone, Copy, Debug, PartialEq, Eq)]
pub enum PlaybackError {
    /// The platform reported no usable processor core.
    NoCores,
    /// The container did not yield a single decoded frame.
    NoFrames,
    /// The geometry does not fit the data: a band would read outside the
    /// decoded pixel buffer, or would not fill exactly its share of the
    /// display surface.
    InvalidParameter,
}

impl PlaybackError {
    /// A short description for the fatal-error screen.
    pub fn describe(&self) -> (text: &'static str)
        ensures
            text@ == match *self {
                PlaybackError::NoCores => "no processor core available"@,
                PlaybackError::NoFrames => "no frame could be decoded"@,
                PlaybackError::InvalidParameter => "invalid parameter"@,
            },
    {
        match self {
            PlaybackError::NoCores => "no processor core available",
            PlaybackError::NoFrames => "no frame could be decoded",
            PlaybackError::InvalidParameter => "invalid parameter",
        }
    }
}

} // verus!
