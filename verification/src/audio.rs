//! Errors of audio playback.

use vstd::prelude::*;

verus! {

/// Why a sound could not be played.
#[derive(Debug, Clone, PartialEq, Eq)]
pub enum AudioError {
    /// No audio output device could be opened.
    NoDevice(String),
    /// The sound data could not be decoded.
    Decode(String),
    /// Playback could not start.
    Playback(String),
}

impl AudioError {
    /// The message of the error.
    pub fn to_string(&self) -> (r: String)
        ensures
            r@ == match self {
                AudioError::NoDevice(m) => "No audio output device available: "@ + m@,
                AudioError::Decode(m) => "Failed to decode audio data: "@ + m@,
                AudioError::Playback(m) => "Playback error: "@ + m@,
            },
    {
        let (head, m) = match self {
            AudioError::NoDevice(m) => ("No audio output device available: ", m),
            AudioError::Decode(m) => ("Failed to decode audio data: ", m),
            AudioError::Playback(m) => ("Playback error: ", m),
        };
        let mut r = String::from_str(head);
        r.append(m.as_str());
        r
    }
}

} // verus!
