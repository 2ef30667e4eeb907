//! The error taxonomy of the relay.
use vstd::prelude::*;

verus! {

/// Everything that can go wrong inside the relay, each kind with a short
/// human-readable detail text.
#[derive(Debug)]
pub enum OpenReverbError {
    NetworkError(String),
    AuthError(String),
    SerializationError(String),
    AudioError(String),
    VideoError(String),
    ScreenShareError(String),
    Unknown(String),
}

impl OpenReverbError {
    /// The detail text carried by the error.
    pub fn detail(&self) -> (r: &String)
        ensures
            r@ == self.detail_spec(),
    {
        match self {
            OpenReverbError::NetworkError(s) => s,
            OpenReverbError::AuthError(s) => s,
            OpenReverbError::SerializationError(s) => s,
            OpenReverbError::AudioError(s) => s,
            OpenReverbError::VideoError(s) => s,
            OpenReverbError::ScreenShareError(s) => s,
            OpenReverbError::Unknown(s) => s,
        }
    }

    /// The detail text, abstractly.
    pub open spec fn detail_spec(&self) -> Seq<char> {
        match self {
            OpenReverbError::NetworkError(s) => s@,
            OpenReverbError::AuthError(s) => s@,
            OpenReverbError::SerializationError(s) => s@,
            OpenReverbError::AudioError(s) => s@,
            OpenReverbError::VideoError(s) => s@,
            OpenReverbError::ScreenShareError(s) => s@,
            OpenReverbError::Unknown(s) => s@,
        }
    }
}

} // verus!
