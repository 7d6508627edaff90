//! Errors surfaced by the speech-center client layer.

use vstd::prelude::*;

verus! {

/// Failure of a remote-service interaction. The payload carries the input
/// or detail that provoked the failure.
#[derive(Clone, Debug)]
pub enum SpeechCenterError {
    /// The remote endpoint could not be reached.
    Connection(String),
    /// The remote service rejected or failed a recognition call.
    Recognision(String),
    /// The remote service rejected or failed a synthesis call.
    Synthesis(String),
    /// Anything else: invalid input, bad configuration, local I/O trouble.
    Unknown(String),
}

} // verus!
