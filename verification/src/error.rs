//! The failures that the protocol reports.

use vstd::prelude::*;

verus! {

/// Why an operation of the protocol failed. A proof that does not verify is
/// not among them: that is the ordinary outcome of a verification, reported
/// as an empty session token.
#[derive(Clone, Copy, Debug, PartialEq, Eq, Structural)]
pub enum ProtocolError {
    /// An operation needed the group parameters before they were created.
    NotInitialized,
    /// A verification named a user that never registered.
    UserNotFound,
    /// A verification came for a user without a pending challenge.
    ChallengeNotFound,
    /// A value was outside the range in which it is meaningful.
    MalformedInput,
    /// A randomized search gave up after its allotted number of attempts.
    SearchExhausted,
}

impl ProtocolError {
    /// A short description of the failure.
    pub fn message(&self) -> (text: String)
        ensures
            text@ == match *self {
                ProtocolError::NotInitialized => "Not initialized"@,
                ProtocolError::UserNotFound => "User not found"@,
                ProtocolError::ChallengeNotFound => "Challenge not found"@,
                ProtocolError::MalformedInput => "Malformed input"@,
                ProtocolError::SearchExhausted => "Search exhausted"@,
            },
    {
        match self {
            ProtocolError::NotInitialized => "Not initialized".to_owned(),
            ProtocolError::UserNotFound => "User not found".to_owned(),
            ProtocolError::ChallengeNotFound => "Challenge not found".to_owned(),
            ProtocolError::MalformedInput => "Malformed input".to_owned(),
            ProtocolError::SearchExhausted => "Search exhausted".to_owned(),
        }
    }
}

} // verus!
