//! The reasons for which an input is turned away before anything is sent.

use vstd::prelude::*;

verus! {

/// Why a replay proof was rejected.
#[derive(Debug, Clone, Copy, PartialEq, Eq, Structural)]
pub enum ReplayRejection {
    /// The proof's version is not 1.
    UnsupportedVersion,
    /// The difficulty is not 1, 2 or 3.
    InvalidDifficulty,
    /// The final time, score or level is negative.
    NegativeFinalValue,
    /// The final time is above the limit.
    FinalTimeTooLarge,
    /// An input's time is negative or earlier than the input before it.
    NonMonotonicReplay,
    /// An input's move is none of the four directions.
    InvalidMoveToken,
    /// The last input lies after the final time.
    ReplayExceedsFinalTime,
}

/// An input of the wrong shape. Such an input is rejected before any request
/// is made, and asking again does not help.
#[derive(Debug, Clone, Copy, PartialEq, Eq, Structural)]
pub enum ValidationError {
    /// The user name is empty once trimmed and cut to length.
    EmptyUserName,
    /// The replay proof breaks one of its rules.
    InvalidReplayProof(ReplayRejection),
    /// The challenge key is no calendar day written as `YYYY-MM-DD`.
    InvalidChallengeKey,
    /// The attempt token is empty once trimmed.
    MissingAttemptToken,
}

/// Why a daily-challenge request could not be prepared.
#[derive(Debug, Clone, Copy, PartialEq, Eq, Structural)]
pub enum RequestError {
    /// An input has the wrong shape.
    Validation(ValidationError),
    /// The registry's address or key is missing.
    ConfigurationRequired,
}

impl ReplayRejection {
    /// The text shown for this rejection.
    pub open spec fn message_text(self) -> Seq<char> {
        match self {
            ReplayRejection::UnsupportedVersion => "daily replay proof version is not supported"@,
            ReplayRejection::InvalidDifficulty => "daily replay proof difficulty is invalid"@,
            ReplayRejection::NegativeFinalValue => "daily replay proof has invalid final values"@,
            ReplayRejection::FinalTimeTooLarge => "daily replay proof final time exceeds limit"@,
            ReplayRejection::NonMonotonicReplay => "daily replay input time order is invalid"@,
            ReplayRejection::InvalidMoveToken => "daily replay input move is invalid"@,
            ReplayRejection::ReplayExceedsFinalTime => "daily replay input exceeds final time"@,
        }
    }

    /// The text shown for this rejection.
    pub fn message(&self) -> (r: String)
        ensures
            r@ == self.message_text(),
    {
        match self {
            ReplayRejection::UnsupportedVersion => "daily replay proof version is not supported".to_owned(),
            ReplayRejection::InvalidDifficulty => "daily replay proof difficulty is invalid".to_owned(),
            ReplayRejection::NegativeFinalValue => "daily replay proof has invalid final values".to_owned(),
            ReplayRejection::FinalTimeTooLarge => "daily replay proof final time exceeds limit".to_owned(),
            ReplayRejection::NonMonotonicReplay => "daily replay input time order is invalid".to_owned(),
            ReplayRejection::InvalidMoveToken => "daily replay input move is invalid".to_owned(),
            ReplayRejection::ReplayExceedsFinalTime => "daily replay input exceeds final time".to_owned(),
        }
    }
}

impl ValidationError {
    /// The text shown for this error.
    pub open spec fn message_text(self) -> Seq<char> {
        match self {
            ValidationError::EmptyUserName => "score entry user is empty"@,
            ValidationError::InvalidReplayProof(reason) => reason.message_text(),
            ValidationError::InvalidChallengeKey => "daily challenge key must be in YYYY-MM-DD format"@,
            ValidationError::MissingAttemptToken => "daily challenge attempt token is required"@,
        }
    }

    /// The text shown for this error.
    pub fn message(&self) -> (r: String)
        ensures
            r@ == self.message_text(),
    {
        match self {
            ValidationError::EmptyUserName => "score entry user is empty".to_owned(),
            ValidationError::InvalidReplayProof(reason) => reason.message(),
            ValidationError::InvalidChallengeKey => "daily challenge key must be in YYYY-MM-DD format".to_owned(),
            ValidationError::MissingAttemptToken => "daily challenge attempt token is required".to_owned(),
        }
    }
}

impl RequestError {
    /// The text shown for this error.
    pub open spec fn message_text(self) -> Seq<char> {
        match self {
            RequestError::Validation(error) => error.message_text(),
            RequestError::ConfigurationRequired => "daily challenge sync requires Supabase configuration"@,
        }
    }

    /// The text shown for this error.
    pub fn message(&self) -> (r: String)
        ensures
            r@ == self.message_text(),
    {
        match self {
            RequestError::Validation(error) => error.message(),
            RequestError::ConfigurationRequired => "daily challenge sync requires Supabase configuration".to_owned(),
        }
    }
}

} // verus!
