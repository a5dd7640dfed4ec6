use scoreboard::errors::{ReplayRejection, RequestError, ValidationError};

#[test]
fn every_rejection_has_its_text() {
    assert_eq!(ReplayRejection::UnsupportedVersion.message(), "daily replay proof version is not supported");
    assert_eq!(ReplayRejection::InvalidDifficulty.message(), "daily replay proof difficulty is invalid");
    assert_eq!(ReplayRejection::NegativeFinalValue.message(), "daily replay proof has invalid final values");
    assert_eq!(ReplayRejection::FinalTimeTooLarge.message(), "daily replay proof final time exceeds limit");
    assert_eq!(ReplayRejection::NonMonotonicReplay.message(), "daily replay input time order is invalid");
    assert_eq!(ReplayRejection::InvalidMoveToken.message(), "daily replay input move is invalid");
    assert_eq!(ReplayRejection::ReplayExceedsFinalTime.message(), "daily replay input exceeds final time");
}

#[test]
fn every_error_has_its_text() {
    assert_eq!(ValidationError::EmptyUserName.message(), "score entry user is empty");
    assert_eq!(
        ValidationError::InvalidChallengeKey.message(),
        "daily challenge key must be in YYYY-MM-DD format"
    );
    assert_eq!(ValidationError::MissingAttemptToken.message(), "daily challenge attempt token is required");
    assert_eq!(
        ValidationError::InvalidReplayProof(ReplayRejection::InvalidMoveToken).message(),
        "daily replay input move is invalid"
    );
    assert_eq!(
        RequestError::ConfigurationRequired.message(),
        "daily challenge sync requires Supabase configuration"
    );
    assert_eq!(
        RequestError::Validation(ValidationError::EmptyUserName).message(),
        "score entry user is empty"
    );
}
