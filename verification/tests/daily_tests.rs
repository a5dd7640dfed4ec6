use scoreboard::daily::{
    attempt_state, build_daily_status, clamp_attempts, is_owned_by_device, normalize_forfeit_result,
    normalize_limit, normalize_setting, normalize_start_result, normalize_submit_result,
    normalize_supabase_config, prepare_daily_forfeit, prepare_daily_request,
    prepare_daily_submission, prepare_global_submission, remote_attempt_status,
    require_attempt_token, AttemptState, DailyAttemptStartResult, DailyAttemptsRow,
    DailyForfeitResult, DailyStatus, DailySubmitResult, SupabaseConfig,
};
use scoreboard::errors::{ReplayRejection, RequestError, ValidationError};
use scoreboard::records::ScoreEntry;
use scoreboard::replay::{DailyReplayProof, ReplayInputEvent};

fn text(s: &str) -> Option<String> {
    Some(s.to_string())
}

fn entry(user: &str, score: i64) -> ScoreEntry {
    ScoreEntry {
        user: user.to_string(),
        score,
        level: 2,
        date: " 2024-01-01 ".to_string(),
        skill_usage: Vec::new(),
        is_me: false,
    }
}

fn replay(version: i64) -> DailyReplayProof {
    DailyReplayProof {
        version,
        difficulty: 1,
        seed: 1,
        final_time: 10,
        final_score: 5,
        final_level: 1,
        inputs: vec![ReplayInputEvent { time: 3, move_dir: "UP".to_string() }],
    }
}

#[test]
fn two_attempts_used_leave_one() {
    let status = build_daily_status("2024-01-01", 2, true);
    assert_eq!(
        status,
        DailyStatus {
            challenge_key: "2024-01-01".to_string(),
            attempts_used: 2,
            attempts_left: 1,
            max_attempts: 3,
            can_submit: true,
            has_active_attempt: true,
        }
    );
}

#[test]
fn three_attempts_used_leave_none() {
    let status = build_daily_status("2024-01-01", 3, false);
    assert_eq!(status.attempts_left, 0);
    assert!(!status.can_submit);
}

#[test]
fn attempts_are_brought_into_range() {
    assert_eq!(clamp_attempts(-5), 0);
    assert_eq!(clamp_attempts(0), 0);
    assert_eq!(clamp_attempts(3), 3);
    assert_eq!(clamp_attempts(4), 3);
    assert_eq!(clamp_attempts(i64::MAX), 3);
    assert_eq!(clamp_attempts(i64::MIN), 0);
    let status = build_daily_status("k", 99, false);
    assert_eq!((status.attempts_used, status.attempts_left, status.can_submit), (3, 0, false));
    let status = build_daily_status("k", -1, false);
    assert_eq!((status.attempts_used, status.attempts_left, status.can_submit), (0, 3, true));
}

#[test]
fn an_answer_cannot_grant_attempts_beyond_the_count() {
    let answer = DailyAttemptStartResult {
        accepted: true,
        resumed: false,
        attempt_token: text("  tok  "),
        challenge_key: "other".to_string(),
        attempts_used: 3,
        attempts_left: 2,
        max_attempts: 7,
        can_submit: true,
        has_active_attempt: true,
    };
    let normal = normalize_start_result(answer, "2024-01-01");
    assert_eq!(
        normal,
        DailyAttemptStartResult {
            accepted: true,
            resumed: false,
            attempt_token: text("tok"),
            challenge_key: "2024-01-01".to_string(),
            attempts_used: 3,
            attempts_left: 0,
            max_attempts: 3,
            can_submit: false,
            has_active_attempt: true,
        }
    );
}

#[test]
fn a_blank_token_is_no_token() {
    let answer = DailyAttemptStartResult {
        accepted: false,
        resumed: true,
        attempt_token: text("   "),
        challenge_key: String::new(),
        attempts_used: 1,
        attempts_left: 0,
        max_attempts: 3,
        can_submit: false,
        has_active_attempt: false,
    };
    let normal = normalize_start_result(answer, "2024-01-01");
    assert_eq!(normal.attempt_token, None);
    assert!(normal.resumed);
    assert!(!normal.accepted);
    assert_eq!((normal.attempts_used, normal.attempts_left, normal.can_submit), (1, 2, true));
}

#[test]
fn submit_and_forfeit_answers_are_normalized() {
    let submit = DailySubmitResult {
        accepted: true,
        improved: true,
        challenge_key: "x".to_string(),
        attempts_used: 2,
        attempts_left: -4,
        max_attempts: 0,
        can_submit: false,
        has_active_attempt: false,
    };
    assert_eq!(
        normalize_submit_result(submit, "2024-01-01"),
        DailySubmitResult {
            accepted: true,
            improved: true,
            challenge_key: "2024-01-01".to_string(),
            attempts_used: 2,
            attempts_left: 1,
            max_attempts: 3,
            can_submit: true,
            has_active_attempt: false,
        }
    );
    let forfeit = DailyForfeitResult {
        accepted: true,
        challenge_key: "x".to_string(),
        attempts_used: 5,
        attempts_left: 3,
        max_attempts: 3,
        can_submit: true,
        has_active_attempt: true,
    };
    assert_eq!(
        normalize_forfeit_result(forfeit, "2024-01-01"),
        DailyForfeitResult {
            accepted: true,
            challenge_key: "2024-01-01".to_string(),
            attempts_used: 3,
            attempts_left: 0,
            max_attempts: 3,
            can_submit: false,
            has_active_attempt: true,
        }
    );
}

#[test]
fn the_limit_is_brought_into_range() {
    assert_eq!(normalize_limit(None), 10);
    assert_eq!(normalize_limit(Some(0)), 1);
    assert_eq!(normalize_limit(Some(1)), 1);
    assert_eq!(normalize_limit(Some(55)), 55);
    assert_eq!(normalize_limit(Some(100)), 100);
    assert_eq!(normalize_limit(Some(101)), 100);
    assert_eq!(normalize_limit(Some(u32::MAX)), 100);
}

#[test]
fn the_configuration_needs_both_settings() {
    assert_eq!(
        normalize_supabase_config(text(" https://x.example/ "), text(" key ")),
        Some(SupabaseConfig { url: "https://x.example/".to_string(), anon_key: "key".to_string() })
    );
    assert_eq!(normalize_supabase_config(None, text("key")), None);
    assert_eq!(normalize_supabase_config(text("url"), None), None);
    assert_eq!(normalize_supabase_config(text("  "), text("key")), None);
    assert_eq!(normalize_supabase_config(text("url"), text("")), None);
    assert_eq!(normalize_setting(text(" a ")), text("a"));
    assert_eq!(normalize_setting(text(" ")), None);
    assert_eq!(normalize_setting(None), None);
}

#[test]
fn ownership_needs_two_equal_identities() {
    assert!(is_owned_by_device(Some("abc"), Some("abc")));
    assert!(!is_owned_by_device(Some("abc"), Some("abd")));
    assert!(!is_owned_by_device(Some("abc"), Some("ABC")));
    assert!(!is_owned_by_device(None, Some("abc")));
    assert!(!is_owned_by_device(Some("abc"), None));
    assert!(!is_owned_by_device(None, None));
}

#[test]
fn the_first_row_tells_the_attempts() {
    let rows = vec![
        DailyAttemptsRow { attempts_used: Some(7), active_attempt_token: text(" t ") },
        DailyAttemptsRow { attempts_used: Some(1), active_attempt_token: None },
    ];
    let status = remote_attempt_status(&rows);
    assert_eq!((status.attempts_used, status.has_active_attempt), (3, true));
    let rows = vec![DailyAttemptsRow { attempts_used: None, active_attempt_token: text("  ") }];
    let status = remote_attempt_status(&rows);
    assert_eq!((status.attempts_used, status.has_active_attempt), (0, false));
    let status = remote_attempt_status(&Vec::new());
    assert_eq!((status.attempts_used, status.has_active_attempt), (0, false));
}

#[test]
fn the_state_is_made_from_count_and_token() {
    assert_eq!(attempt_state(0, None), AttemptState::Idle);
    assert_eq!(attempt_state(2, text("  ")), AttemptState::Idle);
    assert_eq!(attempt_state(3, None), AttemptState::Exhausted);
    assert_eq!(attempt_state(9, text("")), AttemptState::Exhausted);
    assert_eq!(attempt_state(1, text(" tok ")), AttemptState::Active("tok".to_string()));
    assert_eq!(attempt_state(3, text("tok")), AttemptState::Active("tok".to_string()));
}

#[test]
fn a_token_is_required() {
    assert_eq!(require_attempt_token("  tok\n"), Ok("tok".to_string()));
    assert_eq!(require_attempt_token("   "), Err(ValidationError::MissingAttemptToken));
    assert_eq!(require_attempt_token(""), Err(ValidationError::MissingAttemptToken));
}

#[test]
fn a_daily_request_needs_key_and_configuration() {
    let request = prepare_daily_request(" 2024-01-01 ", text("u"), text("k")).unwrap();
    assert_eq!(request.challenge_key, "2024-01-01");
    assert_eq!(request.config, SupabaseConfig { url: "u".to_string(), anon_key: "k".to_string() });
    assert_eq!(
        prepare_daily_request("2024-13-01", text("u"), text("k")),
        Err(RequestError::Validation(ValidationError::InvalidChallengeKey))
    );
    assert_eq!(
        prepare_daily_request("2024-01-01", None, text("k")),
        Err(RequestError::ConfigurationRequired)
    );
    assert_eq!(
        prepare_daily_request("nonsense", None, None),
        Err(RequestError::Validation(ValidationError::InvalidChallengeKey))
    );
}

#[test]
fn a_daily_submission_is_checked_in_order() {
    let ok = prepare_daily_submission("2024-01-01", entry(" ann ", -4), replay(1), text("u"), text("k"))
        .unwrap();
    assert_eq!(ok.entry.user, "ann");
    assert_eq!(ok.entry.score, 0);
    assert_eq!(ok.entry.date, "2024-01-01");
    assert_eq!(ok.replay_proof.inputs[0].move_dir, "up");
    assert_eq!(
        prepare_daily_submission("bad", entry("", 1), replay(2), None, None),
        Err(RequestError::Validation(ValidationError::InvalidChallengeKey))
    );
    assert_eq!(
        prepare_daily_submission("2024-01-01", entry("", 1), replay(2), None, None),
        Err(RequestError::ConfigurationRequired)
    );
    assert_eq!(
        prepare_daily_submission("2024-01-01", entry("", 1), replay(2), text("u"), text("k")),
        Err(RequestError::Validation(ValidationError::EmptyUserName))
    );
    assert_eq!(
        prepare_daily_submission("2024-01-01", entry("ann", 1), replay(2), text("u"), text("k")),
        Err(RequestError::Validation(ValidationError::InvalidReplayProof(
            ReplayRejection::UnsupportedVersion
        )))
    );
}

#[test]
fn a_forfeit_is_checked_in_order() {
    let ok = prepare_daily_forfeit("2024-01-01", " tok ", text("u"), text("k")).unwrap();
    assert_eq!(ok.attempt_token, "tok");
    assert_eq!(ok.challenge_key, "2024-01-01");
    assert_eq!(
        prepare_daily_forfeit("bad", "", None, None),
        Err(RequestError::Validation(ValidationError::InvalidChallengeKey))
    );
    assert_eq!(
        prepare_daily_forfeit("2024-01-01", "", None, None),
        Err(RequestError::ConfigurationRequired)
    );
    assert_eq!(
        prepare_daily_forfeit("2024-01-01", " ", text("u"), text("k")),
        Err(RequestError::Validation(ValidationError::MissingAttemptToken))
    );
}

#[test]
fn a_classic_score_with_a_negative_score_is_stored_and_sent_as_zero() {
    let (clean, proof) = prepare_global_submission(entry(" ann ", -250), replay(1)).unwrap();
    assert_eq!(clean.score, 0);
    assert!(clean.is_me);
    assert_eq!(clean.user, "ann");
    let cache = scoreboard::cache::record_local_score(Vec::new(), clean.clone());
    assert_eq!(cache.len(), 1);
    assert_eq!(cache[0].score, 0);
    assert!(cache[0].is_me);
    let payload = scoreboard::registry::classic_verify_payload(clean, proof, "device");
    assert_eq!(payload.entry.score, 0);
    assert_eq!(payload.mode, "classic");
}

#[test]
fn a_classic_score_is_checked_entry_first() {
    assert_eq!(
        prepare_global_submission(entry("  ", 1), replay(2)),
        Err(ValidationError::EmptyUserName)
    );
    assert_eq!(
        prepare_global_submission(entry("ann", 1), replay(2)),
        Err(ValidationError::InvalidReplayProof(ReplayRejection::UnsupportedVersion))
    );
}
