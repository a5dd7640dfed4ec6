//! The daily-challenge attempt bookkeeping.
//!
//! A device has three attempts at each daily challenge. The registry alone
//! counts them and issues the token of the attempt that is under way; this
//! side asks for transitions and mirrors the last answer. Whatever the answer
//! holds, the attempts used are brought into 0..=3, and what is left and
//! whether a score may still be submitted follow from them alone.

use vstd::prelude::*;
use crate::calendar::{is_challenge_key, normalize_daily_challenge_key};
use crate::errors::{RequestError, ValidationError};
use crate::records::{optional_text, ScoreEntry};
use crate::replay::{
    replay_rejection, sanitize_daily_replay_proof, sanitized_proof, DailyReplayProof,
};
use crate::sanitize::{sanitize_entry, sanitized_entry, user_name_is_empty};
use crate::cache::with_is_me;
use crate::text::{same_text, trimmed, trimmed_non_empty};

verus! {

/// The attempts that a device has at one daily challenge.
pub const DAILY_MAX_ATTEMPTS: i64 = 3;

/// The number of scores asked for where no limit is given.
pub const DEFAULT_TOP_LIMIT: usize = 10;

/// The most scores that are asked for.
pub const MAX_TOP_LIMIT: usize = 100;

/// Where the registry is and the key that opens it.
#[derive(Debug, Clone, PartialEq, Eq)]
pub struct SupabaseConfig {
    pub url: String,
    pub anon_key: String,
}

/// How a device stands in one daily challenge.
#[derive(Debug, Clone, PartialEq, Eq)]
pub struct DailyStatus {
    pub challenge_key: String,
    pub attempts_used: i64,
    pub attempts_left: i64,
    pub max_attempts: i64,
    pub can_submit: bool,
    pub has_active_attempt: bool,
}

/// The registry's answer to the request to start an attempt.
#[derive(Debug, Clone, PartialEq, Eq)]
pub struct DailyAttemptStartResult {
    pub accepted: bool,
    pub resumed: bool,
    pub attempt_token: Option<String>,
    pub challenge_key: String,
    pub attempts_used: i64,
    pub attempts_left: i64,
    pub max_attempts: i64,
    pub can_submit: bool,
    pub has_active_attempt: bool,
}

/// The registry's answer to a submitted daily score.
#[derive(Debug, Clone, PartialEq, Eq)]
pub struct DailySubmitResult {
    pub accepted: bool,
    pub improved: bool,
    pub challenge_key: String,
    pub attempts_used: i64,
    pub attempts_left: i64,
    pub max_attempts: i64,
    pub can_submit: bool,
    pub has_active_attempt: bool,
}

/// The registry's answer to the request to give an attempt up.
#[derive(Debug, Clone, PartialEq, Eq)]
pub struct DailyForfeitResult {
    pub accepted: bool,
    pub challenge_key: String,
    pub attempts_used: i64,
    pub attempts_left: i64,
    pub max_attempts: i64,
    pub can_submit: bool,
    pub has_active_attempt: bool,
}

/// One row of the registry's attempt table, as far as it is read.
#[derive(Debug, Clone, PartialEq, Eq)]
pub struct DailyAttemptsRow {
    pub attempts_used: Option<i64>,
    pub active_attempt_token: Option<String>,
}

/// What the registry holds of a device's attempts at one challenge.
#[derive(Debug, Clone, Copy, PartialEq, Eq)]
pub struct RemoteDailyAttemptStatus {
    pub attempts_used: i64,
    pub has_active_attempt: bool,
}

/// The state of a device in one daily challenge, made anew from each answer of
/// the registry.
#[derive(Debug, Clone, PartialEq, Eq)]
pub enum AttemptState {
    /// No attempt is under way and attempts are left.
    Idle,
    /// An attempt is under way; its token is held.
    Active(String),
    /// No attempt is under way and none is left.
    Exhausted,
}

/// A daily-challenge request that may be sent: the key is a challenge key and
/// the registry is configured.
#[derive(Debug, Clone, PartialEq, Eq)]
pub struct DailyRequest {
    pub challenge_key: String,
    pub config: SupabaseConfig,
}

/// A daily score that may be sent: entry and replay proof are sanitized.
#[derive(Debug, Clone, PartialEq, Eq)]
pub struct DailySubmission {
    pub challenge_key: String,
    pub config: SupabaseConfig,
    pub entry: ScoreEntry,
    pub replay_proof: DailyReplayProof,
}

/// A request to give an attempt up that may be sent.
#[derive(Debug, Clone, PartialEq, Eq)]
pub struct DailyForfeit {
    pub challenge_key: String,
    pub config: SupabaseConfig,
    pub attempt_token: String,
}

/// The attempts used, brought into 0..=3.
pub open spec fn clamped_attempts(attempts_used: int) -> int {
    if attempts_used < 0 {
        0
    } else if attempts_used > DAILY_MAX_ATTEMPTS {
        DAILY_MAX_ATTEMPTS as int
    } else {
        attempts_used
    }
}

/// Whether the four numbers of a status belong together: the attempts used lie
/// in 0..=3, those left are the rest of the three, and a score may be
/// submitted exactly while an attempt is left.
pub open spec fn counters_agree(
    attempts_used: int,
    attempts_left: int,
    max_attempts: int,
    can_submit: bool,
) -> bool {
    &&& 0 <= attempts_used <= DAILY_MAX_ATTEMPTS
    &&& max_attempts == DAILY_MAX_ATTEMPTS
    &&& attempts_left == DAILY_MAX_ATTEMPTS - attempts_used
    &&& can_submit == (attempts_left > 0)
}

/// The limit that is asked for: 10 where none is given, else the given one
/// brought into 1..=100.
pub open spec fn limit_of(limit: Option<u32>) -> int {
    match limit {
        None => DEFAULT_TOP_LIMIT as int,
        Some(n) => if n < 1 {
            1
        } else if n > MAX_TOP_LIMIT {
            MAX_TOP_LIMIT as int
        } else {
            n as int
        },
    }
}

/// A setting trimmed; absent where nothing is left of it or none was given.
pub open spec fn setting_of(value: Option<Seq<char>>) -> Option<Seq<char>> {
    match value {
        Some(s) => if trimmed(s).len() == 0 {
            None
        } else {
            Some(trimmed(s))
        },
        None => None,
    }
}

/// Whether a token is held: one is given and something is left of it once it
/// is trimmed.
pub open spec fn token_is_held(token: Option<Seq<char>>) -> bool {
    setting_of(token) is Some
}

impl DailyStatus {
    /// Whether the numbers of the status belong together.
    pub open spec fn well_formed(&self) -> bool {
        counters_agree(
            self.attempts_used as int,
            self.attempts_left as int,
            self.max_attempts as int,
            self.can_submit,
        )
    }
}

impl DailyAttemptStartResult {
    /// Whether the numbers of the answer belong together and the token, where
    /// there is one, is trimmed and not empty.
    pub open spec fn well_formed(&self) -> bool {
        &&& counters_agree(
            self.attempts_used as int,
            self.attempts_left as int,
            self.max_attempts as int,
            self.can_submit,
        )
        &&& optional_text(self.attempt_token) == setting_of(optional_text(self.attempt_token))
    }
}

impl DailySubmitResult {
    /// Whether the numbers of the answer belong together.
    pub open spec fn well_formed(&self) -> bool {
        counters_agree(
            self.attempts_used as int,
            self.attempts_left as int,
            self.max_attempts as int,
            self.can_submit,
        )
    }
}

impl DailyForfeitResult {
    /// Whether the numbers of the answer belong together.
    pub open spec fn well_formed(&self) -> bool {
        counters_agree(
            self.attempts_used as int,
            self.attempts_left as int,
            self.max_attempts as int,
            self.can_submit,
        )
    }
}

/// The number of scores to ask for.
pub fn normalize_limit(limit: Option<u32>) -> (r: usize)
    ensures
        r == limit_of(limit),
        1 <= r <= MAX_TOP_LIMIT,
{
    match limit {
        None => DEFAULT_TOP_LIMIT,
        Some(n) => if n < 1 {
            1
        } else if n > 100 {
            MAX_TOP_LIMIT
        } else {
            n as usize
        },
    }
}

/// A setting trimmed; absent where nothing is left of it or none was given.
pub fn normalize_setting(value: Option<String>) -> (r: Option<String>)
    ensures
        optional_text(r) == setting_of(optional_text(value)),
{
    match value {
        Some(text) => trimmed_non_empty(text.as_str()),
        None => None,
    }
}

/// The registry's configuration, where both its address and its key are given
/// and neither is blank.
pub fn normalize_supabase_config(supabase_url: Option<String>, supabase_anon_key: Option<String>) -> (r:
    Option<SupabaseConfig>)
    ensures
        match r {
            Some(config) => setting_of(optional_text(supabase_url)) == Some(config.url@)
                && setting_of(optional_text(supabase_anon_key)) == Some(config.anon_key@),
            None => setting_of(optional_text(supabase_url)) is None || setting_of(
                optional_text(supabase_anon_key),
            ) is None,
        },
{
    let url = match normalize_setting(supabase_url) {
        Some(url) => url,
        None => {
            return None;
        },
    };
    let anon_key = match normalize_setting(supabase_anon_key) {
        Some(anon_key) => anon_key,
        None => {
            return None;
        },
    };
    Some(SupabaseConfig { url, anon_key })
}

/// The attempts used, brought into 0..=3.
pub fn clamp_attempts(attempts_used: i64) -> (r: i64)
    ensures
        r == clamped_attempts(attempts_used as int),
        0 <= r <= DAILY_MAX_ATTEMPTS,
{
    if attempts_used < 0 {
        0
    } else if attempts_used > DAILY_MAX_ATTEMPTS {
        DAILY_MAX_ATTEMPTS
    } else {
        attempts_used
    }
}

/// The status of a device in a challenge from the registry's count.
pub fn build_daily_status(challenge_key: &str, attempts_used: i64, has_active_attempt: bool) -> (r:
    DailyStatus)
    ensures
        r.well_formed(),
        r.challenge_key@ == challenge_key@,
        r.attempts_used == clamped_attempts(attempts_used as int),
        r.has_active_attempt == has_active_attempt,
{
    let used = clamp_attempts(attempts_used);
    let left = DAILY_MAX_ATTEMPTS - used;
    DailyStatus {
        challenge_key: challenge_key.to_owned(),
        attempts_used: used,
        attempts_left: left,
        max_attempts: DAILY_MAX_ATTEMPTS,
        can_submit: left > 0,
        has_active_attempt,
    }
}

/// Whether a score row belongs to this device: both identities are known and
/// they are the same.
pub fn is_owned_by_device(row_client_uuid: Option<&str>, device_uuid: Option<&str>) -> (r: bool)
    ensures
        r == (row_client_uuid matches Some(row) && device_uuid matches Some(device) && row@
            == device@),
{
    match (row_client_uuid, device_uuid) {
        (Some(row), Some(device)) => same_text(row, device),
        _ => false,
    }
}

/// What the registry holds of a device's attempts, from the rows it answered
/// with: the first row counts, and no row means no attempt.
pub fn remote_attempt_status(rows: &Vec<DailyAttemptsRow>) -> (r: RemoteDailyAttemptStatus)
    ensures
        rows@.len() == 0 ==> r.attempts_used == 0 && !r.has_active_attempt,
        rows@.len() > 0 ==> r.attempts_used == clamped_attempts(
            match rows@[0].attempts_used {
                Some(n) => n as int,
                None => 0,
            },
        ) && r.has_active_attempt == token_is_held(optional_text(rows@[0].active_attempt_token)),
{
    if rows.len() == 0 {
        return RemoteDailyAttemptStatus { attempts_used: 0, has_active_attempt: false };
    }
    let row = &rows[0];
    let used = match row.attempts_used {
        Some(n) => n,
        None => 0,
    };
    let has_active_attempt = match &row.active_attempt_token {
        Some(token) => trimmed_non_empty(token.as_str()).is_some(),
        None => false,
    };
    RemoteDailyAttemptStatus { attempts_used: clamp_attempts(used), has_active_attempt }
}

/// The state of a device in a challenge. A held token means an attempt under
/// way; without one the device is exhausted once three attempts are used.
pub fn attempt_state(attempts_used: i64, attempt_token: Option<String>) -> (r: AttemptState)
    ensures
        match r {
            AttemptState::Active(token) => setting_of(optional_text(attempt_token)) == Some(token@),
            AttemptState::Exhausted => !token_is_held(optional_text(attempt_token))
                && clamped_attempts(attempts_used as int) == DAILY_MAX_ATTEMPTS,
            AttemptState::Idle => !token_is_held(optional_text(attempt_token))
                && clamped_attempts(attempts_used as int) < DAILY_MAX_ATTEMPTS,
        },
{
    match normalize_setting(attempt_token) {
        Some(token) => AttemptState::Active(token),
        None => if clamp_attempts(attempts_used) >= DAILY_MAX_ATTEMPTS {
            AttemptState::Exhausted
        } else {
            AttemptState::Idle
        },
    }
}

/// The answer to a start request as it is handed on: the token trimmed and
/// dropped where it is blank, the attempts used brought into 0..=3, and what
/// is left and whether a score may be submitted made anew from them.
pub fn normalize_start_result(result: DailyAttemptStartResult, challenge_key: &str) -> (r:
    DailyAttemptStartResult)
    ensures
        r.well_formed(),
        r.accepted == result.accepted,
        r.resumed == result.resumed,
        optional_text(r.attempt_token) == setting_of(optional_text(result.attempt_token)),
        r.challenge_key@ == challenge_key@,
        r.attempts_used == clamped_attempts(result.attempts_used as int),
        r.has_active_attempt == result.has_active_attempt,
{
    let used = clamp_attempts(result.attempts_used);
    let left = DAILY_MAX_ATTEMPTS - used;
    let attempt_token = normalize_setting(result.attempt_token);
    proof {
        lemma_setting_is_settled(optional_text(result.attempt_token));
    }
    DailyAttemptStartResult {
        accepted: result.accepted,
        resumed: result.resumed,
        attempt_token,
        challenge_key: challenge_key.to_owned(),
        attempts_used: used,
        attempts_left: left,
        max_attempts: DAILY_MAX_ATTEMPTS,
        can_submit: left > 0,
        has_active_attempt: result.has_active_attempt,
    }
}

/// The answer to a submitted score as it is handed on.
pub fn normalize_submit_result(result: DailySubmitResult, challenge_key: &str) -> (r:
    DailySubmitResult)
    ensures
        r.well_formed(),
        r.accepted == result.accepted,
        r.improved == result.improved,
        r.challenge_key@ == challenge_key@,
        r.attempts_used == clamped_attempts(result.attempts_used as int),
        r.has_active_attempt == result.has_active_attempt,
{
    let used = clamp_attempts(result.attempts_used);
    let left = DAILY_MAX_ATTEMPTS - used;
    DailySubmitResult {
        accepted: result.accepted,
        improved: result.improved,
        challenge_key: challenge_key.to_owned(),
        attempts_used: used,
        attempts_left: left,
        max_attempts: DAILY_MAX_ATTEMPTS,
        can_submit: left > 0,
        has_active_attempt: result.has_active_attempt,
    }
}

/// The answer to a forfeit as it is handed on.
pub fn normalize_forfeit_result(result: DailyForfeitResult, challenge_key: &str) -> (r:
    DailyForfeitResult)
    ensures
        r.well_formed(),
        r.accepted == result.accepted,
        r.challenge_key@ == challenge_key@,
        r.attempts_used == clamped_attempts(result.attempts_used as int),
        r.has_active_attempt == result.has_active_attempt,
{
    let used = clamp_attempts(result.attempts_used);
    let left = DAILY_MAX_ATTEMPTS - used;
    DailyForfeitResult {
        accepted: result.accepted,
        challenge_key: challenge_key.to_owned(),
        attempts_used: used,
        attempts_left: left,
        max_attempts: DAILY_MAX_ATTEMPTS,
        can_submit: left > 0,
        has_active_attempt: result.has_active_attempt,
    }
}

/// The attempt token trimmed. A token of which nothing is left is missing.
pub fn require_attempt_token(attempt_token: &str) -> (r: Result<String, ValidationError>)
    ensures
        match r {
            Ok(token) => token@ == trimmed(attempt_token@) && token@.len() > 0,
            Err(error) => trimmed(attempt_token@).len() == 0 && error
                == ValidationError::MissingAttemptToken,
        },
{
    match trimmed_non_empty(attempt_token) {
        Some(token) => Ok(token),
        None => Err(ValidationError::MissingAttemptToken),
    }
}

/// What every daily-challenge request starts with: the key must be a challenge
/// key, and the registry must be configured. The key is looked at first.
pub fn prepare_daily_request(
    challenge_key: &str,
    supabase_url: Option<String>,
    supabase_anon_key: Option<String>,
) -> (r: Result<DailyRequest, RequestError>)
    ensures
        match r {
            Ok(request) => {
                &&& is_challenge_key(trimmed(challenge_key@))
                &&& request.challenge_key@ == trimmed(challenge_key@)
                &&& setting_of(optional_text(supabase_url)) == Some(request.config.url@)
                &&& setting_of(optional_text(supabase_anon_key)) == Some(request.config.anon_key@)
            },
            Err(error) => if !is_challenge_key(trimmed(challenge_key@)) {
                error == RequestError::Validation(ValidationError::InvalidChallengeKey)
            } else {
                error == RequestError::ConfigurationRequired && (setting_of(
                    optional_text(supabase_url),
                ) is None || setting_of(optional_text(supabase_anon_key)) is None)
            },
        },
{
    let key = match normalize_daily_challenge_key(challenge_key) {
        Ok(key) => key,
        Err(error) => {
            return Err(RequestError::Validation(error));
        },
    };
    match normalize_supabase_config(supabase_url, supabase_anon_key) {
        Some(config) => Ok(DailyRequest { challenge_key: key, config }),
        None => Err(RequestError::ConfigurationRequired),
    }
}

/// What the sending of a daily score starts with, in this order: the key, the
/// configuration, the entry, the replay proof. The first that fails decides
/// the error, and nothing is sent.
pub fn prepare_daily_submission(
    challenge_key: &str,
    entry: ScoreEntry,
    replay_proof: DailyReplayProof,
    supabase_url: Option<String>,
    supabase_anon_key: Option<String>,
) -> (r: Result<DailySubmission, RequestError>)
    ensures
        match r {
            Ok(submission) => {
                &&& is_challenge_key(trimmed(challenge_key@))
                &&& submission.challenge_key@ == trimmed(challenge_key@)
                &&& setting_of(optional_text(supabase_url)) == Some(submission.config.url@)
                &&& setting_of(optional_text(supabase_anon_key)) == Some(
                    submission.config.anon_key@,
                )
                &&& !user_name_is_empty(entry@)
                &&& submission.entry@ == sanitized_entry(entry@)
                &&& replay_rejection(replay_proof@) is None
                &&& submission.replay_proof@ == sanitized_proof(replay_proof@)
            },
            Err(error) => if !is_challenge_key(trimmed(challenge_key@)) {
                error == RequestError::Validation(ValidationError::InvalidChallengeKey)
            } else if setting_of(optional_text(supabase_url)) is None || setting_of(
                optional_text(supabase_anon_key),
            ) is None {
                error == RequestError::ConfigurationRequired
            } else if user_name_is_empty(entry@) {
                error == RequestError::Validation(ValidationError::EmptyUserName)
            } else {
                replay_rejection(replay_proof@) is Some && error == RequestError::Validation(
                    ValidationError::InvalidReplayProof(replay_rejection(replay_proof@)->Some_0),
                )
            },
        },
{
    let request = match prepare_daily_request(challenge_key, supabase_url, supabase_anon_key) {
        Ok(request) => request,
        Err(error) => {
            return Err(error);
        },
    };
    let entry = match sanitize_entry(entry) {
        Ok(entry) => entry,
        Err(error) => {
            return Err(RequestError::Validation(error));
        },
    };
    let replay_proof = match sanitize_daily_replay_proof(replay_proof) {
        Ok(replay_proof) => replay_proof,
        Err(error) => {
            return Err(RequestError::Validation(error));
        },
    };
    Ok(
        DailySubmission {
            challenge_key: request.challenge_key,
            config: request.config,
            entry,
            replay_proof,
        },
    )
}

/// What the giving up of an attempt starts with, in this order: the key, the
/// configuration, the token.
pub fn prepare_daily_forfeit(
    challenge_key: &str,
    attempt_token: &str,
    supabase_url: Option<String>,
    supabase_anon_key: Option<String>,
) -> (r: Result<DailyForfeit, RequestError>)
    ensures
        match r {
            Ok(forfeit) => {
                &&& is_challenge_key(trimmed(challenge_key@))
                &&& forfeit.challenge_key@ == trimmed(challenge_key@)
                &&& setting_of(optional_text(supabase_url)) == Some(forfeit.config.url@)
                &&& setting_of(optional_text(supabase_anon_key)) == Some(forfeit.config.anon_key@)
                &&& forfeit.attempt_token@ == trimmed(attempt_token@)
                &&& forfeit.attempt_token@.len() > 0
            },
            Err(error) => if !is_challenge_key(trimmed(challenge_key@)) {
                error == RequestError::Validation(ValidationError::InvalidChallengeKey)
            } else if setting_of(optional_text(supabase_url)) is None || setting_of(
                optional_text(supabase_anon_key),
            ) is None {
                error == RequestError::ConfigurationRequired
            } else {
                trimmed(attempt_token@).len() == 0 && error == RequestError::Validation(
                    ValidationError::MissingAttemptToken,
                )
            },
        },
{
    let request = match prepare_daily_request(challenge_key, supabase_url, supabase_anon_key) {
        Ok(request) => request,
        Err(error) => {
            return Err(error);
        },
    };
    match require_attempt_token(attempt_token) {
        Ok(token) => Ok(
            DailyForfeit {
                challenge_key: request.challenge_key,
                config: request.config,
                attempt_token: token,
            },
        ),
        Err(error) => Err(RequestError::Validation(error)),
    }
}

/// What the recording of a classic score starts with: the entry and the replay
/// proof sanitized, the entry first, and the entry then marked as this
/// device's own.
pub fn prepare_global_submission(entry: ScoreEntry, replay_proof: DailyReplayProof) -> (r: Result<
    (ScoreEntry, DailyReplayProof),
    ValidationError,
>)
    ensures
        match r {
            Ok((clean, proof)) => {
                &&& !user_name_is_empty(entry@)
                &&& clean@ == with_is_me(sanitized_entry(entry@), true)
                &&& clean@.score >= 0
                &&& clean@.level >= 0
                &&& replay_rejection(replay_proof@) is None
                &&& proof@ == sanitized_proof(replay_proof@)
            },
            Err(error) => if user_name_is_empty(entry@) {
                error == ValidationError::EmptyUserName
            } else {
                replay_rejection(replay_proof@) is Some && error
                    == ValidationError::InvalidReplayProof(replay_rejection(replay_proof@)->Some_0)
            },
        },
{
    let mut clean = match sanitize_entry(entry) {
        Ok(clean) => clean,
        Err(error) => {
            return Err(error);
        },
    };
    let proof = match sanitize_daily_replay_proof(replay_proof) {
        Ok(proof) => proof,
        Err(error) => {
            return Err(error);
        },
    };
    clean.is_me = true;
    Ok((clean, proof))
}

/// A setting that was trimmed stays as it is when it is trimmed again.
pub proof fn lemma_setting_is_settled(value: Option<Seq<char>>)
    ensures
        setting_of(setting_of(value)) == setting_of(value),
{
    match value {
        Some(s) => {
            crate::text::lemma_trimmed_idempotent(s);
        },
        None => {},
    }
}

/// A score may be submitted exactly while fewer than three attempts are used,
/// whatever else an answer holds.
pub proof fn lemma_can_submit_iff_attempts_remain(
    attempts_used: int,
    attempts_left: int,
    max_attempts: int,
    can_submit: bool,
)
    requires
        counters_agree(attempts_used, attempts_left, max_attempts, can_submit),
    ensures
        can_submit <==> attempts_used < DAILY_MAX_ATTEMPTS,
        0 <= attempts_left <= max_attempts,
        attempts_used + attempts_left == max_attempts,
{
}

} // verus!
