//! What becomes of a request once the registry has answered, or has not. The
//! sending itself is done elsewhere; here an answer is a plain value, and each
//! kind of request has a function that turns its answer into a result or into
//! the text of a failure.

use vstd::prelude::*;
use vstd::string::*;
use crate::daily::{
    clamped_attempts, normalize_forfeit_result, normalize_start_result, normalize_submit_result,
    remote_attempt_status, setting_of, token_is_held, DailyAttemptStartResult, DailyAttemptsRow,
    DailyForfeitResult, DailySubmitResult, RemoteDailyAttemptStatus,
};
use crate::json::json_document;
use crate::records::{optional_text, ScoreEntry};
use crate::registry::{
    entries_from_rows, request_failure_message, row_entry, rpc_failure_message,
    summarize_daily_verify_error_body, summary_of_body, verify_failure_from_summary,
    verify_failure_text, ScoreRow,
};
use crate::text::{join_two, trimmed};

verus! {

/// The registry's procedure that starts a daily attempt.
pub const DAILY_START_RPC_NAME: &'static str = "start_daily_attempt";

/// The registry's procedure that gives a daily attempt up.
pub const DAILY_FORFEIT_RPC_NAME: &'static str = "forfeit_daily_attempt";

/// The registry's function that verifies and records a score.
pub const VERIFY_SCORE_FUNCTION_NAME: &'static str = "verify-score";

/// How a request to the registry ended.
#[derive(Debug, Clone, PartialEq, Eq)]
pub enum RegistryAnswer<T> {
    /// The request did not get through; the text says why.
    Unreachable(String),
    /// The registry answered with a status that is no success.
    Refused { status: String, body: String },
    /// The registry answered with success, but the body could not be read; the
    /// text says why.
    Undecodable(String),
    /// The registry answered with success, and this is what the body holds.
    Decoded(T),
}

/// A request that failed on the way or at the registry. It may be made again.
#[derive(Debug, Clone, PartialEq, Eq)]
pub struct TransportError {
    pub message: String,
}

/// How the recording of a classic score ended. The score is written to the
/// cache first and sent to the registry after; a failure at the registry does
/// not undo what was written.
#[derive(Debug, Clone, PartialEq, Eq)]
pub enum SubmitOutcome {
    /// The score could not be written to the cache; nothing was sent.
    LocalFailed(String),
    /// The score is in the cache; no registry is configured.
    LocalOnly,
    /// The score is in the cache; the registry did not take it.
    RemoteFailed(String),
    /// The score is in the cache and at the registry.
    Synced,
}

/// What a failure text advises, by the kind of request.
#[derive(Debug, Clone, Copy, PartialEq, Eq)]
pub enum Advice {
    /// Nothing.
    Plain,
    /// To install the start procedure.
    StartProcedure,
    /// To install the forfeit procedure.
    ForfeitProcedure,
    /// To deploy the verification; the body is summed up and a hint added.
    Verification,
}

/// The text of the failure of a request that was refused.
pub open spec fn refusal_text(what: Seq<char>, status: Seq<char>, body: Seq<char>, advice: Advice) -> Seq<
    char,
> {
    match advice {
        Advice::Plain => what + " failed with "@ + status + ": "@ + body,
        Advice::StartProcedure => what + " failed with "@ + status + ": "@ + body
            + "\nEnsure /supabase/schema.sql has been applied (including RPC "@
            + DAILY_START_RPC_NAME@ + ")."@,
        Advice::ForfeitProcedure => what + " failed with "@ + status + ": "@ + body
            + "\nEnsure /supabase/schema.sql has been applied (including RPC "@
            + DAILY_FORFEIT_RPC_NAME@ + ")."@,
        Advice::Verification => verify_failure_text(
            what + " failed with "@,
            status,
            summary_of_body(trimmed(body), json_document(trimmed(body))),
        ),
    }
}

/// The text of the failure that an answer amounts to, and `None` for an answer
/// that was read.
pub open spec fn failure_text<T>(
    answer: RegistryAnswer<T>,
    what: Seq<char>,
    decoding: Seq<char>,
    advice: Advice,
) -> Option<Seq<char>> {
    match answer {
        RegistryAnswer::Unreachable(reason) => Some(what + " failed: "@ + reason@),
        RegistryAnswer::Refused { status, body } => Some(refusal_text(what, status@, body@, advice)),
        RegistryAnswer::Undecodable(reason) => Some(decoding + ": "@ + reason@),
        RegistryAnswer::Decoded(_) => None,
    }
}

/// The text of the failure of a request that was refused.
pub fn refusal_message(what: &str, status: &str, body: &str, advice: Advice) -> (r: String)
    ensures
        r@ == refusal_text(what@, status@, body@, advice),
{
    match advice {
        Advice::Plain => request_failure_message(what, status, body),
        Advice::StartProcedure => rpc_failure_message(what, status, body, DAILY_START_RPC_NAME),
        Advice::ForfeitProcedure => rpc_failure_message(what, status, body, DAILY_FORFEIT_RPC_NAME),
        Advice::Verification => {
            let summary = summarize_daily_verify_error_body(body);
            let opening = join_two(what, " failed with ");
            verify_failure_from_summary(opening.as_str(), status, summary.as_str())
        },
    }
}

/// What an answer holds, where it was read; else the failure it amounts to.
/// `what` names the request and `decoding` the reading of its answer.
pub fn settle<T>(answer: RegistryAnswer<T>, what: &str, decoding: &str, advice: Advice) -> (r: Result<
    T,
    TransportError,
>)
    ensures
        match r {
            Ok(value) => answer == RegistryAnswer::Decoded(value),
            Err(error) => failure_text(answer, what@, decoding@, advice) == Some(error.message@),
        },
{
    match answer {
        RegistryAnswer::Unreachable(reason) => {
            let mut message = join_two(what, " failed: ");
            message.append(reason.as_str());
            Err(TransportError { message })
        },
        RegistryAnswer::Refused { status, body } => Err(
            TransportError {
                message: refusal_message(what, status.as_str(), body.as_str(), advice),
            },
        ),
        RegistryAnswer::Undecodable(reason) => {
            let mut message = join_two(decoding, ": ");
            message.append(reason.as_str());
            Err(TransportError { message })
        },
        RegistryAnswer::Decoded(value) => Ok(value),
    }
}

/// The entries of an answer to a query for scores, classic or daily. A row is
/// marked as this device's own where it carries this device's identity.
pub fn scores_outcome(answer: RegistryAnswer<Vec<ScoreRow>>, daily: bool, device_uuid: Option<&str>) -> (r:
    Result<Vec<ScoreEntry>, TransportError>)
    ensures
        match r {
            Ok(entries) => answer matches RegistryAnswer::Decoded(rows) && entries@.len()
                == rows@.len() && forall|i: int|
                0 <= i < rows@.len() ==> (#[trigger] entries@[i])@ == row_entry(
                    rows@[i],
                    match device_uuid {
                        Some(device) => Some(device@),
                        None => None,
                    },
                ),
            Err(error) => failure_text(
                answer,
                if daily {
                    "supabase daily fetch"@
                } else {
                    "supabase request"@
                },
                "failed to decode supabase response"@,
                Advice::Plain,
            ) == Some(error.message@),
        },
{
    let what = if daily { "supabase daily fetch" } else { "supabase request" };
    match settle(answer, what, "failed to decode supabase response", Advice::Plain) {
        Ok(rows) => Ok(entries_from_rows(rows, device_uuid)),
        Err(error) => Err(error),
    }
}

/// What the registry holds of a device's attempts, from the answer to the query
/// for them.
pub fn attempts_outcome(answer: RegistryAnswer<Vec<DailyAttemptsRow>>) -> (r: Result<
    RemoteDailyAttemptStatus,
    TransportError,
>)
    ensures
        match r {
            Ok(status) => answer matches RegistryAnswer::Decoded(rows) && (rows@.len() == 0
                ==> status.attempts_used == 0 && !status.has_active_attempt) && (rows@.len() > 0
                ==> status.attempts_used == clamped_attempts(
                match rows@[0].attempts_used {
                    Some(n) => n as int,
                    None => 0,
                },
            ) && status.has_active_attempt == token_is_held(
                optional_text(rows@[0].active_attempt_token),
            )),
            Err(error) => failure_text(
                answer,
                "supabase daily status fetch"@,
                "failed to decode supabase response"@,
                Advice::Plain,
            ) == Some(error.message@),
        },
{
    match settle(
        answer,
        "supabase daily status fetch",
        "failed to decode supabase response",
        Advice::Plain,
    ) {
        Ok(rows) => Ok(remote_attempt_status(&rows)),
        Err(error) => Err(error),
    }
}

/// The keys of the completed daily challenges, from the answer to the query
/// for them.
pub fn badge_keys_outcome(answer: RegistryAnswer<Vec<String>>) -> (r: Result<
    Vec<String>,
    TransportError,
>)
    ensures
        match r {
            Ok(keys) => answer == RegistryAnswer::Decoded(keys),
            Err(error) => failure_text(
                answer,
                "supabase daily badge fetch"@,
                "failed to decode daily badge response"@,
                Advice::Plain,
            ) == Some(error.message@),
        },
{
    settle(
        answer,
        "supabase daily badge fetch",
        "failed to decode daily badge response",
        Advice::Plain,
    )
}

/// The result of a request to start a daily attempt: the registry's answer
/// with its numbers brought into agreement.
pub fn start_outcome(answer: RegistryAnswer<DailyAttemptStartResult>, challenge_key: &str) -> (r: Result<
    DailyAttemptStartResult,
    TransportError,
>)
    ensures
        match r {
            Ok(result) => {
                &&& answer matches RegistryAnswer::Decoded(raw)
                &&& result.well_formed()
                &&& result.accepted == raw.accepted
                &&& result.resumed == raw.resumed
                &&& optional_text(result.attempt_token) == setting_of(
                    optional_text(raw.attempt_token),
                )
                &&& result.challenge_key@ == challenge_key@
                &&& result.attempts_used == clamped_attempts(raw.attempts_used as int)
                &&& result.has_active_attempt == raw.has_active_attempt
            },
            Err(error) => failure_text(
                answer,
                "supabase daily start"@,
                "failed to decode daily start response"@,
                Advice::StartProcedure,
            ) == Some(error.message@),
        },
{
    match settle(
        answer,
        "supabase daily start",
        "failed to decode daily start response",
        Advice::StartProcedure,
    ) {
        Ok(raw) => Ok(normalize_start_result(raw, challenge_key)),
        Err(error) => Err(error),
    }
}

/// The result of a request to give a daily attempt up.
pub fn forfeit_outcome(answer: RegistryAnswer<DailyForfeitResult>, challenge_key: &str) -> (r: Result<
    DailyForfeitResult,
    TransportError,
>)
    ensures
        match r {
            Ok(result) => {
                &&& answer matches RegistryAnswer::Decoded(raw)
                &&& result.well_formed()
                &&& result.accepted == raw.accepted
                &&& result.challenge_key@ == challenge_key@
                &&& result.attempts_used == clamped_attempts(raw.attempts_used as int)
                &&& result.has_active_attempt == raw.has_active_attempt
            },
            Err(error) => failure_text(
                answer,
                "supabase daily forfeit"@,
                "failed to decode daily forfeit response"@,
                Advice::ForfeitProcedure,
            ) == Some(error.message@),
        },
{
    match settle(
        answer,
        "supabase daily forfeit",
        "failed to decode daily forfeit response",
        Advice::ForfeitProcedure,
    ) {
        Ok(raw) => Ok(normalize_forfeit_result(raw, challenge_key)),
        Err(error) => Err(error),
    }
}

/// The result of a submitted daily score. A refusal is handed on with the
/// summary of its body and the hint that goes with it.
pub fn daily_submit_outcome(answer: RegistryAnswer<DailySubmitResult>, challenge_key: &str) -> (r: Result<
    DailySubmitResult,
    TransportError,
>)
    ensures
        match r {
            Ok(result) => {
                &&& answer matches RegistryAnswer::Decoded(raw)
                &&& result.well_formed()
                &&& result.accepted == raw.accepted
                &&& result.improved == raw.improved
                &&& result.challenge_key@ == challenge_key@
                &&& result.attempts_used == clamped_attempts(raw.attempts_used as int)
                &&& result.has_active_attempt == raw.has_active_attempt
            },
            Err(error) => failure_text(
                answer,
                "supabase daily replay verify"@,
                "failed to decode daily verify response"@,
                Advice::Verification,
            ) == Some(error.message@),
        },
{
    match settle(
        answer,
        "supabase daily replay verify",
        "failed to decode daily verify response",
        Advice::Verification,
    ) {
        Ok(raw) => Ok(normalize_submit_result(raw, challenge_key)),
        Err(error) => Err(error),
    }
}

/// How the recording of a classic score ended, from the two steps: the writing
/// to the cache, and the answer of the registry where one was asked for.
pub fn classic_submit_outcome(local: Result<(), String>, remote: Option<RegistryAnswer<()>>) -> (r:
    SubmitOutcome)
    ensures
        match r {
            SubmitOutcome::LocalFailed(reason) => local matches Err(error) && reason@ == error@,
            SubmitOutcome::LocalOnly => local is Ok && remote is None,
            SubmitOutcome::RemoteFailed(reason) => local is Ok && remote is Some && failure_text(
                remote->Some_0,
                "supabase global replay verify"@,
                "failed to decode global verify response"@,
                Advice::Verification,
            ) == Some(reason@),
            SubmitOutcome::Synced => local is Ok && remote is Some && remote->Some_0 is Decoded,
        },
{
    match local {
        Err(error) => SubmitOutcome::LocalFailed(error),
        Ok(_) => match remote {
            None => SubmitOutcome::LocalOnly,
            Some(answer) => match global_submit_outcome(answer) {
                Ok(_) => SubmitOutcome::Synced,
                Err(error) => SubmitOutcome::RemoteFailed(error.message),
            },
        },
    }
}

/// Whether the score is in the cache, whatever became of it at the registry.
pub fn is_recorded(outcome: &SubmitOutcome) -> (r: bool)
    ensures
        r == !(outcome is LocalFailed),
{
    match outcome {
        SubmitOutcome::LocalFailed(_) => false,
        _ => true,
    }
}

/// The result of a submitted classic score: nothing is read from a success.
pub fn global_submit_outcome(answer: RegistryAnswer<()>) -> (r: Result<(), TransportError>)
    ensures
        match r {
            Ok(_) => answer is Decoded,
            Err(error) => failure_text(
                answer,
                "supabase global replay verify"@,
                "failed to decode global verify response"@,
                Advice::Verification,
            ) == Some(error.message@),
        },
{
    settle(
        answer,
        "supabase global replay verify",
        "failed to decode global verify response",
        Advice::Verification,
    )
}

} // verus!
