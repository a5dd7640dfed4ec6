//! What is said to the registry and what is made of its answers: addresses,
//! queries and payloads on the way out; score rows, failure texts and hints on
//! the way back. Nothing here sends anything.

use vstd::prelude::*;
use vstd::string::*;
use crate::daily::{is_owned_by_device, SupabaseConfig};
use crate::json::{json_document, json_text_field, parse_json, text_field};
use crate::records::{optional_text, usage_views, ScoreEntry, ScoreEntryView, SkillUsage};
use crate::replay::DailyReplayProof;
use crate::text::{
    join_two, contains, has_substring, strip_trailing, trim, trim_end_matches, trimmed,
    trimmed_non_empty,
};

verus! {

/// One score row as the registry answers with it.
#[derive(Debug, Clone, PartialEq, Eq)]
pub struct ScoreRow {
    pub player_name: String,
    pub score: i64,
    pub level: i64,
    pub created_at: String,
    pub skill_usage: Option<Vec<SkillUsage>>,
    pub client_uuid: Option<String>,
}

/// What is sent to start a daily attempt.
#[derive(Debug, Clone, PartialEq, Eq)]
pub struct DailyStartPayload {
    pub p_client_uuid: String,
    pub p_challenge_key: String,
    pub p_player_name: String,
}

/// What is sent to give a daily attempt up.
#[derive(Debug, Clone, PartialEq, Eq)]
pub struct DailyForfeitPayload {
    pub p_client_uuid: String,
    pub p_challenge_key: String,
    pub p_attempt_token: String,
}

/// What is sent to have a score verified and recorded.
#[derive(Debug, Clone, PartialEq, Eq)]
pub struct VerifyScorePayload {
    pub mode: String,
    pub challenge_key: String,
    pub attempt_token: Option<String>,
    pub client_uuid: String,
    pub entry: ScoreEntry,
    pub replay_proof: DailyReplayProof,
}

/// The digit `0` to `9` of a number below ten.
pub open spec fn digit_char(digit: nat) -> char {
    ('0' as u8 + digit) as char
}

/// A number written in base ten, without leading zeros.
pub open spec fn decimal_text(n: nat) -> Seq<char>
    decreases n,
{
    if n < 10 {
        seq![digit_char(n)]
    } else {
        decimal_text(n / 10).push(digit_char(n % 10))
    }
}

/// The address of the registry without the slashes at its end.
pub open spec fn base_address(url: Seq<char>) -> Seq<char> {
    strip_trailing(url, '/')
}

/// The pairs of a query as texts.
pub open spec fn query_views(query: Seq<(String, String)>) -> Seq<(Seq<char>, Seq<char>)> {
    Seq::new(query.len(), |i: int| (query[i].0@, query[i].1@))
}

/// The entry that a score row stands for. It is this device's own where the
/// row carries the identity of this device.
pub open spec fn row_entry(row: ScoreRow, device_uuid: Option<Seq<char>>) -> ScoreEntryView {
    ScoreEntryView {
        user: row.player_name@,
        score: row.score as int,
        level: row.level as int,
        date: row.created_at@,
        skill_usage: match row.skill_usage {
            Some(usages) => usage_views(usages@),
            None => Seq::empty(),
        },
        is_me: optional_text(row.client_uuid) is Some && optional_text(row.client_uuid) == device_uuid,
    }
}

/// One part of a failure summary: the field trimmed, behind its label; nothing
/// where the field is missing or blank.
pub open spec fn summary_part(field: Option<Seq<char>>, label: Seq<char>) -> Seq<Seq<char>> {
    match field {
        Some(text) => if trimmed(text).len() == 0 {
            Seq::empty()
        } else {
            seq![label + trimmed(text)]
        },
        None => Seq::empty(),
    }
}

/// The parts of a failure summary, in their order: the error, the reason, the
/// detail, the code.
pub open spec fn summary_parts(
    error: Option<Seq<char>>,
    reason: Option<Seq<char>>,
    detail: Option<Seq<char>>,
    code: Option<Seq<char>>,
) -> Seq<Seq<char>> {
    summary_part(error, Seq::empty()) + summary_part(reason, "reason="@) + summary_part(
        detail,
        "detail="@,
    ) + summary_part(code, "code="@)
}

/// The parts one after the other, with `, ` between them.
pub open spec fn joined(parts: Seq<Seq<char>>) -> Seq<char>
    decreases parts.len(),
{
    if parts.len() == 0 {
        Seq::empty()
    } else if parts.len() == 1 {
        parts[0]
    } else {
        joined(parts.drop_last()) + ", "@ + parts.last()
    }
}

/// The summary of a failure from the four fields of its body. Where none of
/// them says anything, the body itself is the summary.
pub open spec fn summary_of_fields(
    body: Seq<char>,
    error: Option<Seq<char>>,
    reason: Option<Seq<char>>,
    detail: Option<Seq<char>>,
    code: Option<Seq<char>>,
) -> Seq<char> {
    if summary_parts(error, reason, detail, code).len() == 0 {
        body
    } else {
        joined(summary_parts(error, reason, detail, code))
    }
}

/// The summary of a failure from its trimmed body and the document that the
/// body writes, if it writes one.
pub open spec fn summary_of_body(
    body: Seq<char>,
    document: Option<Map<Seq<char>, Seq<char>>>,
) -> Seq<char> {
    if body.len() == 0 {
        "(empty response body)"@
    } else {
        match document {
            Some(fields) => summary_of_fields(
                body,
                text_field(fields, "error"@),
                text_field(fields, "reason"@),
                text_field(fields, "detail"@),
                text_field(fields, "code"@),
            ),
            None => body,
        }
    }
}

/// The hint that goes with a failure summary: that of the first code, in this
/// order, that the summary holds.
pub open spec fn hint_of(summary: Seq<char>) -> Option<Seq<char>> {
    if has_substring(summary, "REPLAY_VERIFICATION_FAILED"@) {
        Some("Replay proof mismatch. Check function logs for reason/expected/actual."@)
    } else if has_substring(summary, "CHALLENGE_KEY_MISMATCH"@) {
        Some("The UTC day changed during the run. Start a new Daily Challenge attempt."@)
    } else if has_substring(summary, "INVALID_ATTEMPT_TOKEN"@) {
        Some("The attempt token is stale. Start a new Daily Challenge attempt."@)
    } else if has_substring(summary, "MISSING_SUPABASE_ENV"@) {
        Some("Set SUPABASE_SERVICE_ROLE_KEY in Edge Function secrets."@)
    } else if has_substring(summary, "RPC_SUBMIT_GLOBAL_SCORE_FAILED"@) {
        Some("Check submit_global_score RPC and service_role execute grant in schema."@)
    } else if has_substring(summary, "permission denied"@) {
        Some(
            "Grant execute on submit_daily_score/submit_global_score to service_role and redeploy schema."@,
        )
    } else {
        None
    }
}

/// The line that carries a hint, and nothing without one.
pub open spec fn hint_line(hint: Option<Seq<char>>) -> Seq<char> {
    match hint {
        Some(text) => "\nHint: "@ + text,
        None => Seq::empty(),
    }
}

/// The text of a failed verification from the words that open it, the status
/// and the summary of the body.
pub open spec fn verify_failure_text(opening: Seq<char>, status: Seq<char>, summary: Seq<char>) -> Seq<
    char,
> {
    opening + status + ": "@ + summary + hint_line(hint_of(summary))
        + "\nEnsure /supabase/schema.sql and /supabase/functions/verify-score are deployed."@
}

/// The one digit of a number below ten.
fn digit_text(digit: usize) -> (r: &'static str)
    requires
        digit < 10,
    ensures
        r@ == seq![digit_char(digit as nat)],
{
    proof {
        reveal_strlit("0");
        reveal_strlit("1");
        reveal_strlit("2");
        reveal_strlit("3");
        reveal_strlit("4");
        reveal_strlit("5");
        reveal_strlit("6");
        reveal_strlit("7");
        reveal_strlit("8");
        reveal_strlit("9");
    }
    let text = if digit == 0 {
        "0"
    } else if digit == 1 {
        "1"
    } else if digit == 2 {
        "2"
    } else if digit == 3 {
        "3"
    } else if digit == 4 {
        "4"
    } else if digit == 5 {
        "5"
    } else if digit == 6 {
        "6"
    } else if digit == 7 {
        "7"
    } else if digit == 8 {
        "8"
    } else {
        "9"
    };
    proof {
        assert(text@ =~= seq![digit_char(digit as nat)]);
    }
    text
}

/// A number written in base ten.
pub fn decimal(n: usize) -> (r: String)
    ensures
        r@ == decimal_text(n as nat),
    decreases n,
{
    if n < 10 {
        digit_text(n).to_owned()
    } else {
        let mut text = decimal(n / 10);
        text.append(digit_text(n % 10));
        text
    }
}

/// The address under which the registry keeps the scores.
pub fn scores_endpoint(config: &SupabaseConfig) -> (r: String)
    ensures
        r@ == base_address(config.url@) + "/rest/v1/scores"@,
{
    join_two(trim_end_matches(config.url.as_str(), '/'), "/rest/v1/scores")
}

/// The address of one of the registry's remote procedures.
pub fn rpc_endpoint(config: &SupabaseConfig, rpc_name: &str) -> (r: String)
    ensures
        r@ == base_address(config.url@) + "/rest/v1/rpc/"@ + rpc_name@,
{
    let mut address = join_two(trim_end_matches(config.url.as_str(), '/'), "/rest/v1/rpc/");
    address.append(rpc_name);
    address
}

/// The address of one of the registry's functions.
pub fn function_endpoint(config: &SupabaseConfig, function_name: &str) -> (r: String)
    ensures
        r@ == base_address(config.url@) + "/functions/v1/"@ + function_name@,
{
    let mut address = join_two(trim_end_matches(config.url.as_str(), '/'), "/functions/v1/");
    address.append(function_name);
    address
}

/// The value of the authorization header.
pub fn authorization(config: &SupabaseConfig) -> (r: String)
    ensures
        r@ == "Bearer "@ + config.anon_key@,
{
    join_two("Bearer ", config.anon_key.as_str())
}

/// One pair of a query.
fn pair(name: &str, value: &str) -> (r: (String, String))
    ensures
        r.0@ == name@,
        r.1@ == value@,
{
    (name.to_owned(), value.to_owned())
}

/// The filter that asks for equality with `value`.
pub fn equals_filter(value: &str) -> (r: String)
    ensures
        r@ == "eq."@ + value@,
{
    join_two("eq.", value)
}

/// The query for the best classic scores.
pub fn classic_scores_query(limit: usize) -> (r: Vec<(String, String)>)
    ensures
        query_views(r@) == seq![
            ("select"@, "player_name,score,level,created_at,skill_usage,client_uuid"@),
            ("mode"@, "eq.classic"@),
            ("challenge_key"@, "eq.classic"@),
            ("order"@, "score.desc,level.desc,created_at.desc"@),
            ("limit"@, decimal_text(limit as nat)),
        ],
{
    let mut query: Vec<(String, String)> = Vec::new();
    query.push(pair("select", "player_name,score,level,created_at,skill_usage,client_uuid"));
    query.push(pair("mode", "eq.classic"));
    query.push(pair("challenge_key", "eq.classic"));
    query.push(pair("order", "score.desc,level.desc,created_at.desc"));
    let limit_text = decimal(limit);
    query.push(pair("limit", limit_text.as_str()));
    proof {
        assert(query_views(query@) =~= seq![
            ("select"@, "player_name,score,level,created_at,skill_usage,client_uuid"@),
            ("mode"@, "eq.classic"@),
            ("challenge_key"@, "eq.classic"@),
            ("order"@, "score.desc,level.desc,created_at.desc"@),
            ("limit"@, decimal_text(limit as nat)),
        ]);
    }
    query
}

/// The query for the best scores of one daily challenge.
pub fn daily_scores_query(challenge_key: &str, limit: usize) -> (r: Vec<(String, String)>)
    ensures
        query_views(r@) == seq![
            ("select"@, "player_name,score,level,created_at,skill_usage,client_uuid"@),
            ("mode"@, "eq.daily"@),
            ("challenge_key"@, "eq."@ + challenge_key@),
            ("daily_has_submission"@, "eq.true"@),
            ("order"@, "score.desc,level.desc,created_at.desc"@),
            ("limit"@, decimal_text(limit as nat)),
        ],
{
    let mut query: Vec<(String, String)> = Vec::new();
    query.push(pair("select", "player_name,score,level,created_at,skill_usage,client_uuid"));
    query.push(pair("mode", "eq.daily"));
    let key_filter = equals_filter(challenge_key);
    query.push(pair("challenge_key", key_filter.as_str()));
    query.push(pair("daily_has_submission", "eq.true"));
    query.push(pair("order", "score.desc,level.desc,created_at.desc"));
    let limit_text = decimal(limit);
    query.push(pair("limit", limit_text.as_str()));
    proof {
        assert(query_views(query@) =~= seq![
            ("select"@, "player_name,score,level,created_at,skill_usage,client_uuid"@),
            ("mode"@, "eq.daily"@),
            ("challenge_key"@, "eq."@ + challenge_key@),
            ("daily_has_submission"@, "eq.true"@),
            ("order"@, "score.desc,level.desc,created_at.desc"@),
            ("limit"@, decimal_text(limit as nat)),
        ]);
    }
    query
}

/// The query for a device's attempts at one daily challenge.
pub fn daily_attempts_query(challenge_key: &str, client_uuid: &str) -> (r: Vec<(String, String)>)
    ensures
        query_views(r@) == seq![
            ("select"@, "attempts_used,active_attempt_token"@),
            ("mode"@, "eq.daily"@),
            ("challenge_key"@, "eq."@ + challenge_key@),
            ("client_uuid"@, "eq."@ + client_uuid@),
            ("limit"@, "1"@),
        ],
{
    let mut query: Vec<(String, String)> = Vec::new();
    query.push(pair("select", "attempts_used,active_attempt_token"));
    query.push(pair("mode", "eq.daily"));
    let key_filter = equals_filter(challenge_key);
    query.push(pair("challenge_key", key_filter.as_str()));
    let uuid_filter = equals_filter(client_uuid);
    query.push(pair("client_uuid", uuid_filter.as_str()));
    query.push(pair("limit", "1"));
    proof {
        assert(query_views(query@) =~= seq![
            ("select"@, "attempts_used,active_attempt_token"@),
            ("mode"@, "eq.daily"@),
            ("challenge_key"@, "eq."@ + challenge_key@),
            ("client_uuid"@, "eq."@ + client_uuid@),
            ("limit"@, "1"@),
        ]);
    }
    query
}

/// The query for the keys of the daily challenges that a device completed.
pub fn daily_badge_keys_query(client_uuid: &str) -> (r: Vec<(String, String)>)
    ensures
        query_views(r@) == seq![
            ("select"@, "challenge_key"@),
            ("mode"@, "eq.daily"@),
            ("client_uuid"@, "eq."@ + client_uuid@),
            ("daily_has_submission"@, "eq.true"@),
            ("order"@, "challenge_key.asc"@),
            ("limit"@, "2048"@),
        ],
{
    let mut query: Vec<(String, String)> = Vec::new();
    query.push(pair("select", "challenge_key"));
    query.push(pair("mode", "eq.daily"));
    let uuid_filter = equals_filter(client_uuid);
    query.push(pair("client_uuid", uuid_filter.as_str()));
    query.push(pair("daily_has_submission", "eq.true"));
    query.push(pair("order", "challenge_key.asc"));
    query.push(pair("limit", "2048"));
    proof {
        assert(query_views(query@) =~= seq![
            ("select"@, "challenge_key"@),
            ("mode"@, "eq.daily"@),
            ("client_uuid"@, "eq."@ + client_uuid@),
            ("daily_has_submission"@, "eq.true"@),
            ("order"@, "challenge_key.asc"@),
            ("limit"@, "2048"@),
        ]);
    }
    query
}

/// What is sent to start a daily attempt. The player's name is not known yet.
pub fn daily_start_payload(client_uuid: &str, challenge_key: &str) -> (r: DailyStartPayload)
    ensures
        r.p_client_uuid@ == client_uuid@,
        r.p_challenge_key@ == challenge_key@,
        r.p_player_name@ == "Pending"@,
{
    DailyStartPayload {
        p_client_uuid: client_uuid.to_owned(),
        p_challenge_key: challenge_key.to_owned(),
        p_player_name: "Pending".to_owned(),
    }
}

/// What is sent to give a daily attempt up.
pub fn daily_forfeit_payload(client_uuid: &str, challenge_key: &str, attempt_token: &str) -> (r:
    DailyForfeitPayload)
    ensures
        r.p_client_uuid@ == client_uuid@,
        r.p_challenge_key@ == challenge_key@,
        r.p_attempt_token@ == attempt_token@,
{
    DailyForfeitPayload {
        p_client_uuid: client_uuid.to_owned(),
        p_challenge_key: challenge_key.to_owned(),
        p_attempt_token: attempt_token.to_owned(),
    }
}

/// What is sent to have a classic score verified: no attempt token goes with
/// it.
pub fn classic_verify_payload(entry: ScoreEntry, replay_proof: DailyReplayProof, client_uuid: &str) -> (r:
    VerifyScorePayload)
    ensures
        r.mode@ == "classic"@,
        r.challenge_key@ == "classic"@,
        r.attempt_token is None,
        r.client_uuid@ == client_uuid@,
        r.entry == entry,
        r.replay_proof == replay_proof,
{
    VerifyScorePayload {
        mode: "classic".to_owned(),
        challenge_key: "classic".to_owned(),
        attempt_token: None,
        client_uuid: client_uuid.to_owned(),
        entry,
        replay_proof,
    }
}

/// What is sent to have a daily score verified.
pub fn daily_verify_payload(
    challenge_key: &str,
    attempt_token: &str,
    entry: ScoreEntry,
    replay_proof: DailyReplayProof,
    client_uuid: &str,
) -> (r: VerifyScorePayload)
    ensures
        r.mode@ == "daily"@,
        r.challenge_key@ == challenge_key@,
        optional_text(r.attempt_token) == Some(attempt_token@),
        r.client_uuid@ == client_uuid@,
        r.entry == entry,
        r.replay_proof == replay_proof,
{
    VerifyScorePayload {
        mode: "daily".to_owned(),
        challenge_key: challenge_key.to_owned(),
        attempt_token: Some(attempt_token.to_owned()),
        client_uuid: client_uuid.to_owned(),
        entry,
        replay_proof,
    }
}

/// The entry that a score row stands for.
pub fn entry_from_row(row: ScoreRow, device_uuid: Option<&str>) -> (r: ScoreEntry)
    ensures
        r@ == row_entry(
            row,
            match device_uuid {
                Some(device) => Some(device@),
                None => None,
            },
        ),
{
    let is_me = match &row.client_uuid {
        Some(owner) => is_owned_by_device(Some(owner.as_str()), device_uuid),
        None => false,
    };
    let skill_usage = match row.skill_usage {
        Some(usages) => usages,
        None => {
            let empty: Vec<SkillUsage> = Vec::new();
            proof {
                assert(usage_views(empty@) =~= Seq::empty());
            }
            empty
        },
    };
    ScoreEntry {
        user: row.player_name,
        score: row.score,
        level: row.level,
        date: row.created_at,
        skill_usage,
        is_me,
    }
}

/// The entries that the rows of an answer stand for, in the order of the rows.
pub fn entries_from_rows(rows: Vec<ScoreRow>, device_uuid: Option<&str>) -> (r: Vec<ScoreEntry>)
    ensures
        r@.len() == rows@.len(),
        forall|i: int|
            0 <= i < rows@.len() ==> (#[trigger] r@[i])@ == row_entry(
                rows@[i],
                match device_uuid {
                    Some(device) => Some(device@),
                    None => None,
                },
            ),
{
    let ghost all = rows@;
    let mut source = rows;
    let mut entries: Vec<ScoreEntry> = Vec::new();
    while source.len() > 0
        invariant
            entries@.len() + source@.len() == all.len(),
            forall|i: int| 0 <= i < source@.len() ==> source@[i] == all[entries@.len() + i],
            forall|i: int|
                0 <= i < entries@.len() ==> (#[trigger] entries@[i])@ == row_entry(
                    all[i],
                    match device_uuid {
                        Some(device) => Some(device@),
                        None => None,
                    },
                ),
        decreases source@.len(),
    {
        let row = source.remove(0);
        let entry = entry_from_row(row, device_uuid);
        entries.push(entry);
    }
    entries
}

/// Adds one part to a failure summary: the field trimmed, behind its label,
/// and behind `, ` where it is not the first part.
fn add_summary_part(summary: &mut String, count: &mut usize, field: &Option<String>, label: &str)
    requires
        *old(count) <= 4,
    ensures
        *final(count) == *old(count) + summary_part(optional_text(*field), label@).len(),
        summary_part(optional_text(*field), label@).len() == 0 ==> final(summary)@ == old(summary)@,
        summary_part(optional_text(*field), label@).len() == 1 ==> final(summary)@ == old(
            summary,
        )@ + (if *old(count) == 0 {
            Seq::<char>::empty()
        } else {
            ", "@
        }) + summary_part(optional_text(*field), label@)[0],
{
    let text = match field {
        Some(value) => trimmed_non_empty(value.as_str()),
        None => None,
    };
    match text {
        Some(value) => {
            let ghost before = summary@;
            if *count > 0 {
                summary.append(", ");
            }
            summary.append(label);
            summary.append(value.as_str());
            *count = *count + 1;
            proof {
                let separator = if *old(count) == 0 { Seq::<char>::empty() } else { ", "@ };
                assert(summary@ =~= before + separator + (label@ + value@));
            }
        },
        None => {},
    }
}

/// The summary of a failure from its trimmed body and the four fields read
/// from it: the fields that say something, each trimmed and all but the error
/// behind its label, with `, ` between them; the body where none says
/// anything.
pub fn summarize_error_fields(
    body: &str,
    error: Option<String>,
    reason: Option<String>,
    detail: Option<String>,
    code: Option<String>,
) -> (r: String)
    ensures
        r@ == summary_of_fields(
            body@,
            optional_text(error),
            optional_text(reason),
            optional_text(detail),
            optional_text(code),
        ),
{
    let mut summary = String::new();
    let mut count: usize = 0;
    let ghost first = summary_part(optional_text(error), Seq::empty());
    let ghost second = summary_part(optional_text(reason), "reason="@);
    let ghost third = summary_part(optional_text(detail), "detail="@);
    let ghost fourth = summary_part(optional_text(code), "code="@);
    proof {
        reveal_strlit("");
        assert(""@ =~= Seq::<char>::empty());
    }
    add_summary_part(&mut summary, &mut count, &error, "");
    proof {
        assert(summary@ =~= joined(first));
    }
    add_summary_part(&mut summary, &mut count, &reason, "reason=");
    proof {
        lemma_joined_step(first, second);
        assert(summary@ =~= joined(first + second));
    }
    add_summary_part(&mut summary, &mut count, &detail, "detail=");
    proof {
        lemma_joined_step(first + second, third);
        assert(summary@ =~= joined(first + second + third));
    }
    add_summary_part(&mut summary, &mut count, &code, "code=");
    proof {
        lemma_joined_step(first + second + third, fourth);
        assert(summary@ =~= joined(first + second + third + fourth));
    }
    if count == 0 {
        body.to_owned()
    } else {
        summary
    }
}

/// The summary of the body of a failed verification. A blank body is named as
/// such; a body that is a JSON document is summed up from its fields `error`,
/// `reason`, `detail` and `code`; any other body is its own summary.
pub fn summarize_daily_verify_error_body(body: &str) -> (r: String)
    ensures
        r@ == summary_of_body(trimmed(body@), json_document(trimmed(body@))),
{
    let text = trim(body);
    if text.is_empty() {
        return "(empty response body)".to_owned();
    }
    let parsed = match parse_json(text) {
        Ok(value) => value,
        Err(_) => {
            return text.to_owned();
        },
    };
    let error = json_text_field(&parsed, "error");
    let reason = json_text_field(&parsed, "reason");
    let detail = json_text_field(&parsed, "detail");
    let code = json_text_field(&parsed, "code");
    summarize_error_fields(text, error, reason, detail, code)
}

/// The hint that goes with a failure summary, if there is one.
pub fn daily_verify_error_hint(summary: &str) -> (r: Option<&'static str>)
    ensures
        match r {
            Some(hint) => hint_of(summary@) == Some(hint@),
            None => hint_of(summary@) is None,
        },
{
    if contains(summary, "REPLAY_VERIFICATION_FAILED") {
        return Some("Replay proof mismatch. Check function logs for reason/expected/actual.");
    }
    if contains(summary, "CHALLENGE_KEY_MISMATCH") {
        return Some("The UTC day changed during the run. Start a new Daily Challenge attempt.");
    }
    if contains(summary, "INVALID_ATTEMPT_TOKEN") {
        return Some("The attempt token is stale. Start a new Daily Challenge attempt.");
    }
    if contains(summary, "MISSING_SUPABASE_ENV") {
        return Some("Set SUPABASE_SERVICE_ROLE_KEY in Edge Function secrets.");
    }
    if contains(summary, "RPC_SUBMIT_GLOBAL_SCORE_FAILED") {
        return Some("Check submit_global_score RPC and service_role execute grant in schema.");
    }
    if contains(summary, "permission denied") {
        return Some(
            "Grant execute on submit_daily_score/submit_global_score to service_role and redeploy schema.",
        );
    }
    None
}

/// The text of a failed verification from the summary of its body: the words
/// that open it, the status, the summary, the hint where there is one, and
/// the advice that closes it.
pub fn verify_failure_from_summary(opening: &str, status: &str, summary: &str) -> (r: String)
    ensures
        r@ == verify_failure_text(opening@, status@, summary@),
{
    let mut text = join_two(opening, status);
    text.append(": ");
    text.append(summary);
    match daily_verify_error_hint(summary) {
        Some(hint) => {
            text.append("\nHint: ");
            text.append(hint);
        },
        None => {},
    }
    text.append("\nEnsure /supabase/schema.sql and /supabase/functions/verify-score are deployed.");
    proof {
        assert(text@ =~= verify_failure_text(opening@, status@, summary@));
    }
    text
}

/// The text of a failed verification of a classic or a daily score, from the
/// status and the body of the answer.
pub fn verify_failure_message(daily: bool, status: &str, body: &str) -> (r: String)
    ensures
        r@ == verify_failure_text(
            if daily {
                "supabase daily replay verify failed with "@
            } else {
                "supabase global replay verify failed with "@
            },
            status@,
            summary_of_body(trimmed(body@), json_document(trimmed(body@))),
        ),
{
    let summary = summarize_daily_verify_error_body(body);
    let opening = if daily {
        "supabase daily replay verify failed with "
    } else {
        "supabase global replay verify failed with "
    };
    verify_failure_from_summary(opening, status, summary.as_str())
}

/// The text of a request that the registry answered with a failure.
pub fn request_failure_message(what: &str, status: &str, body: &str) -> (r: String)
    ensures
        r@ == what@ + " failed with "@ + status@ + ": "@ + body@,
{
    let mut text = join_two(what, " failed with ");
    text.append(status);
    text.append(": ");
    text.append(body);
    text
}

/// The text of a remote procedure that failed, with the advice to install it.
pub fn rpc_failure_message(what: &str, status: &str, body: &str, rpc_name: &str) -> (r: String)
    ensures
        r@ == what@ + " failed with "@ + status@ + ": "@ + body@
            + "\nEnsure /supabase/schema.sql has been applied (including RPC "@ + rpc_name@ + ")."@,
{
    let mut text = request_failure_message(what, status, body);
    text.append("\nEnsure /supabase/schema.sql has been applied (including RPC ");
    text.append(rpc_name);
    text.append(").");
    text
}

/// Joining with one part more: the part goes behind `, `, or stands alone
/// where it is the first.
proof fn lemma_joined_step(parts: Seq<Seq<char>>, more: Seq<Seq<char>>)
    requires
        more.len() <= 1,
    ensures
        more.len() == 0 ==> joined(parts + more) == joined(parts),
        more.len() == 1 ==> joined(parts + more) == joined(parts) + (if parts.len() == 0 {
            Seq::<char>::empty()
        } else {
            ", "@
        }) + more[0],
{
    if more.len() == 0 {
        assert(parts + more =~= parts);
    } else {
        let all = parts + more;
        assert(all.drop_last() =~= parts);
        assert(all.last() == more[0]);
        if parts.len() == 0 {
            assert(joined(parts) =~= Seq::<char>::empty());
            assert(joined(all) =~= joined(parts) + Seq::<char>::empty() + more[0]);
        }
    }
}

/// Reading a number back from its decimal text gives the number.
pub proof fn lemma_decimal_text_value(n: nat)
    ensures
        crate::calendar::all_digits(decimal_text(n)),
        crate::calendar::digits_value(decimal_text(n)) == n,
        decimal_text(n).len() > 0,
    decreases n,
{
    if n >= 10 {
        lemma_decimal_text_value(n / 10);
        let text = decimal_text(n);
        assert(text.drop_last() =~= decimal_text(n / 10));
        assert(text.last() == digit_char(n % 10));
        assert(digit_char(n % 10) as nat - '0' as nat == n % 10);
        assert forall|i: int| 0 <= i < text.len() implies crate::calendar::is_digit(
            #[trigger] text[i],
        ) by {
            if i < text.len() - 1 {
                assert(text[i] == decimal_text(n / 10)[i]);
            }
        }
    } else {
        let text = decimal_text(n);
        assert(text.drop_last() =~= Seq::<char>::empty());
        assert(text.last() == digit_char(n));
        assert(digit_char(n) as nat - '0' as nat == n);
        assert(crate::calendar::digits_value(text.drop_last()) == 0);
    }
}

} // verus!
