use scoreboard::daily::SupabaseConfig;
use scoreboard::records::{ScoreEntry, SkillUsage};
use scoreboard::registry::{
    authorization, classic_scores_query, classic_verify_payload, daily_attempts_query,
    daily_badge_keys_query, daily_forfeit_payload, daily_scores_query, daily_start_payload,
    daily_verify_error_hint, daily_verify_payload, decimal, entries_from_rows, entry_from_row,
    equals_filter, function_endpoint, request_failure_message, rpc_endpoint,
    rpc_failure_message, scores_endpoint, summarize_daily_verify_error_body,
    summarize_error_fields, verify_failure_from_summary, verify_failure_message, ScoreRow,
};
use scoreboard::replay::DailyReplayProof;

fn config(url: &str) -> SupabaseConfig {
    SupabaseConfig { url: url.to_string(), anon_key: "anon".to_string() }
}

fn pairs(list: &[(&str, &str)]) -> Vec<(String, String)> {
    list.iter().map(|(a, b)| (a.to_string(), b.to_string())).collect()
}

fn row(name: &str, owner: Option<&str>) -> ScoreRow {
    ScoreRow {
        player_name: name.to_string(),
        score: 12,
        level: 3,
        created_at: "2024-01-01T00:00:00Z".to_string(),
        skill_usage: None,
        client_uuid: owner.map(|s| s.to_string()),
    }
}

fn text(s: &str) -> Option<String> {
    Some(s.to_string())
}

#[test]
fn addresses_drop_the_slashes_at_the_end_of_the_base() {
    assert_eq!(scores_endpoint(&config("https://x.example")), "https://x.example/rest/v1/scores");
    assert_eq!(scores_endpoint(&config("https://x.example///")), "https://x.example/rest/v1/scores");
    assert_eq!(scores_endpoint(&config("")), "/rest/v1/scores");
    assert_eq!(
        rpc_endpoint(&config("https://x.example/"), "start_daily_attempt"),
        "https://x.example/rest/v1/rpc/start_daily_attempt"
    );
    assert_eq!(
        function_endpoint(&config("https://x.example/a/"), "verify-score"),
        "https://x.example/a/functions/v1/verify-score"
    );
    assert_eq!(authorization(&config("u")), "Bearer anon");
}

#[test]
fn numbers_are_written_in_base_ten() {
    assert_eq!(decimal(0), "0");
    assert_eq!(decimal(7), "7");
    assert_eq!(decimal(10), "10");
    assert_eq!(decimal(100), "100");
    assert_eq!(decimal(9075), "9075");
    assert_eq!(decimal(usize::MAX), usize::MAX.to_string());
}

#[test]
fn the_classic_query() {
    assert_eq!(
        classic_scores_query(10),
        pairs(&[
            ("select", "player_name,score,level,created_at,skill_usage,client_uuid"),
            ("mode", "eq.classic"),
            ("challenge_key", "eq.classic"),
            ("order", "score.desc,level.desc,created_at.desc"),
            ("limit", "10"),
        ])
    );
}

#[test]
fn the_daily_queries() {
    assert_eq!(
        daily_scores_query("2024-01-01", 100),
        pairs(&[
            ("select", "player_name,score,level,created_at,skill_usage,client_uuid"),
            ("mode", "eq.daily"),
            ("challenge_key", "eq.2024-01-01"),
            ("daily_has_submission", "eq.true"),
            ("order", "score.desc,level.desc,created_at.desc"),
            ("limit", "100"),
        ])
    );
    assert_eq!(
        daily_attempts_query("2024-01-01", "dev"),
        pairs(&[
            ("select", "attempts_used,active_attempt_token"),
            ("mode", "eq.daily"),
            ("challenge_key", "eq.2024-01-01"),
            ("client_uuid", "eq.dev"),
            ("limit", "1"),
        ])
    );
    assert_eq!(
        daily_badge_keys_query("dev"),
        pairs(&[
            ("select", "challenge_key"),
            ("mode", "eq.daily"),
            ("client_uuid", "eq.dev"),
            ("daily_has_submission", "eq.true"),
            ("order", "challenge_key.asc"),
            ("limit", "2048"),
        ])
    );
    assert_eq!(equals_filter("x"), "eq.x");
}

#[test]
fn payloads_carry_what_they_are_given() {
    let start = daily_start_payload("dev", "2024-01-01");
    assert_eq!(
        (start.p_client_uuid.as_str(), start.p_challenge_key.as_str(), start.p_player_name.as_str()),
        ("dev", "2024-01-01", "Pending")
    );
    let forfeit = daily_forfeit_payload("dev", "2024-01-01", "tok");
    assert_eq!(
        (forfeit.p_client_uuid.as_str(), forfeit.p_challenge_key.as_str(), forfeit.p_attempt_token.as_str()),
        ("dev", "2024-01-01", "tok")
    );
    let entry = ScoreEntry {
        user: "ann".to_string(),
        score: 1,
        level: 1,
        date: "d".to_string(),
        skill_usage: Vec::new(),
        is_me: true,
    };
    let proof = DailyReplayProof {
        version: 1,
        difficulty: 1,
        seed: 9,
        final_time: 1,
        final_score: 1,
        final_level: 1,
        inputs: Vec::new(),
    };
    let classic = classic_verify_payload(entry.clone(), proof.clone(), "dev");
    assert_eq!(classic.mode, "classic");
    assert_eq!(classic.challenge_key, "classic");
    assert_eq!(classic.attempt_token, None);
    assert_eq!(classic.client_uuid, "dev");
    assert_eq!(classic.entry, entry);
    assert_eq!(classic.replay_proof, proof);
    let daily = daily_verify_payload("2024-01-01", "tok", entry.clone(), proof.clone(), "dev");
    assert_eq!(daily.mode, "daily");
    assert_eq!(daily.challenge_key, "2024-01-01");
    assert_eq!(daily.attempt_token, text("tok"));
    assert_eq!(daily.entry, entry);
    assert_eq!(daily.replay_proof, proof);
}

#[test]
fn a_row_of_this_device_is_marked() {
    let entry = entry_from_row(row("ann", Some("dev")), Some("dev"));
    assert_eq!(
        entry,
        ScoreEntry {
            user: "ann".to_string(),
            score: 12,
            level: 3,
            date: "2024-01-01T00:00:00Z".to_string(),
            skill_usage: Vec::new(),
            is_me: true,
        }
    );
    assert!(!entry_from_row(row("ann", Some("other")), Some("dev")).is_me);
    assert!(!entry_from_row(row("ann", None), Some("dev")).is_me);
    assert!(!entry_from_row(row("ann", Some("dev")), None).is_me);
    assert!(!entry_from_row(row("ann", None), None).is_me);
}

#[test]
fn rows_become_entries_in_order() {
    let mut with_skills = row("bob", Some("x"));
    with_skills.skill_usage =
        Some(vec![SkillUsage { name: " dash ".to_string(), hotkey: None, command: None }]);
    let entries = entries_from_rows(vec![row("ann", Some("dev")), with_skills, row("cat", None)], Some("dev"));
    assert_eq!(entries.iter().map(|e| e.user.as_str()).collect::<Vec<_>>(), vec!["ann", "bob", "cat"]);
    assert_eq!(entries.iter().map(|e| e.is_me).collect::<Vec<_>>(), vec![true, false, false]);
    assert_eq!(entries[1].skill_usage[0].name, " dash ");
    assert!(entries_from_rows(Vec::new(), None).is_empty());
}

#[test]
fn a_blank_body_is_named() {
    assert_eq!(summarize_daily_verify_error_body(""), "(empty response body)");
    assert_eq!(summarize_daily_verify_error_body("  \n "), "(empty response body)");
}

#[test]
fn a_body_that_is_no_document_is_its_own_summary() {
    assert_eq!(summarize_daily_verify_error_body("  Bad Gateway \n"), "Bad Gateway");
    assert_eq!(summarize_daily_verify_error_body("{\"error\": "), "{\"error\":");
}

#[test]
fn a_document_is_summed_up_from_its_fields() {
    let body = " {\"code\":\"P0001\",\"detail\":\" tick 12 \",\"reason\":\"REPLAY_VERIFICATION_FAILED\",\"error\":\" rejected \",\"extra\":1} ";
    assert_eq!(
        summarize_daily_verify_error_body(body),
        "rejected, reason=REPLAY_VERIFICATION_FAILED, detail=tick 12, code=P0001"
    );
    assert_eq!(summarize_daily_verify_error_body("{\"reason\":\"late\"}"), "reason=late");
    assert_eq!(
        summarize_daily_verify_error_body("{\"error\":\"e\",\"code\":\"c\"}"),
        "e, code=c"
    );
}

#[test]
fn fields_that_say_nothing_are_passed_over() {
    assert_eq!(
        summarize_daily_verify_error_body("{\"error\":\"  \",\"reason\":7,\"detail\":null,\"code\":[\"x\"]}"),
        "{\"error\":\"  \",\"reason\":7,\"detail\":null,\"code\":[\"x\"]}"
    );
    assert_eq!(summarize_daily_verify_error_body("[\"error\"]"), "[\"error\"]");
    assert_eq!(summarize_daily_verify_error_body("\"error\""), "\"error\"");
    assert_eq!(summarize_daily_verify_error_body("{}"), "{}");
}

#[test]
fn the_summary_is_made_from_the_four_fields() {
    assert_eq!(summarize_error_fields("body", None, None, None, None), "body");
    assert_eq!(summarize_error_fields("body", text(" "), text(""), None, None), "body");
    assert_eq!(summarize_error_fields("body", text(" e "), None, None, None), "e");
    assert_eq!(summarize_error_fields("body", None, None, None, text("c")), "code=c");
    assert_eq!(
        summarize_error_fields("body", text("e"), text("r"), text("d"), text("c")),
        "e, reason=r, detail=d, code=c"
    );
    assert_eq!(summarize_error_fields("body", None, text("r"), None, text("c")), "reason=r, code=c");
}

#[test]
fn hints_go_by_the_first_code_found() {
    assert_eq!(
        daily_verify_error_hint("reason=REPLAY_VERIFICATION_FAILED"),
        Some("Replay proof mismatch. Check function logs for reason/expected/actual.")
    );
    assert_eq!(
        daily_verify_error_hint("x CHALLENGE_KEY_MISMATCH y"),
        Some("The UTC day changed during the run. Start a new Daily Challenge attempt.")
    );
    assert_eq!(
        daily_verify_error_hint("INVALID_ATTEMPT_TOKEN"),
        Some("The attempt token is stale. Start a new Daily Challenge attempt.")
    );
    assert_eq!(
        daily_verify_error_hint("MISSING_SUPABASE_ENV"),
        Some("Set SUPABASE_SERVICE_ROLE_KEY in Edge Function secrets.")
    );
    assert_eq!(
        daily_verify_error_hint("RPC_SUBMIT_GLOBAL_SCORE_FAILED"),
        Some("Check submit_global_score RPC and service_role execute grant in schema.")
    );
    assert_eq!(
        daily_verify_error_hint("permission denied for function"),
        Some("Grant execute on submit_daily_score/submit_global_score to service_role and redeploy schema.")
    );
    assert_eq!(
        daily_verify_error_hint("permission denied, INVALID_ATTEMPT_TOKEN, CHALLENGE_KEY_MISMATCH"),
        Some("The UTC day changed during the run. Start a new Daily Challenge attempt.")
    );
    assert_eq!(daily_verify_error_hint("replay_verification_failed"), None);
    assert_eq!(daily_verify_error_hint("Permission Denied"), None);
    assert_eq!(daily_verify_error_hint(""), None);
}

#[test]
fn the_text_of_a_failed_verification() {
    assert_eq!(
        verify_failure_message(true, "400 Bad Request", "{\"reason\":\"INVALID_ATTEMPT_TOKEN\"}"),
        "supabase daily replay verify failed with 400 Bad Request: reason=INVALID_ATTEMPT_TOKEN\nHint: The attempt token is stale. Start a new Daily Challenge attempt.\nEnsure /supabase/schema.sql and /supabase/functions/verify-score are deployed."
    );
    assert_eq!(
        verify_failure_message(false, "500", ""),
        "supabase global replay verify failed with 500: (empty response body)\nEnsure /supabase/schema.sql and /supabase/functions/verify-score are deployed."
    );
    assert_eq!(
        verify_failure_from_summary("opening ", "404", "nothing"),
        "opening 404: nothing\nEnsure /supabase/schema.sql and /supabase/functions/verify-score are deployed."
    );
}

#[test]
fn the_texts_of_other_failures() {
    assert_eq!(
        request_failure_message("supabase request", "503 Service Unavailable", "down"),
        "supabase request failed with 503 Service Unavailable: down"
    );
    assert_eq!(
        rpc_failure_message("supabase daily start", "404", "", "start_daily_attempt"),
        "supabase daily start failed with 404: \nEnsure /supabase/schema.sql has been applied (including RPC start_daily_attempt)."
    );
}
