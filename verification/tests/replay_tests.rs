use scoreboard::errors::{ReplayRejection, ValidationError};
use scoreboard::replay::{
    normalize_move, sanitize_daily_replay_proof, DailyReplayProof, ReplayInputEvent,
};

fn event(time: i64, move_dir: &str) -> ReplayInputEvent {
    ReplayInputEvent { time, move_dir: move_dir.to_string() }
}

fn proof_with(inputs: Vec<ReplayInputEvent>) -> DailyReplayProof {
    DailyReplayProof {
        version: 1,
        difficulty: 2,
        seed: 77,
        final_time: 1000,
        final_score: 40,
        final_level: 3,
        inputs,
    }
}

fn rejected(proof: DailyReplayProof) -> ReplayRejection {
    match sanitize_daily_replay_proof(proof) {
        Err(ValidationError::InvalidReplayProof(reason)) => reason,
        other => panic!("expected a rejection, got {other:?}"),
    }
}

#[test]
fn a_version_other_than_one_is_rejected() {
    for version in [0, 2, -1, i64::MAX] {
        let mut proof = proof_with(vec![]);
        proof.version = version;
        assert_eq!(rejected(proof), ReplayRejection::UnsupportedVersion);
    }
}

#[test]
fn the_version_is_looked_at_first() {
    let mut proof = proof_with(vec![event(5, "left"), event(3, "nowhere")]);
    proof.version = 2;
    proof.difficulty = 9;
    proof.final_time = -1;
    assert_eq!(rejected(proof), ReplayRejection::UnsupportedVersion);
}

#[test]
fn a_difficulty_outside_one_to_three_is_rejected() {
    for difficulty in [0, 4, -1] {
        let mut proof = proof_with(vec![]);
        proof.difficulty = difficulty;
        assert_eq!(rejected(proof), ReplayRejection::InvalidDifficulty);
    }
    for difficulty in [1, 2, 3] {
        let mut proof = proof_with(vec![]);
        proof.difficulty = difficulty;
        assert!(sanitize_daily_replay_proof(proof).is_ok());
    }
}

#[test]
fn negative_final_values_are_rejected() {
    let mut proof = proof_with(vec![]);
    proof.final_time = -1;
    assert_eq!(rejected(proof), ReplayRejection::NegativeFinalValue);
    let mut proof = proof_with(vec![]);
    proof.final_score = -1;
    assert_eq!(rejected(proof), ReplayRejection::NegativeFinalValue);
    let mut proof = proof_with(vec![]);
    proof.final_level = -1;
    assert_eq!(rejected(proof), ReplayRejection::NegativeFinalValue);
}

#[test]
fn a_final_time_above_the_limit_is_rejected() {
    let mut proof = proof_with(vec![]);
    proof.final_time = 2_000_001;
    assert_eq!(rejected(proof), ReplayRejection::FinalTimeTooLarge);
    let mut proof = proof_with(vec![]);
    proof.final_time = 2_000_000;
    assert!(sanitize_daily_replay_proof(proof).is_ok());
}

#[test]
fn inputs_out_of_order_are_rejected() {
    assert_eq!(
        rejected(proof_with(vec![event(5, "left"), event(3, "left")])),
        ReplayRejection::NonMonotonicReplay
    );
}

#[test]
fn an_input_before_time_zero_is_rejected() {
    assert_eq!(rejected(proof_with(vec![event(-1, "left")])), ReplayRejection::NonMonotonicReplay);
}

#[test]
fn inputs_at_the_same_time_are_accepted() {
    let clean = sanitize_daily_replay_proof(proof_with(vec![
        event(0, "up"),
        event(0, "down"),
        event(7, "left"),
        event(7, "right"),
    ]))
    .unwrap();
    assert_eq!(clean.inputs.len(), 4);
}

#[test]
fn an_upper_case_move_is_accepted_and_lowered() {
    let clean = sanitize_daily_replay_proof(proof_with(vec![event(1, "LEFT"), event(2, "  Right ")]))
        .unwrap();
    assert_eq!(clean.inputs, vec![event(1, "left"), event(2, "right")]);
}

#[test]
fn an_unknown_move_is_rejected() {
    for bad in ["", "jump", "lef t", "north", "leftt", "ʟeft"] {
        assert_eq!(
            rejected(proof_with(vec![event(1, "up"), event(2, bad)])),
            ReplayRejection::InvalidMoveToken
        );
    }
}

#[test]
fn the_first_bad_input_decides() {
    assert_eq!(
        rejected(proof_with(vec![event(5, "jump"), event(3, "left")])),
        ReplayRejection::InvalidMoveToken
    );
    assert_eq!(
        rejected(proof_with(vec![event(5, "left"), event(3, "jump")])),
        ReplayRejection::NonMonotonicReplay
    );
}

#[test]
fn an_input_after_the_final_time_is_rejected() {
    assert_eq!(
        rejected(proof_with(vec![event(1, "left"), event(1001, "left")])),
        ReplayRejection::ReplayExceedsFinalTime
    );
    assert!(sanitize_daily_replay_proof(proof_with(vec![event(1000, "left")])).is_ok());
}

#[test]
fn inputs_beyond_twenty_thousand_are_dropped_in_silence() {
    let mut inputs: Vec<ReplayInputEvent> = (0..20_000).map(|_| event(10, "up")).collect();
    inputs.push(event(5, "nowhere"));
    inputs.push(event(5_000_000, "left"));
    let clean = sanitize_daily_replay_proof(proof_with(inputs)).unwrap();
    assert_eq!(clean.inputs.len(), 20_000);
    assert!(clean.inputs.iter().all(|input| input.time == 10 && input.move_dir == "up"));
}

#[test]
fn an_accepted_proof_keeps_what_it_declares() {
    let mut proof = proof_with(vec![event(3, "Down")]);
    proof.seed = u32::MAX;
    proof.difficulty = 3;
    let clean = sanitize_daily_replay_proof(proof).unwrap();
    assert_eq!(
        clean,
        DailyReplayProof {
            version: 1,
            difficulty: 3,
            seed: u32::MAX,
            final_time: 1000,
            final_score: 40,
            final_level: 3,
            inputs: vec![event(3, "down")],
        }
    );
}

#[test]
fn moves_are_normalized() {
    assert_eq!(normalize_move(" UP\n"), ("up".to_string(), true));
    assert_eq!(normalize_move("Down"), ("down".to_string(), true));
    assert_eq!(normalize_move("ÉAST"), ("Éast".to_string(), false));
    assert_eq!(normalize_move(""), (String::new(), false));
}
