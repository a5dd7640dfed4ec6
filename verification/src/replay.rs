//! The replay proof validator: the local screening of a recorded run before
//! its score is sent on. Passing it is necessary for a score to be trusted, not
//! sufficient: the registry replays the run itself.

use vstd::prelude::*;
use crate::errors::{ReplayRejection, ValidationError};
use crate::text::{ascii_lowercase, ascii_lowered, same_text, trim, trimmed};

verus! {

/// The only proof version that is understood.
pub const REPLAY_VERSION: i64 = 1;

/// The most input events kept of a replay; later ones are dropped.
pub const MAX_DAILY_REPLAY_EVENTS: usize = 20_000;

/// The latest final time a replay may declare.
pub const MAX_DAILY_REPLAY_FINAL_TIME: i64 = 2_000_000;

/// One recorded input: a move made at a time.
#[derive(Debug, Clone, PartialEq, Eq)]
pub struct ReplayInputEvent {
    pub time: i64,
    pub move_dir: String,
}

/// A recorded run with the outcome it declares.
#[derive(Debug, Clone, PartialEq, Eq)]
pub struct DailyReplayProof {
    pub version: i64,
    pub difficulty: i64,
    pub seed: u32,
    pub final_time: i64,
    pub final_score: i64,
    pub final_level: i64,
    pub inputs: Vec<ReplayInputEvent>,
}

/// The model of a [`ReplayInputEvent`].
pub struct ReplayEventView {
    pub time: int,
    pub move_dir: Seq<char>,
}

/// The model of a [`DailyReplayProof`].
pub struct ReplayProofView {
    pub version: int,
    pub difficulty: int,
    pub seed: int,
    pub final_time: int,
    pub final_score: int,
    pub final_level: int,
    pub inputs: Seq<ReplayEventView>,
}

impl View for ReplayInputEvent {
    type V = ReplayEventView;

    open spec fn view(&self) -> ReplayEventView {
        ReplayEventView { time: self.time as int, move_dir: self.move_dir@ }
    }
}

/// The models of a list of events, in order.
pub open spec fn event_views(events: Seq<ReplayInputEvent>) -> Seq<ReplayEventView> {
    Seq::new(events.len(), |i: int| events[i]@)
}

impl View for DailyReplayProof {
    type V = ReplayProofView;

    open spec fn view(&self) -> ReplayProofView {
        ReplayProofView {
            version: self.version as int,
            difficulty: self.difficulty as int,
            seed: self.seed as int,
            final_time: self.final_time as int,
            final_score: self.final_score as int,
            final_level: self.final_level as int,
            inputs: event_views(self.inputs@),
        }
    }
}

/// A move as it is kept: trimmed and in ASCII lower case.
pub open spec fn normalized_move(move_dir: Seq<char>) -> Seq<char> {
    ascii_lowered(trimmed(move_dir))
}

/// Whether a normalized move is one of the four directions.
pub open spec fn is_direction(move_dir: Seq<char>) -> bool {
    move_dir == "left"@ || move_dir == "right"@ || move_dir == "up"@ || move_dir == "down"@
}

/// Whether the time of input `i` is at least zero and no earlier than that of
/// the input before it.
pub open spec fn time_in_order(inputs: Seq<ReplayEventView>, i: int) -> bool {
    inputs[i].time >= 0 && (i > 0 ==> inputs[i].time >= inputs[i - 1].time)
}

/// What is wrong with input `i` taken by itself and with its predecessor: its
/// time is looked at first, then its move.
pub open spec fn input_rejection(inputs: Seq<ReplayEventView>, i: int) -> Option<ReplayRejection> {
    if !time_in_order(inputs, i) {
        Some(ReplayRejection::NonMonotonicReplay)
    } else if !is_direction(normalized_move(inputs[i].move_dir)) {
        Some(ReplayRejection::InvalidMoveToken)
    } else {
        None
    }
}

/// What is wrong with the first input, among the first `n`, that anything is
/// wrong with.
pub open spec fn first_input_rejection(inputs: Seq<ReplayEventView>, n: int) -> Option<
    ReplayRejection,
>
    decreases n,
{
    if n <= 0 {
        None
    } else {
        match first_input_rejection(inputs, n - 1) {
            Some(rejection) => Some(rejection),
            None => input_rejection(inputs, n - 1),
        }
    }
}

/// The number of inputs that are kept.
pub open spec fn retained_inputs(proof: ReplayProofView) -> int {
    if proof.inputs.len() <= MAX_DAILY_REPLAY_EVENTS {
        proof.inputs.len() as int
    } else {
        MAX_DAILY_REPLAY_EVENTS as int
    }
}

/// The first rule that a proof breaks, the rules taken in their order: the
/// version, the difficulty, the sign of the final values, the limit on the
/// final time, the kept inputs one by one, and last the final time against the
/// last kept input. `None` for a proof that breaks none.
pub open spec fn replay_rejection(proof: ReplayProofView) -> Option<ReplayRejection> {
    let n = retained_inputs(proof);
    if proof.version != REPLAY_VERSION {
        Some(ReplayRejection::UnsupportedVersion)
    } else if proof.difficulty != 1 && proof.difficulty != 2 && proof.difficulty != 3 {
        Some(ReplayRejection::InvalidDifficulty)
    } else if proof.final_time < 0 || proof.final_score < 0 || proof.final_level < 0 {
        Some(ReplayRejection::NegativeFinalValue)
    } else if proof.final_time > MAX_DAILY_REPLAY_FINAL_TIME {
        Some(ReplayRejection::FinalTimeTooLarge)
    } else if first_input_rejection(proof.inputs, n) is Some {
        first_input_rejection(proof.inputs, n)
    } else if n > 0 && proof.inputs[n - 1].time > proof.final_time {
        Some(ReplayRejection::ReplayExceedsFinalTime)
    } else {
        None
    }
}

/// The kept form of an accepted proof: the kept inputs with their moves
/// normalized, everything else as it was declared.
pub open spec fn sanitized_proof(proof: ReplayProofView) -> ReplayProofView {
    ReplayProofView {
        version: REPLAY_VERSION as int,
        difficulty: proof.difficulty,
        seed: proof.seed,
        final_time: proof.final_time,
        final_score: proof.final_score,
        final_level: proof.final_level,
        inputs: Seq::new(
            retained_inputs(proof) as nat,
            |i: int|
                ReplayEventView {
                    time: proof.inputs[i].time,
                    move_dir: normalized_move(proof.inputs[i].move_dir),
                },
        ),
    }
}

/// What every accepted proof has: version 1, a difficulty of 1 to 3, final
/// values of at least zero, a final time within the limit, at most twenty
/// thousand inputs, their times at least zero, in order and no later than the
/// final time, and their moves among the four directions.
pub open spec fn well_formed_proof(proof: ReplayProofView) -> bool {
    &&& proof.version == REPLAY_VERSION
    &&& 1 <= proof.difficulty <= 3
    &&& 0 <= proof.final_time <= MAX_DAILY_REPLAY_FINAL_TIME
    &&& 0 <= proof.final_score
    &&& 0 <= proof.final_level
    &&& proof.inputs.len() <= MAX_DAILY_REPLAY_EVENTS
    &&& forall|i: int| 0 <= i < proof.inputs.len() ==> 0 <= (#[trigger] proof.inputs[i]).time <= proof.final_time
    &&& forall|i: int, j: int|
        0 <= i <= j < proof.inputs.len() ==> proof.inputs[i].time <= proof.inputs[j].time
    &&& forall|i: int| 0 <= i < proof.inputs.len() ==> is_direction((#[trigger] proof.inputs[i]).move_dir)
}

/// Normalizes a move and tells whether it is one of the four directions.
pub fn normalize_move(move_dir: &str) -> (r: (String, bool))
    ensures
        r.0@ == normalized_move(move_dir@),
        r.1 == is_direction(r.0@),
{
    let normalized = ascii_lowercase(trim(move_dir));
    let known = same_text(normalized.as_str(), "left") || same_text(normalized.as_str(), "right")
        || same_text(normalized.as_str(), "up") || same_text(normalized.as_str(), "down");
    (normalized, known)
}

/// Screens a replay proof. An accepted proof comes back with its inputs cut to
/// the first twenty thousand and their moves normalized; a rejected one gives
/// the first rule it breaks.
pub fn sanitize_daily_replay_proof(proof: DailyReplayProof) -> (r: Result<
    DailyReplayProof,
    ValidationError,
>)
    ensures
        match r {
            Ok(clean) => replay_rejection(proof@) is None && clean@ == sanitized_proof(proof@)
                && well_formed_proof(clean@),
            Err(error) => replay_rejection(proof@) is Some && error
                == ValidationError::InvalidReplayProof(replay_rejection(proof@)->Some_0),
        },
{
    if proof.version != REPLAY_VERSION {
        return Err(ValidationError::InvalidReplayProof(ReplayRejection::UnsupportedVersion));
    }
    if proof.difficulty != 1 && proof.difficulty != 2 && proof.difficulty != 3 {
        return Err(ValidationError::InvalidReplayProof(ReplayRejection::InvalidDifficulty));
    }
    if proof.final_time < 0 || proof.final_score < 0 || proof.final_level < 0 {
        return Err(ValidationError::InvalidReplayProof(ReplayRejection::NegativeFinalValue));
    }
    if proof.final_time > MAX_DAILY_REPLAY_FINAL_TIME {
        return Err(ValidationError::InvalidReplayProof(ReplayRejection::FinalTimeTooLarge));
    }
    let kept = if proof.inputs.len() > MAX_DAILY_REPLAY_EVENTS {
        MAX_DAILY_REPLAY_EVENTS
    } else {
        proof.inputs.len()
    };
    let ghost raw = proof@.inputs;
    let mut inputs: Vec<ReplayInputEvent> = Vec::new();
    let mut last_time: i64 = -1;
    let mut i: usize = 0;
    while i < kept
        invariant
            i <= kept,
            kept == retained_inputs(proof@),
            kept <= proof.inputs@.len(),
            raw == proof@.inputs,
            proof.version == REPLAY_VERSION,
            1 <= proof.difficulty <= 3,
            0 <= proof.final_time <= MAX_DAILY_REPLAY_FINAL_TIME,
            0 <= proof.final_score,
            0 <= proof.final_level,
            first_input_rejection(raw, i as int) is None,
            last_time == (if i == 0 { -1 } else { raw[i as int - 1].time }),
            inputs@.len() == i,
            forall|k: int|
                0 <= k < i ==> (#[trigger] inputs@[k])@ == sanitized_proof(proof@).inputs[k],
        decreases kept - i,
    {
        let event = &proof.inputs[i];
        proof {
            assert(raw[i as int] == event@);
        }
        if event.time < 0 || event.time < last_time {
            proof {
                lemma_first_rejection_decides(raw, i as int, kept as int);
            }
            return Err(ValidationError::InvalidReplayProof(ReplayRejection::NonMonotonicReplay));
        }
        let (move_dir, known) = normalize_move(event.move_dir.as_str());
        if !known {
            proof {
                lemma_first_rejection_decides(raw, i as int, kept as int);
            }
            return Err(ValidationError::InvalidReplayProof(ReplayRejection::InvalidMoveToken));
        }
        inputs.push(ReplayInputEvent { time: event.time, move_dir });
        last_time = event.time;
        i = i + 1;
    }
    if kept > 0 && last_time > proof.final_time {
        return Err(ValidationError::InvalidReplayProof(ReplayRejection::ReplayExceedsFinalTime));
    }
    let clean = DailyReplayProof {
        version: REPLAY_VERSION,
        difficulty: proof.difficulty,
        seed: proof.seed,
        final_time: proof.final_time,
        final_score: proof.final_score,
        final_level: proof.final_level,
        inputs,
    };
    proof {
        assert(clean@.inputs =~= sanitized_proof(proof@).inputs);
        lemma_accepted_proof_is_well_formed(proof@);
    }
    Ok(clean)
}

/// While no input among the first `n` is rejected, each of them is in order
/// and has a known move.
pub proof fn lemma_accepted_inputs(inputs: Seq<ReplayEventView>, n: int)
    requires
        first_input_rejection(inputs, n) is None,
    ensures
        forall|i: int| 0 <= i < n ==> input_rejection(inputs, i) is None,
        forall|i: int, j: int|
            #![trigger inputs[i], inputs[j]]
            0 <= i <= j < n ==> 0 <= inputs[i].time && inputs[i].time <= inputs[j].time,
    decreases n,
{
    if n > 0 {
        lemma_accepted_inputs(inputs, n - 1);
        assert(input_rejection(inputs, n - 1) is None);
    }
}

/// The first rejected input decides: an input that is rejected, with none
/// rejected before it, gives the rejection of any longer run of inputs.
pub proof fn lemma_first_rejection_decides(inputs: Seq<ReplayEventView>, i: int, n: int)
    requires
        0 <= i < n,
        first_input_rejection(inputs, i) is None,
        input_rejection(inputs, i) is Some,
    ensures
        first_input_rejection(inputs, n) == input_rejection(inputs, i),
    decreases n,
{
    if n > i + 1 {
        lemma_first_rejection_decides(inputs, i, n - 1);
    }
}

/// A proof of any version but 1 is rejected for its version, whatever else it
/// holds.
pub proof fn lemma_wrong_version_is_rejected(proof: ReplayProofView)
    requires
        proof.version != REPLAY_VERSION,
    ensures
        replay_rejection(proof) == Some(ReplayRejection::UnsupportedVersion),
{
}

/// A proof whose final time is above the limit is rejected.
pub proof fn lemma_late_final_time_is_rejected(proof: ReplayProofView)
    requires
        proof.final_time > MAX_DAILY_REPLAY_FINAL_TIME,
    ensures
        replay_rejection(proof) is Some,
{
}

/// A proof with a kept input that is earlier than the input before it is
/// rejected.
pub proof fn lemma_unordered_inputs_are_rejected(proof: ReplayProofView, i: int)
    requires
        0 < i < retained_inputs(proof),
        proof.inputs[i].time < proof.inputs[i - 1].time,
    ensures
        replay_rejection(proof) is Some,
{
    if first_input_rejection(proof.inputs, retained_inputs(proof)) is None {
        lemma_accepted_inputs(proof.inputs, retained_inputs(proof));
        assert(input_rejection(proof.inputs, i) is None);
    }
}

/// A proof with a kept input that is later than its final time is rejected.
pub proof fn lemma_input_after_final_time_is_rejected(proof: ReplayProofView, i: int)
    requires
        0 <= i < retained_inputs(proof),
        proof.inputs[i].time > proof.final_time,
    ensures
        replay_rejection(proof) is Some,
{
    let n = retained_inputs(proof);
    if first_input_rejection(proof.inputs, n) is None {
        lemma_accepted_inputs(proof.inputs, n);
        assert(proof.inputs[i].time <= proof.inputs[n - 1].time);
    }
}

/// Every accepted proof is well formed in its kept form.
pub proof fn lemma_accepted_proof_is_well_formed(proof: ReplayProofView)
    requires
        replay_rejection(proof) is None,
    ensures
        well_formed_proof(sanitized_proof(proof)),
{
    let n = retained_inputs(proof);
    lemma_accepted_inputs(proof.inputs, n);
    let clean = sanitized_proof(proof);
    assert forall|i: int| 0 <= i < clean.inputs.len() implies 0 <= (#[trigger] clean.inputs[i]).time
        <= clean.final_time by {
        assert(proof.inputs[i].time <= proof.inputs[n - 1].time);
    }
    assert forall|i: int| 0 <= i < clean.inputs.len() implies is_direction(
        (#[trigger] clean.inputs[i]).move_dir,
    ) by {
        assert(input_rejection(proof.inputs, i) is None);
    }
}

} // verus!
