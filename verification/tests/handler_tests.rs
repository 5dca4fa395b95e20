//! Tests of the event handler: round lifecycle, value dedup, commit and
//! restreaming behavior.

use reth_malachite::handler::{handle_event, AppEvent, HandlerReply};
use reth_malachite::state::AppState;
use reth_malachite::types::{
    Address, Certificate, ProposedValue, Role, Round, ValidatorInfo, ValidatorSet, Validity,
};

fn addr(n: u8) -> Address {
    Address::new([n; 20])
}

fn vset(seed: u8) -> ValidatorSet {
    ValidatorSet {
        validators: vec![ValidatorInfo { address: addr(seed), power: 100, public_key: vec![seed; 32] }],
    }
}

fn fresh_state() -> AppState {
    AppState::new(addr(9), vset(1), 4)
}

fn start_round(state: &mut AppState, h: u64, r: u32, proposer: Address, role: Role) {
    let out = handle_event(
        state,
        AppEvent::StartedRound { height: h, round: Round::At(r), proposer, role },
    );
    assert!(matches!(out.reply, HandlerReply::PendingProposals { .. }));
    assert!(out.parts.is_empty());
}

fn get_value(state: &mut AppState, h: u64, r: u32) -> (ProposedValue, usize) {
    let out = handle_event(
        state,
        AppEvent::GetValue { height: h, round: Round::At(r), timeout_ms: 1000 },
    );
    match out.reply {
        HandlerReply::ProposedValueReply { value } => (value, out.parts.len()),
        _ => panic!("expected a proposed value reply"),
    }
}

#[test]
fn consensus_ready_reports_height_and_validators() {
    let mut state = fresh_state();
    let out = handle_event(&mut state, AppEvent::ConsensusReady);
    match out.reply {
        HandlerReply::Ready { height, validator_set } => {
            assert_eq!(height, 0);
            assert_eq!(validator_set, vset(1));
        }
        _ => panic!("expected the ready reply"),
    }
}

#[test]
fn started_round_sets_all_fields_each_time() {
    let mut state = fresh_state();
    start_round(&mut state, 3, 1, addr(5), Role::Validator);
    assert_eq!(state.height, 3);
    assert_eq!(state.round, Round::At(1));
    assert_eq!(state.proposer, Some(addr(5)));
    assert_eq!(state.role, Role::Validator);
    // A second started round overwrites every field: nothing stale survives.
    start_round(&mut state, 4, 0, addr(6), Role::Proposer);
    assert_eq!(state.height, 4);
    assert_eq!(state.round, Round::At(0));
    assert_eq!(state.proposer, Some(addr(6)));
    assert_eq!(state.role, Role::Proposer);
}

#[test]
fn started_round_reports_stored_proposals_for_the_pair() {
    let mut state = fresh_state();
    state.provide_block_payload(2, Round::At(0), vec![7, 7]);
    start_round(&mut state, 2, 0, addr(9), Role::Proposer);
    let (v, _) = get_value(&mut state, 2, 0);
    let out = handle_event(
        &mut state,
        AppEvent::StartedRound { height: 2, round: Round::At(0), proposer: addr(9), role: Role::Proposer },
    );
    match out.reply {
        HandlerReply::PendingProposals { proposals } => {
            assert_eq!(proposals.len(), 1);
            assert_eq!(proposals[0], v);
        }
        _ => panic!("expected pending proposals"),
    }
}

#[test]
fn get_value_is_idempotent_before_decision() {
    let mut state = fresh_state();
    state.provide_block_payload(1, Round::At(0), vec![1, 2, 3]);
    start_round(&mut state, 1, 0, addr(9), Role::Proposer);
    let (v1, parts1) = get_value(&mut state, 1, 0);
    let (v2, parts2) = get_value(&mut state, 1, 0);
    assert_eq!(v1, v2);
    // A fresh build streams its parts; the cached reuse streams nothing.
    assert!(parts1 > 0);
    assert_eq!(parts2, 0);
}

#[test]
fn get_value_reuses_cache_even_after_a_decision_elsewhere() {
    let mut state = fresh_state();
    state.provide_block_payload(1, Round::At(0), vec![1, 2, 3]);
    start_round(&mut state, 1, 0, addr(9), Role::Proposer);
    let (v1, _) = get_value(&mut state, 1, 0);
    // A decision whose certificate names a different round still commits the
    // cached value; the cache keyed by (height, round) stays unconsumed.
    let cert = Certificate {
        height: 1,
        round: Round::At(5),
        value_id: v1.value.id,
        commit_proof: vec![],
    };
    handle_event(&mut state, AppEvent::Decided { certificate: cert });
    assert_eq!(state.height, 2);
    let (v3, parts3) = get_value(&mut state, 1, 0);
    assert_eq!(v3, v1);
    assert_eq!(parts3, 0);
}

#[test]
fn get_value_without_payload_concludes_with_no_reply() {
    let mut state = fresh_state();
    start_round(&mut state, 1, 0, addr(9), Role::Proposer);
    let out = handle_event(
        &mut state,
        AppEvent::GetValue { height: 1, round: Round::At(0), timeout_ms: 1000 },
    );
    assert!(matches!(out.reply, HandlerReply::NoReply));
    assert!(out.parts.is_empty());
    assert_eq!(state.proposals.len(), 0);
}

#[test]
fn scenario_get_value_twice_then_decide_advances_to_six() {
    let mut state = fresh_state();
    state.set_validator_set(5, vset(5));
    state.set_validator_set(6, vset(6));
    state.provide_block_payload(5, Round::At(0), vec![10, 20, 30]);
    start_round(&mut state, 5, 0, addr(9), Role::Proposer);
    let (v1, _) = get_value(&mut state, 5, 0);
    let (v2, _) = get_value(&mut state, 5, 0);
    assert_eq!(v1, v2);
    // The built value's identifier: height in the upper bits, round tag below.
    assert_eq!(v1.value.id, (5u64 << 16) | 0);
    assert_eq!(v1.value.payload, vec![10, 20, 30]);
    let cert = Certificate {
        height: 5,
        round: Round::At(0),
        value_id: v1.value.id,
        commit_proof: vec![0xAA],
    };
    let out = handle_event(&mut state, AppEvent::Decided { certificate: cert });
    match out.reply {
        HandlerReply::StartHeight { height, validator_set } => {
            assert_eq!(height, 6);
            assert_eq!(validator_set, vset(6));
        }
        _ => panic!("expected a start-height reply"),
    }
    assert_eq!(state.height, 6);
    // Round, proposer and role stay whatever they were until the next round.
    assert_eq!(state.round, Round::At(0));
    assert_eq!(state.proposer, Some(addr(9)));
    assert_eq!(state.role, Role::Proposer);
}

#[test]
fn decided_with_failing_commit_restarts_same_height() {
    let mut state = fresh_state();
    state.set_validator_set(5, vset(5));
    state.provide_block_payload(5, Round::At(0), vec![10]);
    start_round(&mut state, 5, 0, addr(9), Role::Proposer);
    let (_v, _) = get_value(&mut state, 5, 0);
    // A certificate referencing a value nobody stored cannot commit.
    let cert = Certificate { height: 5, round: Round::At(0), value_id: 0xFFFF, commit_proof: vec![] };
    let out = handle_event(&mut state, AppEvent::Decided { certificate: cert });
    match out.reply {
        HandlerReply::RestartHeight { height, validator_set } => {
            assert_eq!(height, 5);
            assert_eq!(validator_set, vset(5));
        }
        _ => panic!("expected a restart-height reply"),
    }
    assert_eq!(state.height, 5);
    assert_eq!(state.decided.len(), 0);
}

#[test]
fn extend_vote_and_verification_replies() {
    let mut state = fresh_state();
    let out = handle_event(&mut state, AppEvent::ExtendVote);
    assert!(matches!(out.reply, HandlerReply::NoExtension));
    let out = handle_event(&mut state, AppEvent::VerifyVoteExtension);
    assert!(matches!(out.reply, HandlerReply::ExtensionVerified));
}

#[test]
fn get_validator_set_looks_up_by_height() {
    let mut state = fresh_state();
    state.set_validator_set(8, vset(8));
    let out = handle_event(&mut state, AppEvent::GetValidatorSet { height: 8 });
    match out.reply {
        HandlerReply::ValidatorSetReply { validator_set } => {
            assert_eq!(validator_set.expect("a set is always reported"), vset(8));
        }
        _ => panic!("expected a validator set reply"),
    }
    // Heights with no entry fall back to the base set.
    let out = handle_event(&mut state, AppEvent::GetValidatorSet { height: 77 });
    match out.reply {
        HandlerReply::ValidatorSetReply { validator_set } => {
            assert_eq!(validator_set.expect("a set is always reported"), vset(1));
        }
        _ => panic!("expected a validator set reply"),
    }
}

#[test]
fn min_height_is_first_decided_or_current() {
    let mut state = fresh_state();
    start_round(&mut state, 5, 0, addr(9), Role::Proposer);
    let out = handle_event(&mut state, AppEvent::GetHistoryMinHeight);
    assert!(matches!(out.reply, HandlerReply::MinHeight { height: 5 }));
    state.provide_block_payload(5, Round::At(0), vec![1]);
    let (v, _) = get_value(&mut state, 5, 0);
    let cert = Certificate { height: 5, round: Round::At(0), value_id: v.value.id, commit_proof: vec![] };
    handle_event(&mut state, AppEvent::Decided { certificate: cert });
    start_round(&mut state, 6, 0, addr(9), Role::Proposer);
    let out = handle_event(&mut state, AppEvent::GetHistoryMinHeight);
    assert!(matches!(out.reply, HandlerReply::MinHeight { height: 5 }));
}
