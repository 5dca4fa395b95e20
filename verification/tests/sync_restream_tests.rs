//! Tests of synced-value ingestion, decided-value retrieval and proposal
//! restreaming.

use reth_malachite::codec::encode_value;
use reth_malachite::handler::{handle_event, AppEvent, HandlerReply};
use reth_malachite::state::AppState;
use reth_malachite::types::{
    Address, Certificate, Role, Round, ValidatorInfo, ValidatorSet, Validity, Value,
};

fn addr(n: u8) -> Address {
    Address::new([n; 20])
}

fn vset(seed: u8) -> ValidatorSet {
    ValidatorSet {
        validators: vec![ValidatorInfo { address: addr(seed), power: 100, public_key: vec![seed; 32] }],
    }
}

fn fresh_state() -> AppState {
    AppState::new(addr(9), vset(1), 4)
}

#[test]
fn synced_value_is_stored_valid_with_no_valid_round() {
    let mut state = fresh_state();
    let v = Value { id: 31, payload: vec![4, 5, 6] };
    let bytes = encode_value(&v);
    let out = handle_event(
        &mut state,
        AppEvent::ProcessSyncedValue {
            height: 7,
            round: Round::At(1),
            proposer: addr(2),
            value_bytes: bytes,
        },
    );
    match out.reply {
        HandlerReply::SyncedValue { value } => {
            let pv = value.expect("decodable bytes are stored and replied");
            assert_eq!(pv.height, 7);
            assert_eq!(pv.round, Round::At(1));
            assert_eq!(pv.valid_round, Round::Nil);
            assert_eq!(pv.proposer, addr(2));
            assert_eq!(pv.value, v);
            assert_eq!(pv.validity, Validity::Valid);
        }
        _ => panic!("expected a synced value reply"),
    }
    assert_eq!(state.proposals.len(), 1);
}

#[test]
fn undecodable_synced_bytes_change_nothing() {
    let mut state = fresh_state();
    let out = handle_event(
        &mut state,
        AppEvent::ProcessSyncedValue {
            height: 7,
            round: Round::At(1),
            proposer: addr(2),
            value_bytes: vec![1, 2, 3],
        },
    );
    match out.reply {
        HandlerReply::SyncedValue { value } => assert!(value.is_none()),
        _ => panic!("expected a synced value reply"),
    }
    assert_eq!(state.proposals.len(), 0);
    assert_eq!(state.height, 0);
    assert_eq!(state.decided.len(), 0);
}

#[test]
fn decided_value_is_returned_with_encoded_bytes() {
    let mut state = fresh_state();
    state.provide_block_payload(3, Round::At(0), vec![8, 9]);
    handle_event(
        &mut state,
        AppEvent::StartedRound { height: 3, round: Round::At(0), proposer: addr(9), role: Role::Proposer },
    );
    let out = handle_event(&mut state, AppEvent::GetValue { height: 3, round: Round::At(0), timeout_ms: 0 });
    let built = match out.reply {
        HandlerReply::ProposedValueReply { value } => value,
        _ => panic!("expected a proposed value reply"),
    };
    let cert = Certificate { height: 3, round: Round::At(0), value_id: built.value.id, commit_proof: vec![1] };
    handle_event(&mut state, AppEvent::Decided { certificate: cert.clone() });
    let out = handle_event(&mut state, AppEvent::GetDecidedValue { height: 3 });
    match out.reply {
        HandlerReply::DecidedValueReply { value } => {
            let raw = value.expect("the committed height is retained");
            assert_eq!(raw.certificate, cert);
            assert_eq!(raw.value_bytes, encode_value(&built.value));
        }
        _ => panic!("expected a decided value reply"),
    }
    let out = handle_event(&mut state, AppEvent::GetDecidedValue { height: 99 });
    match out.reply {
        HandlerReply::DecidedValueReply { value } => assert!(value.is_none()),
        _ => panic!("expected a decided value reply"),
    }
}

#[test]
fn restream_repeats_original_parts_for_stored_round() {
    let mut state = fresh_state();
    state.provide_block_payload(5, Round::At(2), vec![1, 2, 3, 4, 5, 6, 7, 8, 9]);
    handle_event(
        &mut state,
        AppEvent::StartedRound { height: 5, round: Round::At(2), proposer: addr(9), role: Role::Proposer },
    );
    let out = handle_event(&mut state, AppEvent::GetValue { height: 5, round: Round::At(2), timeout_ms: 0 });
    let (built, original_parts) = match out.reply {
        HandlerReply::ProposedValueReply { value } => (value, out.parts),
        _ => panic!("expected a proposed value reply"),
    };
    assert!(original_parts.len() > 1);
    // The proposal was stored under round 2; a restream with no valid round
    // looks it up under the event round and repeats the same parts in order.
    let out = handle_event(
        &mut state,
        AppEvent::RestreamProposal {
            height: 5,
            round: Round::At(2),
            valid_round: Round::Nil,
            value_id: built.value.id,
        },
    );
    assert!(matches!(out.reply, HandlerReply::NoReply));
    assert_eq!(out.parts, original_parts);
}

#[test]
fn restream_of_unknown_proposal_streams_nothing() {
    let mut state = fresh_state();
    let out = handle_event(
        &mut state,
        AppEvent::RestreamProposal {
            height: 5,
            round: Round::At(2),
            valid_round: Round::Nil,
            value_id: 123,
        },
    );
    assert!(matches!(out.reply, HandlerReply::NoReply));
    assert!(out.parts.is_empty());
}

#[test]
fn received_parts_materialize_a_valid_proposal() {
    let mut state = fresh_state();
    let v = Value { id: 77, payload: vec![3; 10] };
    let bytes = encode_value(&v);
    let parts = reth_malachite::codec::split_into_parts(
        4,
        Round::At(0),
        Round::Nil,
        &addr(3),
        &bytes,
        4,
    );
    let mut materialized = None;
    for p in parts {
        let last = p.last;
        let out = handle_event(
            &mut state,
            AppEvent::ReceivedProposalPart { from: addr(3), part: p },
        );
        match out.reply {
            HandlerReply::PartResult { value } => {
                if last {
                    materialized = value;
                } else {
                    assert!(value.is_none());
                }
            }
            _ => panic!("expected a part result reply"),
        }
    }
    let pv = materialized.expect("the terminal part materializes the value");
    assert_eq!(pv.height, 4);
    assert_eq!(pv.round, Round::At(0));
    assert_eq!(pv.proposer, addr(3));
    assert_eq!(pv.value, v);
    assert_eq!(pv.validity, Validity::Valid);
    assert_eq!(state.proposals.len(), 1);
}

#[test]
fn received_stream_too_short_to_decode_replies_none() {
    let mut state = fresh_state();
    // A complete but undecodable stream: fewer than eight bytes in all.
    let parts = reth_malachite::codec::split_into_parts(
        4,
        Round::At(0),
        Round::Nil,
        &addr(3),
        &vec![1, 2, 3],
        4,
    );
    assert_eq!(parts.len(), 1);
    let out = handle_event(
        &mut state,
        AppEvent::ReceivedProposalPart { from: addr(3), part: parts.into_iter().next().unwrap() },
    );
    match out.reply {
        HandlerReply::PartResult { value } => assert!(value.is_none()),
        _ => panic!("expected a part result reply"),
    }
    assert_eq!(state.proposals.len(), 0);
}
