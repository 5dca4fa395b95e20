//! The consensus event handler: one ordered engine event in, one state
//! transition and one reply out, plus the proposal parts to publish, in
//! order. This is the decision core of the handler loop; the loop around it
//! only performs channel I/O.

use vstd::prelude::*;
use crate::codec::{decode_model, decode_value, encode_model, encode_value, parts_models, stream_model};
use crate::state::{
    built_value, commit_idx, commit_ok, decided_idx, dvs, pending_idx, proposal_idx, proposals_at,
    pv_opt_model, pvs, received_part_rel, restream_idx, store_rel, AppState,
};
use crate::types::{
    Address, Certificate, CertificateModel, ProposalPart, ProposalPartModel,
    ProposedValue, ProposedValueModel, Role, Round, ValidatorSet, Validity,
};

verus! {

/// One event received from the consensus engine, in receipt order.
pub enum AppEvent {
    /// The engine is ready: it asks where consensus starts.
    ConsensusReady,
    /// A new round has started; the four fields are set as one group.
    StartedRound { height: u64, round: Round, proposer: Address, role: Role },
    /// The engine asks for a value to propose. The timeout is informational:
    /// the engine enforces it on its own side.
    GetValue { height: u64, round: Round, timeout_ms: u64 },
    /// The engine asks for a vote extension; none are supported.
    ExtendVote,
    /// The engine asks to verify a vote extension; all are accepted.
    VerifyVoteExtension,
    /// A proposal part arrived from a peer.
    ReceivedProposalPart { from: Address, part: ProposalPart },
    /// The engine asks for the validator set at a height.
    GetValidatorSet { height: u64 },
    /// Consensus decided: commit the certified value.
    Decided { certificate: Certificate },
    /// A value arrived from a sync source as raw bytes.
    ProcessSyncedValue { height: u64, round: Round, proposer: Address, value_bytes: Vec<u8> },
    /// The engine asks for the decided record at a height.
    GetDecidedValue { height: u64 },
    /// The engine asks for the earliest retained decided height.
    GetHistoryMinHeight,
    /// The engine asks to stream a stored proposal again.
    RestreamProposal { height: u64, round: Round, valid_round: Round, value_id: u64 },
}

/// A decided record as handed to a sync peer: the certificate and the
/// value's wire encoding.
pub struct RawDecidedValue {
    pub certificate: Certificate,
    pub value_bytes: Vec<u8>,
}

/// The reply owed to the engine for one event.
pub enum HandlerReply {
    /// Where consensus starts: current height and its validator set.
    Ready { height: u64, validator_set: ValidatorSet },
    /// Proposals already stored for the started (height, round).
    PendingProposals { proposals: Vec<ProposedValue> },
    /// The value to propose, built now or reused from the cache.
    ProposedValueReply { value: ProposedValue },
    /// No vote extension is supported.
    NoExtension,
    /// Every vote extension is accepted.
    ExtensionVerified,
    /// Outcome of feeding one received proposal part.
    PartResult { value: Option<ProposedValue> },
    /// The validator set asked for.
    ValidatorSetReply { validator_set: Option<ValidatorSet> },
    /// Move on: the next height and its validator set.
    StartHeight { height: u64, validator_set: ValidatorSet },
    /// Retry: the same height and its validator set.
    RestartHeight { height: u64, validator_set: ValidatorSet },
    /// Outcome of ingesting a synced value.
    SyncedValue { value: Option<ProposedValue> },
    /// The decided record asked for, value encoded for the wire.
    DecidedValueReply { value: Option<RawDecidedValue> },
    /// The earliest retained decided height.
    MinHeight { height: u64 },
    /// The event owes the engine no reply.
    NoReply,
}

/// Everything one event produces: the reply to send first, then the parts to
/// publish to the network, strictly in this order.
pub struct HandlerOutput {
    pub reply: HandlerReply,
    pub parts: Vec<ProposalPart>,
}

/// The proposed value carried by a reply, if the reply carries one.
pub open spec fn reply_value(out: HandlerOutput) -> Option<ProposedValueModel> {
    match out.reply {
        HandlerReply::ProposedValueReply { value } => Some(value@),
        _ => None,
    }
}

/// The keyed stores and configuration are as they were.
pub open spec fn stores_unchanged(pre: AppState, post: AppState) -> bool {
    &&& post.address == pre.address
    &&& post.part_size == pre.part_size
    &&& post.base_validators == pre.base_validators
    &&& post.schedule == pre.schedule
    &&& post.proposals == pre.proposals
    &&& post.decided == pre.decided
    &&& post.pending_blocks == pre.pending_blocks
    &&& post.streams == pre.streams
}

/// Height, round, proposer and role are as they were.
pub open spec fn round_info_unchanged(pre: AppState, post: AppState) -> bool {
    &&& post.height == pre.height
    &&& post.round == pre.round
    &&& post.proposer == pre.proposer
    &&& post.role == pre.role
}

/// Nothing in the state changed.
pub open spec fn state_unchanged(pre: AppState, post: AppState) -> bool {
    stores_unchanged(pre, post) && round_info_unchanged(pre, post)
}

/// ConsensusReady reads and replies; it changes nothing.
pub open spec fn consensus_ready_post(pre: AppState, post: AppState, out: HandlerOutput) -> bool {
    &&& state_unchanged(pre, post)
    &&& out.parts@.len() == 0
    &&& match out.reply {
        HandlerReply::Ready { height, validator_set } => height == pre.height && validator_set@
            == pre.validator_set_at(pre.height),
        _ => false,
    }
}

/// StartedRound sets the four round fields as one group — no partial or
/// stale field survives — and reports the proposals already stored for the
/// started pair.
pub open spec fn started_round_post(
    pre: AppState,
    post: AppState,
    height: u64,
    round: Round,
    proposer: Address,
    role: Role,
    out: HandlerOutput,
) -> bool {
    &&& post.height == height
    &&& post.round == round
    &&& post.proposer == Some(proposer)
    &&& post.role == role
    &&& stores_unchanged(pre, post)
    &&& out.parts@.len() == 0
    &&& match out.reply {
        HandlerReply::PendingProposals { proposals } => pvs(proposals@) == proposals_at(
            pvs(pre.proposals@),
            height,
            round,
        ),
        _ => false,
    }
}

/// GetValue replies the cached value for (h, r) if one exists, without
/// rebuilding and without streaming; otherwise it builds from the pending
/// block payload, caches the new value, replies it and streams its parts; a
/// failed build concludes the event with no reply and no change.
pub open spec fn get_value_post(
    pre: AppState,
    post: AppState,
    height: u64,
    round: Round,
    out: HandlerOutput,
) -> bool {
    let cached = proposal_idx(pvs(pre.proposals@), height, round, pre.address@);
    if cached != -1 {
        &&& state_unchanged(pre, post)
        &&& out.parts@.len() == 0
        &&& reply_value(out) == Some(pvs(pre.proposals@)[cached])
    } else {
        let t = pending_idx(pre.pending_blocks@, height, round);
        if t != -1 {
            let bv = built_value(pre, height, round, t);
            &&& round_info_unchanged(pre, post)
            &&& post.address == pre.address
            &&& post.part_size == pre.part_size
            &&& post.base_validators == pre.base_validators
            &&& post.schedule == pre.schedule
            &&& post.decided == pre.decided
            &&& post.pending_blocks == pre.pending_blocks
            &&& post.streams == pre.streams
            &&& pvs(post.proposals@) == pvs(pre.proposals@).push(bv)
            &&& reply_value(out) == Some(bv)
            &&& parts_models(out.parts@) == stream_model(
                height,
                round,
                Round::Nil,
                pre.address@,
                encode_model(bv.value),
                pre.part_size as int,
            )
        } else {
            &&& state_unchanged(pre, post)
            &&& out.parts@.len() == 0
            &&& out.reply is NoReply
        }
    }
}

/// ReceivedProposalPart feeds the reassembler and replies its outcome.
pub open spec fn received_part_post(
    pre: AppState,
    post: AppState,
    from: Seq<u8>,
    pm: ProposalPartModel,
    out: HandlerOutput,
) -> bool {
    &&& out.parts@.len() == 0
    &&& match out.reply {
        HandlerReply::PartResult { value } => received_part_rel(
            pre,
            from,
            pm,
            post,
            pv_opt_model(value),
        ),
        _ => false,
    }
}

/// Decided commits: success advances the height by exactly one, appends the
/// decided record and asks the engine to start the next height; failure
/// changes nothing and asks it to restart the same height. Round, proposer
/// and role stay as they were either way.
pub open spec fn decided_post(
    pre: AppState,
    post: AppState,
    cm: CertificateModel,
    out: HandlerOutput,
) -> bool {
    &&& out.parts@.len() == 0
    &&& if commit_ok(pre, cm) {
        &&& post.height == pre.height + 1
        &&& post.round == pre.round
        &&& post.proposer == pre.proposer
        &&& post.role == pre.role
        &&& post.address == pre.address
        &&& post.part_size == pre.part_size
        &&& post.base_validators == pre.base_validators
        &&& post.schedule == pre.schedule
        &&& post.proposals == pre.proposals
        &&& post.pending_blocks == pre.pending_blocks
        &&& post.streams == pre.streams
        &&& dvs(post.decided@) == dvs(pre.decided@).push(
            (crate::types::DecidedValueModel {
                certificate: cm,
                value: pvs(pre.proposals@)[commit_idx(pvs(pre.proposals@), cm.height, cm.value_id)].value,
            }),
        )
        &&& match out.reply {
            HandlerReply::StartHeight { height, validator_set } => height == pre.height + 1
                && validator_set@ == pre.validator_set_at((pre.height + 1) as u64),
            _ => false,
        }
    } else {
        &&& state_unchanged(pre, post)
        &&& match out.reply {
            HandlerReply::RestartHeight { height, validator_set } => height == pre.height
                && validator_set@ == pre.validator_set_at(pre.height),
            _ => false,
        }
    }
}

/// ProcessSyncedValue stores a decodable value as a valid proposal with no
/// valid round and replies it; undecodable bytes change nothing and reply
/// nothing.
pub open spec fn process_synced_post(
    pre: AppState,
    post: AppState,
    height: u64,
    round: Round,
    proposer: Seq<u8>,
    bytes: Seq<u8>,
    out: HandlerOutput,
) -> bool {
    &&& out.parts@.len() == 0
    &&& match decode_model(bytes) {
        None => state_unchanged(pre, post) && out.reply matches HandlerReply::SyncedValue {
            value: None,
        },
        Some(v) => {
            let pv = ProposedValueModel {
                height,
                round,
                valid_round: Round::Nil,
                proposer,
                value: v,
                validity: Validity::Valid,
            };
            &&& round_info_unchanged(pre, post)
            &&& post.address == pre.address
            &&& post.part_size == pre.part_size
            &&& post.base_validators == pre.base_validators
            &&& post.schedule == pre.schedule
            &&& post.decided == pre.decided
            &&& post.pending_blocks == pre.pending_blocks
            &&& post.streams == pre.streams
            &&& store_rel(pvs(pre.proposals@), pv, pvs(post.proposals@))
            &&& match out.reply {
                HandlerReply::SyncedValue { value } => pv_opt_model(value) == Some(pv),
                _ => false,
            }
        },
    }
}

/// GetDecidedValue replies the retained record with its value encoded for
/// the wire, or nothing; it changes nothing.
pub open spec fn get_decided_value_post(
    pre: AppState,
    post: AppState,
    height: u64,
    out: HandlerOutput,
) -> bool {
    &&& state_unchanged(pre, post)
    &&& out.parts@.len() == 0
    &&& match out.reply {
        HandlerReply::DecidedValueReply { value } => {
            let t = decided_idx(dvs(pre.decided@), height);
            match value {
                Some(raw) => t != -1 && raw.certificate@ == dvs(pre.decided@)[t].certificate
                    && raw.value_bytes@ == encode_model(dvs(pre.decided@)[t].value),
                None => t == -1,
            }
        },
        _ => false,
    }
}

/// RestreamProposal looks the proposal up under the valid round if one is
/// given, else under the event round, and repeats the streaming of its value
/// — the parts are a pure function of value, round and valid round, so they
/// are identical to the original streaming; a missing proposal streams
/// nothing. No reply is owed, and nothing changes.
pub open spec fn restream_post(
    pre: AppState,
    post: AppState,
    height: u64,
    round: Round,
    valid_round: Round,
    value_id: u64,
    out: HandlerOutput,
) -> bool {
    let lookup_round = if valid_round == Round::Nil {
        round
    } else {
        valid_round
    };
    let t = restream_idx(pvs(pre.proposals@), height, lookup_round, value_id);
    &&& state_unchanged(pre, post)
    &&& out.reply is NoReply
    &&& if t == -1 {
        out.parts@.len() == 0
    } else {
        parts_models(out.parts@) == stream_model(
            height,
            round,
            valid_round,
            pre.address@,
            encode_model(pvs(pre.proposals@)[t].value),
            pre.part_size as int,
        )
    }
}

/// What the whole handler owes for each event kind.
pub open spec fn handled(pre: AppState, event: AppEvent, post: AppState, out: HandlerOutput) -> bool {
    match event {
        AppEvent::ConsensusReady => consensus_ready_post(pre, post, out),
        AppEvent::StartedRound { height, round, proposer, role } => started_round_post(
            pre,
            post,
            height,
            round,
            proposer,
            role,
            out,
        ),
        AppEvent::GetValue { height, round, timeout_ms } => get_value_post(
            pre,
            post,
            height,
            round,
            out,
        ),
        AppEvent::ExtendVote => state_unchanged(pre, post) && out.parts@.len() == 0
            && out.reply is NoExtension,
        AppEvent::VerifyVoteExtension => state_unchanged(pre, post) && out.parts@.len() == 0
            && out.reply is ExtensionVerified,
        AppEvent::ReceivedProposalPart { from, part } => received_part_post(
            pre,
            post,
            from@,
            part@,
            out,
        ),
        AppEvent::GetValidatorSet { height } => state_unchanged(pre, post) && out.parts@.len() == 0
            && match out.reply {
            HandlerReply::ValidatorSetReply { validator_set } => match validator_set {
                Some(vs) => vs@ == pre.validator_set_at(height),
                None => false,
            },
            _ => false,
        },
        AppEvent::Decided { certificate } => decided_post(pre, post, certificate@, out),
        AppEvent::ProcessSyncedValue { height, round, proposer, value_bytes } => process_synced_post(
            pre,
            post,
            height,
            round,
            proposer@,
            value_bytes@,
            out,
        ),
        AppEvent::GetDecidedValue { height } => get_decided_value_post(pre, post, height, out),
        AppEvent::GetHistoryMinHeight => state_unchanged(pre, post) && out.parts@.len() == 0
            && match out.reply {
            HandlerReply::MinHeight { height } => height == pre.earliest_height(),
            _ => false,
        },
        AppEvent::RestreamProposal { height, round, valid_round, value_id } => restream_post(
            pre,
            post,
            height,
            round,
            valid_round,
            value_id,
            out,
        ),
    }
}

/// For any sequence of started rounds, the four round fields equal exactly
/// the fields of the last event processed: a later started round overwrites
/// every field the earlier one set, so no stale or partial field survives.
pub proof fn lemma_started_round_no_stale_fields(
    s0: AppState,
    s1: AppState,
    s2: AppState,
    h1: u64,
    r1: Round,
    p1: Address,
    role1: Role,
    h2: u64,
    r2: Round,
    p2: Address,
    role2: Role,
    out1: HandlerOutput,
    out2: HandlerOutput,
)
    requires
        started_round_post(s0, s1, h1, r1, p1, role1, out1),
        started_round_post(s1, s2, h2, r2, p2, role2, out2),
    ensures
        s2.height == h2,
        s2.round == r2,
        s2.proposer == Some(p2),
        s2.role == role2,
        stores_unchanged(s0, s2),
{
}

/// Asking for a value twice for the same (height, round), with no decision
/// in between, replies the identical value both times and leaves the state
/// of the second call exactly as the first left it: the first call cached
/// what it built, the second reuses the cache.
pub proof fn lemma_get_value_idempotent(
    s0: AppState,
    s1: AppState,
    s2: AppState,
    height: u64,
    round: Round,
    out1: HandlerOutput,
    out2: HandlerOutput,
)
    requires
        s0.wf(),
        get_value_post(s0, s1, height, round, out1),
        get_value_post(s1, s2, height, round, out2),
        reply_value(out1) is Some,
    ensures
        reply_value(out2) == reply_value(out1),
        state_unchanged(s1, s2),
{
    let pred = crate::state::pv_key_pred(height, round, s0.address@);
    let pre = pvs(s0.proposals@);
    let cached = proposal_idx(pre, height, round, s0.address@);
    crate::state::lemma_first_idx(pre, pred);
    if cached != -1 {
        assert(state_unchanged(s0, s1));
        assert(pvs(s1.proposals@) == pre);
        assert(proposal_idx(pvs(s1.proposals@), height, round, s1.address@) == cached);
    } else {
        let t = pending_idx(s0.pending_blocks@, height, round);
        assert(t != -1);
        let bv = built_value(s0, height, round, t);
        let mid = pvs(s1.proposals@);
        assert(mid == pre.push(bv));
        assert(pred(mid[pre.len() as int]));
        crate::state::lemma_first_idx(mid, pred);
        let c1 = proposal_idx(mid, height, round, s1.address@);
        assert(s1.address == s0.address);
        assert(c1 != -1) by {
            if c1 == -1 {
                assert(!pred(mid[pre.len() as int]));
            }
        }
        assert(c1 == pre.len()) by {
            if c1 < pre.len() {
                assert(mid[c1] == pre[c1]);
                assert(!pred(pre[c1]));
            }
        }
        assert(reply_value(out2) == Some(bv));
    }
}

/// A decided certificate that commits advances the height by exactly one and
/// asks the engine to start the next height with that height's validator
/// set; round, proposer and role stay whatever they were.
pub proof fn lemma_decided_success(s0: AppState, s1: AppState, cm: CertificateModel, out: HandlerOutput)
    requires
        decided_post(s0, s1, cm, out),
        commit_ok(s0, cm),
    ensures
        s1.height == s0.height + 1,
        s1.round == s0.round,
        s1.proposer == s0.proposer,
        s1.role == s0.role,
        match out.reply {
            HandlerReply::StartHeight { height, validator_set } => height == s0.height + 1
                && validator_set@ == s0.validator_set_at((s0.height + 1) as u64),
            _ => false,
        },
{
}

/// A decided certificate whose commit fails leaves the state — the height in
/// particular — untouched and asks the engine to restart the same height
/// with its validator set.
pub proof fn lemma_decided_failure(s0: AppState, s1: AppState, cm: CertificateModel, out: HandlerOutput)
    requires
        decided_post(s0, s1, cm, out),
        !commit_ok(s0, cm),
    ensures
        s1.height == s0.height,
        state_unchanged(s0, s1),
        match out.reply {
            HandlerReply::RestartHeight { height, validator_set } => height == s0.height
                && validator_set@ == s0.validator_set_at(s0.height),
            _ => false,
        },
{
}

/// The earliest retained decided height never moves under a decision: a
/// failed commit changes nothing, and a successful one either appends above
/// the retained history or, for the first commit, retains exactly the height
/// that was current. So the minimum history height is non-decreasing across
/// decided events.
pub proof fn lemma_decided_keeps_earliest_height(
    s0: AppState,
    s1: AppState,
    cm: CertificateModel,
    out: HandlerOutput,
)
    requires
        decided_post(s0, s1, cm, out),
    ensures
        s1.earliest_height() == s0.earliest_height(),
{
    if commit_ok(s0, cm) {
        assert(dvs(s1.decided@).len() == dvs(s0.decided@).len() + 1);
        if s0.decided@.len() > 0 {
            assert(dvs(s1.decided@)[0] == dvs(s0.decided@)[0]);
        } else {
            assert(dvs(s1.decided@)[0].certificate.height == cm.height);
        }
    }
}

/// A synced value whose bytes fail to decode is dropped whole: no reply
/// value, no storage mutation, the state exactly as it was.
pub proof fn lemma_synced_undecodable_changes_nothing(
    s0: AppState,
    s1: AppState,
    height: u64,
    round: Round,
    proposer: Seq<u8>,
    bytes: Seq<u8>,
    out: HandlerOutput,
)
    requires
        process_synced_post(s0, s1, height, round, proposer, bytes, out),
        decode_model(bytes) is None,
    ensures
        state_unchanged(s0, s1),
        out.reply matches HandlerReply::SyncedValue { value: None },
{
}

/// Restreaming repeats the original streaming exactly: for the same stored
/// value, the same round and no valid round, the restreamed parts equal,
/// byte for byte and in order, whatever an earlier streaming of that value
/// produced under the same state configuration.
pub proof fn lemma_restream_repeats_stream(
    pre: AppState,
    post: AppState,
    height: u64,
    round: Round,
    value_id: u64,
    out: HandlerOutput,
    earlier: Seq<ProposalPartModel>,
)
    requires
        restream_post(pre, post, height, round, Round::Nil, value_id, out),
        restream_idx(pvs(pre.proposals@), height, round, value_id) != -1,
        earlier == stream_model(
            height,
            round,
            Round::Nil,
            pre.address@,
            encode_model(
                pvs(pre.proposals@)[restream_idx(pvs(pre.proposals@), height, round, value_id)].value,
            ),
            pre.part_size as int,
        ),
    ensures
        parts_models(out.parts@) == earlier,
{
}

/// Dispatch one consensus engine event: mutate the state as the event
/// demands and produce the reply owed to the engine, plus the proposal parts
/// to publish to the network after the reply, in order.
pub fn handle_event(state: &mut AppState, event: AppEvent) -> (out: HandlerOutput)
    requires
        old(state).wf(),
    ensures
        final(state).wf(),
        handled(*old(state), event, *final(state), out),
{
    match event {
        AppEvent::ConsensusReady => {
            let height = state.current_height();
            let validator_set = state.get_validator_set(height);
            HandlerOutput { reply: HandlerReply::Ready { height, validator_set }, parts: Vec::new() }
        },
        AppEvent::StartedRound { height, round, proposer, role } => {
            let proposals = state.pending_proposals_for(height, round);
            state.set_round_info(height, round, proposer, role);
            HandlerOutput { reply: HandlerReply::PendingProposals { proposals }, parts: Vec::new() }
        },
        AppEvent::GetValue { height, round, timeout_ms: _ } => {
            match state.get_previously_built_value(height, round) {
                Some(value) => HandlerOutput {
                    reply: HandlerReply::ProposedValueReply { value },
                    parts: Vec::new(),
                },
                None => {
                    match state.propose_value(height, round) {
                        Some(value) => {
                            let parts = state.stream_proposal(
                                height,
                                round,
                                &value.value,
                                Round::Nil,
                            );
                            HandlerOutput {
                                reply: HandlerReply::ProposedValueReply { value },
                                parts,
                            }
                        },
                        None => HandlerOutput { reply: HandlerReply::NoReply, parts: Vec::new() },
                    }
                },
            }
        },
        AppEvent::ExtendVote => HandlerOutput {
            reply: HandlerReply::NoExtension,
            parts: Vec::new(),
        },
        AppEvent::VerifyVoteExtension => HandlerOutput {
            reply: HandlerReply::ExtensionVerified,
            parts: Vec::new(),
        },
        AppEvent::ReceivedProposalPart { from, part } => {
            let value = state.received_proposal_part(&from, &part);
            HandlerOutput { reply: HandlerReply::PartResult { value }, parts: Vec::new() }
        },
        AppEvent::GetValidatorSet { height } => {
            let validator_set = state.get_validator_set(height);
            HandlerOutput {
                reply: HandlerReply::ValidatorSetReply { validator_set: Some(validator_set) },
                parts: Vec::new(),
            }
        },
        AppEvent::Decided { certificate } => {
            if state.commit(certificate) {
                let height = state.current_height();
                let validator_set = state.get_validator_set(height);
                HandlerOutput {
                    reply: HandlerReply::StartHeight { height, validator_set },
                    parts: Vec::new(),
                }
            } else {
                let height = state.current_height();
                let validator_set = state.get_validator_set(height);
                HandlerOutput {
                    reply: HandlerReply::RestartHeight { height, validator_set },
                    parts: Vec::new(),
                }
            }
        },
        AppEvent::ProcessSyncedValue { height, round, proposer, value_bytes } => {
            match decode_value(&value_bytes) {
                Some(value) => {
                    let pv = ProposedValue {
                        height,
                        round,
                        valid_round: Round::Nil,
                        proposer,
                        value,
                        validity: Validity::Valid,
                    };
                    let reply_pv = pv.duplicate();
                    state.store_proposal(pv);
                    HandlerOutput {
                        reply: HandlerReply::SyncedValue { value: Some(reply_pv) },
                        parts: Vec::new(),
                    }
                },
                None => HandlerOutput {
                    reply: HandlerReply::SyncedValue { value: None },
                    parts: Vec::new(),
                },
            }
        },
        AppEvent::GetDecidedValue { height } => {
            let value = match state.get_decided_value(height) {
                Some(dv) => Some(
                    RawDecidedValue {
                        value_bytes: encode_value(&dv.value),
                        certificate: dv.certificate,
                    },
                ),
                None => None,
            };
            HandlerOutput { reply: HandlerReply::DecidedValueReply { value }, parts: Vec::new() }
        },
        AppEvent::GetHistoryMinHeight => {
            let height = state.get_earliest_height();
            HandlerOutput { reply: HandlerReply::MinHeight { height }, parts: Vec::new() }
        },
        AppEvent::RestreamProposal { height, round, valid_round, value_id } => {
            let lookup_round = match valid_round {
                Round::Nil => round,
                Round::At(_) => valid_round,
            };
            let parts = match state.get_proposal_for_restreaming(height, lookup_round, value_id) {
                Some(proposal) => state.stream_proposal(height, round, &proposal.value, valid_round),
                None => Vec::new(),
            };
            HandlerOutput { reply: HandlerReply::NoReply, parts }
        },
    }
}

} // verus!
