//! Application state: the single aggregate behind which the current
//! height/round/proposer/role, the validator-set schedule, the proposal
//! cache, the pending block payloads and the decided-value history live.

use vstd::prelude::*;
use crate::codec::{encode_model, encode_value, parts_models, split_into_parts, stream_model};
use crate::reassembly::{
    feed_completed, feed_next, lemma_map_feed_snoc, lemma_reassembler_roundtrip, map_feed_next,
    map_feed_outcome, reasm_wf, slot_idx, Reassembler,
};
use crate::codec::{decode_model, lemma_codec_roundtrip, lemma_num_chunks_pos};
use crate::types::{
    addr_eq, copy_bytes, Address, Certificate, CertificateModel, DecidedValue, DecidedValueModel,
    ProposalPart, ProposalPartModel, ProposedValue, ProposedValueModel, Role, Round,
    ValidatorInfoModel, ValidatorSet, Value, ValueModel, Validity,
};

verus! {

/// Index of the first element satisfying `pred`, or -1 if none does.
pub open spec fn first_idx<T>(s: Seq<T>, pred: spec_fn(T) -> bool) -> int
    decreases s.len(),
{
    if s.len() == 0 {
        -1
    } else if pred(s[0]) {
        0
    } else {
        let t = first_idx(s.drop_first(), pred);
        if t == -1 {
            -1
        } else {
            1 + t
        }
    }
}

/// The found index is in range, satisfies the predicate, and no earlier
/// element does; -1 means no element satisfies it.
pub proof fn lemma_first_idx<T>(s: Seq<T>, pred: spec_fn(T) -> bool)
    ensures
        first_idx(s, pred) == -1 ==> forall|i: int| 0 <= i < s.len() ==> !pred(#[trigger] s[i]),
        first_idx(s, pred) != -1 ==> {
            let t = first_idx(s, pred);
            &&& 0 <= t < s.len()
            &&& pred(s[t])
            &&& forall|i: int| 0 <= i < t ==> !pred(#[trigger] s[i])
        },
    decreases s.len(),
{
    if s.len() != 0 && !pred(s[0]) {
        lemma_first_idx(s.drop_first(), pred);
        assert(forall|i: int| 1 <= i < s.len() ==> s[i] == s.drop_first()[i - 1]);
    }
}

/// The validator set in force at one height.
pub struct HeightValidators {
    pub height: u64,
    pub set: ValidatorSet,
}

/// A block payload that the execution layer has made available for building
/// a proposal at one (height, round).
pub struct PendingBlock {
    pub height: u64,
    pub round: Round,
    pub payload: Vec<u8>,
}

/// The models of the stored proposals, in storage order.
pub open spec fn pvs(ps: Seq<ProposedValue>) -> Seq<ProposedValueModel> {
    ps.map_values(|p: ProposedValue| p@)
}

/// The models of the decided records, in commit order.
pub open spec fn dvs(ds: Seq<DecidedValue>) -> Seq<DecidedValueModel> {
    ds.map_values(|d: DecidedValue| d@)
}

/// Whether a stored proposal carries the given (height, round, proposer) key.
pub open spec fn pv_key_pred(h: u64, r: Round, proposer: Seq<u8>) -> spec_fn(
    ProposedValueModel,
) -> bool {
    |p: ProposedValueModel| p.height == h && p.round == r && p.proposer == proposer
}

/// Index of the stored proposal with the given key, or -1.
pub open spec fn proposal_idx(ps: Seq<ProposedValueModel>, h: u64, r: Round, proposer: Seq<u8>) -> int {
    first_idx(ps, pv_key_pred(h, r, proposer))
}

/// Index of the first stored proposal at `h`/`r` whose value has id
/// `value_id`, or -1.
pub open spec fn restream_idx(ps: Seq<ProposedValueModel>, h: u64, r: Round, value_id: u64) -> int {
    first_idx(ps, |p: ProposedValueModel| p.height == h && p.round == r && p.value.id == value_id)
}

/// Index of the first stored proposal at height `h` whose value has id
/// `value_id`, or -1: the candidate a certificate commits.
pub open spec fn commit_idx(ps: Seq<ProposedValueModel>, h: u64, value_id: u64) -> int {
    first_idx(ps, |p: ProposedValueModel| p.height == h && p.value.id == value_id)
}

/// Index of the validator-set schedule entry for height `h`, or -1.
pub open spec fn vset_idx(sch: Seq<HeightValidators>, h: u64) -> int {
    first_idx(sch, |e: HeightValidators| e.height == h)
}

/// Index of the first pending block payload for (h, r), or -1.
pub open spec fn pending_idx(pb: Seq<PendingBlock>, h: u64, r: Round) -> int {
    first_idx(pb, |b: PendingBlock| b.height == h && b.round == r)
}

/// Index of the decided record at height `h`, or -1.
pub open spec fn decided_idx(ds: Seq<DecidedValueModel>, h: u64) -> int {
    first_idx(ds, |d: DecidedValueModel| d.certificate.height == h)
}

/// The stored proposals at (h, r), in storage order: what a started round
/// reports as pending.
pub open spec fn proposals_at(ps: Seq<ProposedValueModel>, h: u64, r: Round) -> Seq<
    ProposedValueModel,
>
    decreases ps.len(),
{
    if ps.len() == 0 {
        Seq::empty()
    } else {
        proposals_at(ps.drop_last(), h, r) + (if ps.last().height == h && ps.last().round == r {
            seq![ps.last()]
        } else {
            Seq::empty()
        })
    }
}

/// At most one stored proposal per (height, round, proposer) key.
pub open spec fn proposals_unique(ps: Seq<ProposedValueModel>) -> bool {
    forall|i: int, j: int|
        0 <= i < j < ps.len() ==> !((#[trigger] ps[j]).height == (#[trigger] ps[i]).height
            && ps[j].round == ps[i].round && ps[j].proposer == ps[i].proposer)
}

/// Decided heights strictly increase along the history.
pub open spec fn decided_increasing(ds: Seq<DecidedValueModel>) -> bool {
    forall|i: int, j: int|
        0 <= i < j < ds.len() ==> (#[trigger] ds[i]).certificate.height
            < (#[trigger] ds[j]).certificate.height
}

/// Application state. Height, round, proposer and role are mutated only as
/// one atomic group per started round, or by a successful commit (height
/// alone); everything else is a keyed store.
pub struct AppState {
    /// This node's own validator identity.
    pub address: Address,
    /// Target size of one streamed proposal part, at least 1.
    pub part_size: usize,
    /// Current consensus height.
    pub height: u64,
    /// Current round within the height.
    pub round: Round,
    /// Proposer of the current round, if a round has started.
    pub proposer: Option<Address>,
    /// This node's role in the current round.
    pub role: Role,
    /// Validator set for heights with no schedule entry.
    pub base_validators: ValidatorSet,
    /// Per-height validator sets, looked up by height.
    pub schedule: Vec<HeightValidators>,
    /// Built, received and synced proposals, at most one per key.
    pub proposals: Vec<ProposedValue>,
    /// Decided records, appended once per successful commit.
    pub decided: Vec<DecidedValue>,
    /// Block payloads the execution layer has handed in for building.
    pub pending_blocks: Vec<PendingBlock>,
    /// Partial reassembly of proposal parts received from peers.
    pub streams: Reassembler,
}

impl AppState {
    /// Structural well-formedness: constructors establish it, every
    /// operation preserves it.
    pub open spec fn wf(self) -> bool {
        &&& self.part_size >= 1
        &&& proposals_unique(pvs(self.proposals@))
        &&& decided_increasing(dvs(self.decided@))
        &&& reasm_wf(self.streams@)
    }

    /// The validator set in force at height `h`: the schedule entry for `h`
    /// if one exists, the base set otherwise.
    pub open spec fn validator_set_at(self, h: u64) -> Seq<ValidatorInfoModel> {
        let t = vset_idx(self.schedule@, h);
        if t == -1 {
            self.base_validators@
        } else {
            self.schedule@[t].set@
        }
    }

    /// The earliest retained decided height: the first commit's height, or
    /// the current height while nothing is decided.
    pub open spec fn earliest_height(self) -> u64 {
        if self.decided@.len() == 0 {
            self.height
        } else {
            dvs(self.decided@)[0].certificate.height
        }
    }

    /// Fresh state at height 0 with no round started.
    pub fn new(address: Address, base_validators: ValidatorSet, part_size: usize) -> (r: AppState)
        requires
            part_size >= 1,
        ensures
            r.wf(),
            r.address == address,
            r.part_size == part_size,
            r.height == 0,
            r.round == Round::Nil,
            r.proposer is None,
            r.role == Role::NoRole,
            r.base_validators == base_validators,
            r.schedule@.len() == 0,
            r.proposals@.len() == 0,
            r.decided@.len() == 0,
            r.pending_blocks@.len() == 0,
            r.streams@.len() == 0,
    {
        let r = AppState {
            address,
            part_size,
            height: 0,
            round: Round::Nil,
            proposer: None,
            role: Role::NoRole,
            base_validators,
            schedule: Vec::new(),
            proposals: Vec::new(),
            decided: Vec::new(),
            pending_blocks: Vec::new(),
            streams: Reassembler::new(),
        };
        assert(pvs(r.proposals@) =~= Seq::<ProposedValueModel>::empty());
        assert(dvs(r.decided@) =~= Seq::<DecidedValueModel>::empty());
        r
    }

    /// Current consensus height.
    pub fn current_height(&self) -> (r: u64)
        ensures
            r == self.height,
    {
        self.height
    }

    /// Set height, round, proposer and role as one atomic group: the single
    /// mutation a started round performs.
    pub fn set_round_info(&mut self, height: u64, round: Round, proposer: Address, role: Role)
        ensures
            final(self).height == height,
            final(self).round == round,
            final(self).proposer == Some(proposer),
            final(self).role == role,
            final(self).address == old(self).address,
            final(self).part_size == old(self).part_size,
            final(self).base_validators == old(self).base_validators,
            final(self).schedule == old(self).schedule,
            final(self).proposals == old(self).proposals,
            final(self).decided == old(self).decided,
            final(self).pending_blocks == old(self).pending_blocks,
            final(self).streams == old(self).streams,
            old(self).wf() ==> final(self).wf(),
    {
        self.height = height;
        self.round = round;
        self.proposer = Some(proposer);
        self.role = role;
    }

    fn find_vset(&self, h: u64) -> (r: Option<usize>)
        ensures
            vset_idx(self.schedule@, h) == -1 <==> r is None,
            r matches Some(i) ==> i == vset_idx(self.schedule@, h) && i < self.schedule@.len()
                && self.schedule@[i as int].height == h,
    {
        let ghost pred = |e: HeightValidators| e.height == h;
        let mut i: usize = 0;
        while i < self.schedule.len()
            invariant
                i <= self.schedule@.len(),
                pred == (|e: HeightValidators| e.height == h),
                forall|j: int| 0 <= j < i ==> !pred(#[trigger] self.schedule@[j]),
            decreases self.schedule@.len() - i,
        {
            if self.schedule[i].height == h {
                proof {
                    lemma_first_idx(self.schedule@, pred);
                }
                return Some(i);
            }
            i += 1;
        }
        proof {
            lemma_first_idx(self.schedule@, pred);
        }
        None
    }

    /// The validator set in force at height `h`.
    pub fn get_validator_set(&self, h: u64) -> (r: ValidatorSet)
        ensures
            r@ == self.validator_set_at(h),
    {
        match self.find_vset(h) {
            Some(i) => self.schedule[i].set.duplicate(),
            None => self.base_validators.duplicate(),
        }
    }

    /// Associate a validator set with height `h`, replacing any earlier
    /// association for that height and leaving every other height's set as
    /// it was.
    pub fn set_validator_set(&mut self, h: u64, set: ValidatorSet)
        ensures
            final(self).validator_set_at(h) == set@,
            forall|h2: u64|
                h2 != h ==> #[trigger] final(self).validator_set_at(h2) == old(
                    self,
                ).validator_set_at(h2),
            final(self).address == old(self).address,
            final(self).part_size == old(self).part_size,
            final(self).height == old(self).height,
            final(self).round == old(self).round,
            final(self).proposer == old(self).proposer,
            final(self).role == old(self).role,
            final(self).base_validators == old(self).base_validators,
            final(self).proposals == old(self).proposals,
            final(self).decided == old(self).decided,
            final(self).pending_blocks == old(self).pending_blocks,
            final(self).streams == old(self).streams,
            old(self).wf() ==> final(self).wf(),
    {
        let ghost pre = self.schedule@;
        let entry = HeightValidators { height: h, set };
        match self.find_vset(h) {
            Some(i) => {
                proof {
                    lemma_first_idx(pre, |e: HeightValidators| e.height == h);
                }
                self.schedule.remove(i);
                self.schedule.insert(i, entry);
                proof {
                    assert(self.schedule@ =~= pre.update(i as int, entry));
                    lemma_vset_update(pre, i as int, entry, h);
                }
            },
            None => {
                proof {
                    lemma_first_idx(pre, |e: HeightValidators| e.height == h);
                }
                self.schedule.push(entry);
                proof {
                    lemma_vset_push(pre, entry, h);
                }
            },
        }
    }
}

/// The identifier a locally built value carries, derived from the height and
/// round it is built for: the height in the upper bits, a round tag below.
pub open spec fn value_id_of(h: u64, r: Round) -> u64 {
    (h << 16) | round_tag(r)
}

/// A 16-bit tag for a round, used in locally built value identifiers.
pub open spec fn round_tag(r: Round) -> u64 {
    match r {
        Round::Nil => 0xFFFF,
        Round::At(n) => (n as u64) & 0x7FFF,
    }
}

/// Storing a proposal replaces the entry under its (height, round, proposer)
/// key, or appends it when the key is new.
pub open spec fn store_rel(
    pre: Seq<ProposedValueModel>,
    pv: ProposedValueModel,
    post: Seq<ProposedValueModel>,
) -> bool {
    let t = proposal_idx(pre, pv.height, pv.round, pv.proposer);
    if t == -1 {
        post == pre.push(pv)
    } else {
        post == pre.update(t, pv)
    }
}

/// The proposal a locally triggered build at (h, r) produces, given that the
/// first pending block payload for (h, r) sits at index `t`.
pub open spec fn built_value(s: AppState, h: u64, r: Round, t: int) -> ProposedValueModel {
    ProposedValueModel {
        height: h,
        round: r,
        valid_round: Round::Nil,
        proposer: s.address@,
        value: ValueModel { id: value_id_of(h, r), payload: s.pending_blocks@[t].payload@ },
        validity: Validity::Valid,
    }
}

/// Whether a certificate commits against the current state: it must
/// reference the current height, a stored proposal must carry the certified
/// value, and the history must still have room above its last entry.
pub open spec fn commit_ok(s: AppState, cm: CertificateModel) -> bool {
    &&& cm.height == s.height
    &&& s.height < u64::MAX
    &&& (s.decided@.len() == 0 || dvs(s.decided@).last().certificate.height < cm.height)
    &&& commit_idx(pvs(s.proposals@), cm.height, cm.value_id) != -1
}

impl AppState {
    fn find_proposal(&self, h: u64, r: Round, proposer: &Address) -> (res: Option<usize>)
        ensures
            proposal_idx(pvs(self.proposals@), h, r, proposer@) == -1 <==> res is None,
            res matches Some(i) ==> i == proposal_idx(pvs(self.proposals@), h, r, proposer@)
                && i < self.proposals@.len(),
    {
        let ghost mps = pvs(self.proposals@);
        let ghost pred = pv_key_pred(h, r, proposer@);
        let mut i: usize = 0;
        while i < self.proposals.len()
            invariant
                i <= self.proposals@.len(),
                mps == pvs(self.proposals@),
                pred == pv_key_pred(h, r, proposer@),
                mps.len() == self.proposals@.len(),
                forall|j: int| 0 <= j < i ==> !pred(#[trigger] mps[j]),
            decreases self.proposals@.len() - i,
        {
            assert(mps[i as int] == self.proposals@[i as int]@);
            let p = &self.proposals[i];
            if p.height == h && p.round == r && addr_eq(&p.proposer, proposer) {
                proof {
                    assert(pred(mps[i as int]));
                    lemma_first_idx(mps, pred);
                }
                return Some(i);
            }
            i += 1;
        }
        proof {
            lemma_first_idx(mps, pred);
        }
        None
    }

    /// The value already built for (h, r), if one is cached: locally built
    /// values are stored under this node's own address.
    pub fn get_previously_built_value(&self, h: u64, r: Round) -> (res: Option<ProposedValue>)
        ensures
            match res {
                Some(pv) => {
                    let t = proposal_idx(pvs(self.proposals@), h, r, self.address@);
                    t != -1 && pv@ == pvs(self.proposals@)[t]
                },
                None => proposal_idx(pvs(self.proposals@), h, r, self.address@) == -1,
            },
    {
        let addr = self.address;
        match self.find_proposal(h, r, &addr) {
            Some(i) => Some(self.proposals[i].duplicate()),
            None => None,
        }
    }

    /// Store a proposal, replacing any earlier one under the same
    /// (height, round, proposer) key.
    pub fn store_proposal(&mut self, pv: ProposedValue)
        requires
            old(self).wf(),
        ensures
            final(self).wf(),
            store_rel(pvs(old(self).proposals@), pv@, pvs(final(self).proposals@)),
            final(self).address == old(self).address,
            final(self).part_size == old(self).part_size,
            final(self).height == old(self).height,
            final(self).round == old(self).round,
            final(self).proposer == old(self).proposer,
            final(self).role == old(self).role,
            final(self).base_validators == old(self).base_validators,
            final(self).schedule == old(self).schedule,
            final(self).decided == old(self).decided,
            final(self).pending_blocks == old(self).pending_blocks,
            final(self).streams == old(self).streams,
    {
        let ghost pre = pvs(self.proposals@);
        let ghost pred = pv_key_pred(pv.height, pv.round, pv.proposer@);
        let addr = pv.proposer;
        match self.find_proposal(pv.height, pv.round, &addr) {
            Some(i) => {
                proof {
                    lemma_first_idx(pre, pred);
                }
                self.proposals.remove(i);
                self.proposals.insert(i, pv);
                proof {
                    assert(pvs(self.proposals@) =~= pre.update(
                        i as int,
                        pvs(self.proposals@)[i as int],
                    ));
                    assert(proposals_unique(pvs(self.proposals@))) by {
                        let post = pvs(self.proposals@);
                        assert forall|a: int, b: int| 0 <= a < b < post.len() implies !(
                        (#[trigger] post[b]).height == (#[trigger] post[a]).height && post[b].round
                            == post[a].round && post[b].proposer == post[a].proposer) by {
                            assert(pred(pre[i as int]));
                            if a != i && b != i {
                                assert(post[a] == pre[a] && post[b] == pre[b]);
                            }
                        }
                    }
                }
            },
            None => {
                proof {
                    lemma_first_idx(pre, pred);
                }
                self.proposals.push(pv);
                proof {
                    assert(pvs(self.proposals@) =~= pre.push(pvs(self.proposals@)[pre.len() as int]));
                    assert(proposals_unique(pvs(self.proposals@))) by {
                        let post = pvs(self.proposals@);
                        assert forall|a: int, b: int| 0 <= a < b < post.len() implies !(
                        (#[trigger] post[b]).height == (#[trigger] post[a]).height && post[b].round
                            == post[a].round && post[b].proposer == post[a].proposer) by {
                            if b == post.len() - 1 {
                                assert(!pred(pre[a]));
                            } else {
                                assert(post[a] == pre[a] && post[b] == pre[b]);
                            }
                        }
                    }
                }
            },
        }
    }

    fn find_pending(&self, h: u64, r: Round) -> (res: Option<usize>)
        ensures
            pending_idx(self.pending_blocks@, h, r) == -1 <==> res is None,
            res matches Some(i) ==> i == pending_idx(self.pending_blocks@, h, r)
                && i < self.pending_blocks@.len(),
    {
        let ghost pred = |b: PendingBlock| b.height == h && b.round == r;
        let mut i: usize = 0;
        while i < self.pending_blocks.len()
            invariant
                i <= self.pending_blocks@.len(),
                pred == (|b: PendingBlock| b.height == h && b.round == r),
                forall|j: int| 0 <= j < i ==> !pred(#[trigger] self.pending_blocks@[j]),
            decreases self.pending_blocks@.len() - i,
        {
            let b = &self.pending_blocks[i];
            if b.height == h && b.round == r {
                proof {
                    lemma_first_idx(self.pending_blocks@, pred);
                }
                return Some(i);
            }
            i += 1;
        }
        proof {
            lemma_first_idx(self.pending_blocks@, pred);
        }
        None
    }

    /// Hand in a block payload from which a proposal at (h, r) can be built.
    /// An earlier payload for the same pair keeps precedence.
    pub fn provide_block_payload(&mut self, h: u64, r: Round, payload: Vec<u8>)
        ensures
            final(self).pending_blocks@ == old(self).pending_blocks@.push(
                (PendingBlock { height: h, round: r, payload }),
            ),
            final(self).address == old(self).address,
            final(self).part_size == old(self).part_size,
            final(self).height == old(self).height,
            final(self).round == old(self).round,
            final(self).proposer == old(self).proposer,
            final(self).role == old(self).role,
            final(self).base_validators == old(self).base_validators,
            final(self).schedule == old(self).schedule,
            final(self).proposals == old(self).proposals,
            final(self).decided == old(self).decided,
            final(self).streams == old(self).streams,
            old(self).wf() ==> final(self).wf(),
    {
        self.pending_blocks.push(PendingBlock { height: h, round: r, payload });
    }

    /// Build a new value for (h, r) from the first pending block payload for
    /// that pair, cache it, and return it; `None` exactly when no payload is
    /// available, in which case nothing changes.
    pub fn propose_value(&mut self, h: u64, r: Round) -> (res: Option<ProposedValue>)
        requires
            old(self).wf(),
            proposal_idx(pvs(old(self).proposals@), h, r, old(self).address@) == -1,
        ensures
            final(self).wf(),
            final(self).address == old(self).address,
            final(self).part_size == old(self).part_size,
            final(self).height == old(self).height,
            final(self).round == old(self).round,
            final(self).proposer == old(self).proposer,
            final(self).role == old(self).role,
            final(self).base_validators == old(self).base_validators,
            final(self).schedule == old(self).schedule,
            final(self).decided == old(self).decided,
            final(self).pending_blocks == old(self).pending_blocks,
            final(self).streams == old(self).streams,
            match res {
                Some(pv) => {
                    let t = pending_idx(old(self).pending_blocks@, h, r);
                    &&& t != -1
                    &&& pv@ == built_value(*old(self), h, r, t)
                    &&& pvs(final(self).proposals@) == pvs(old(self).proposals@).push(pv@)
                },
                None => pending_idx(old(self).pending_blocks@, h, r) == -1 && final(self).proposals
                    == old(self).proposals,
            },
    {
        let ghost pre = pvs(self.proposals@);
        match self.find_pending(h, r) {
            Some(t) => {
                let id = (h << 16) | (match r {
                    Round::Nil => 0xFFFFu64,
                    Round::At(n) => (n as u64) & 0x7FFF,
                });
                let pv = ProposedValue {
                    height: h,
                    round: r,
                    valid_round: Round::Nil,
                    proposer: self.address,
                    value: Value { id, payload: copy_bytes(&self.pending_blocks[t].payload) },
                    validity: Validity::Valid,
                };
                let out = pv.duplicate();
                self.store_proposal(pv);
                proof {
                    assert(store_rel(pre, out@, pvs(self.proposals@)));
                }
                Some(out)
            },
            None => None,
        }
    }

    /// Encode a value and split it into the ordered parts that stream it to
    /// peers under this node's identity. Pure in its arguments: restreaming
    /// the same value with the same valid round repeats the same parts.
    pub fn stream_proposal(
        &self,
        height: u64,
        round: Round,
        value: &Value,
        valid_round: Round,
    ) -> (parts: Vec<ProposalPart>)
        requires
            self.wf(),
        ensures
            parts_models(parts@) == stream_model(
                height,
                round,
                valid_round,
                self.address@,
                encode_model(value@),
                self.part_size as int,
            ),
    {
        let bytes = encode_value(value);
        split_into_parts(height, round, valid_round, &self.address, &bytes, self.part_size)
    }
}

/// The model of an optional proposed value.
pub open spec fn pv_opt_model(o: Option<ProposedValue>) -> Option<ProposedValueModel> {
    match o {
        Some(pv) => Some(pv@),
        None => None,
    }
}

/// The proposal that a completed reassembly for part `pm`, sent by `from`
/// and decoding to value `v`, materializes.
pub open spec fn reassembled_value(
    from: Seq<u8>,
    pm: ProposalPartModel,
    v: ValueModel,
) -> ProposedValueModel {
    ProposedValueModel {
        height: pm.height,
        round: pm.round,
        valid_round: pm.valid_round,
        proposer: from,
        value: v,
        validity: Validity::Valid,
    }
}

/// What receiving one proposal part does: the part feeds the reassembly
/// keyed by its sender; only a completed, decodable stream materializes and
/// stores a proposal, and everything else in the state stays as it was.
pub open spec fn received_part_rel(
    pre: AppState,
    from: Seq<u8>,
    pm: ProposalPartModel,
    post: AppState,
    out: Option<ProposedValueModel>,
) -> bool {
    &&& post.address == pre.address
    &&& post.part_size == pre.part_size
    &&& post.height == pre.height
    &&& post.round == pre.round
    &&& post.proposer == pre.proposer
    &&& post.role == pre.role
    &&& post.base_validators == pre.base_validators
    &&& post.schedule == pre.schedule
    &&& post.decided == pre.decided
    &&& post.pending_blocks == pre.pending_blocks
    &&& post.streams@ == crate::reassembly::feed_next(pre.streams@, from, pm)
    &&& match crate::reassembly::feed_completed(pre.streams@, from, pm) {
        None => out is None && post.proposals == pre.proposals,
        Some(bytes) => match crate::codec::decode_model(bytes) {
            None => out is None && post.proposals == pre.proposals,
            Some(v) => out == Some(reassembled_value(from, pm, v)) && store_rel(
                pvs(pre.proposals@),
                reassembled_value(from, pm, v),
                pvs(post.proposals@),
            ),
        },
    }
}

proof fn lemma_streams_thread(
    states: Seq<AppState>,
    outs: Seq<Option<ProposedValueModel>>,
    from: Seq<u8>,
    parts: Seq<ProposalPartModel>,
    i: int,
)
    requires
        states.len() == parts.len() + 1,
        outs.len() == parts.len(),
        forall|j: int|
            0 <= j < parts.len() ==> received_part_rel(
                #[trigger] states[j],
                from,
                parts[j],
                states[j + 1],
                outs[j],
            ),
        0 <= i <= parts.len(),
    ensures
        states[i].streams@ == map_feed_next(states[0].streams@, from, parts.take(i)),
    decreases i,
{
    let rs0 = states[0].streams@;
    if i == 0 {
        assert(parts.take(0) =~= Seq::<ProposalPartModel>::empty());
        assert(map_feed_next(rs0, from, parts.take(0)) == rs0);
    } else {
        lemma_streams_thread(states, outs, from, parts, i - 1);
        assert(received_part_rel(states[i - 1], from, parts[i - 1], states[i], outs[i - 1]));
        lemma_map_feed_snoc(rs0, from, parts.take(i));
        assert(parts.take(i).drop_last() =~= parts.take(i - 1));
        assert(parts.take(i).last() == parts[i - 1]);
    }
}

/// Streaming a value to a peer and handing every part, in order, to that
/// peer's part handling materializes exactly the streamed value: every part
/// but the terminal one is acknowledged with no value, and the terminal part
/// produces the valid proposal carrying the value that was encoded — however
/// many unrelated streams the reassembler is tracking meanwhile.
pub proof fn lemma_full_stream_materializes_value(
    states: Seq<AppState>,
    outs: Seq<Option<ProposedValueModel>>,
    from: Seq<u8>,
    height: u64,
    round: Round,
    valid_round: Round,
    streamer: Seq<u8>,
    v: ValueModel,
    p: int,
)
    requires
        p >= 1,
        encode_model(v).len() < u64::MAX,
        states.len() == stream_model(height, round, valid_round, streamer, encode_model(v), p).len()
            + 1,
        outs.len() == states.len() - 1,
        slot_idx(states[0].streams@, height, round, from) == -1,
        forall|i: int|
            0 <= i < outs.len() ==> received_part_rel(
                #[trigger] states[i],
                from,
                stream_model(height, round, valid_round, streamer, encode_model(v), p)[i],
                states[i + 1],
                outs[i],
            ),
    ensures
        forall|i: int| 0 <= i < outs.len() - 1 ==> outs[i] is None,
        outs.last() == Some(
            (ProposedValueModel {
                height,
                round,
                valid_round,
                proposer: from,
                value: v,
                validity: Validity::Valid,
            }),
        ),
        store_rel(
            pvs(states[states.len() - 2].proposals@),
            outs.last()->0,
            pvs(states.last().proposals@),
        ),
{
    let bytes = encode_model(v);
    let parts = stream_model(height, round, valid_round, streamer, bytes, p);
    let rs0 = states[0].streams@;
    let n = parts.len() as int;
    lemma_num_chunks_pos(bytes.len() as int, p);
    assert(n >= 1);
    assert forall|i: int| 0 <= i < n - 1 implies outs[i] is None by {
        assert(received_part_rel(states[i], from, parts[i], states[i + 1], outs[i]));
        assert(!parts[i].last);
        assert(feed_completed(states[i].streams@, from, parts[i]) is None);
    }
    lemma_streams_thread(states, outs, from, parts, n - 1);
    lemma_map_feed_snoc(rs0, from, parts);
    assert(parts.drop_last() =~= parts.take(n - 1));
    lemma_reassembler_roundtrip(rs0, from, height, round, valid_round, streamer, bytes, p);
    assert(feed_completed(states[n - 1].streams@, from, parts[n - 1]) == Some(bytes)) by {
        assert(parts.last() == parts[n - 1]);
    }
    lemma_codec_roundtrip(v);
    assert(received_part_rel(states[n - 1], from, parts[n - 1], states[n], outs[n - 1]));
    assert(parts[n - 1].height == height && parts[n - 1].round == round && parts[n - 1].valid_round
        == valid_round);
}

impl AppState {
    /// Feed one proposal part received from a peer into the reassembler;
    /// returns the materialized proposal exactly when the part completes its
    /// key's stream in order and the gathered bytes decode.
    pub fn received_proposal_part(&mut self, from: &Address, part: &ProposalPart) -> (out: Option<
        ProposedValue,
    >)
        requires
            old(self).wf(),
        ensures
            final(self).wf(),
            received_part_rel(*old(self), from@, part@, *final(self), pv_opt_model(out)),
    {
        let ghost pre = *self;
        let fed = self.streams.feed(from, part);
        match fed {
            None => None,
            Some(bytes) => {
                match crate::codec::decode_value(&bytes) {
                    None => None,
                    Some(value) => {
                        let pv = ProposedValue {
                            height: part.height,
                            round: part.round,
                            valid_round: part.valid_round,
                            proposer: *from,
                            value,
                            validity: Validity::Valid,
                        };
                        let out = pv.duplicate();
                        self.store_proposal(pv);
                        Some(out)
                    },
                }
            },
        }
    }

    fn find_commit(&self, h: u64, value_id: u64) -> (res: Option<usize>)
        ensures
            commit_idx(pvs(self.proposals@), h, value_id) == -1 <==> res is None,
            res matches Some(i) ==> i == commit_idx(pvs(self.proposals@), h, value_id)
                && i < self.proposals@.len(),
    {
        let ghost mps = pvs(self.proposals@);
        let ghost pred = |p: ProposedValueModel| p.height == h && p.value.id == value_id;
        let mut i: usize = 0;
        while i < self.proposals.len()
            invariant
                i <= self.proposals@.len(),
                mps == pvs(self.proposals@),
                pred == (|p: ProposedValueModel| p.height == h && p.value.id == value_id),
                mps.len() == self.proposals@.len(),
                forall|j: int| 0 <= j < i ==> !pred(#[trigger] mps[j]),
            decreases self.proposals@.len() - i,
        {
            assert(mps[i as int] == self.proposals@[i as int]@);
            let p = &self.proposals[i];
            if p.height == h && p.value.id == value_id {
                proof {
                    assert(pred(mps[i as int]));
                    lemma_first_idx(mps, pred);
                }
                return Some(i);
            }
            i += 1;
        }
        proof {
            lemma_first_idx(mps, pred);
        }
        None
    }

    /// Commit the value a certificate references. Success — the certificate
    /// references the current height and a stored value — appends the
    /// decided record and advances the height by exactly one; failure leaves
    /// the state untouched.
    pub fn commit(&mut self, cert: Certificate) -> (ok: bool)
        requires
            old(self).wf(),
        ensures
            final(self).wf(),
            ok == commit_ok(*old(self), cert@),
            final(self).address == old(self).address,
            final(self).part_size == old(self).part_size,
            final(self).round == old(self).round,
            final(self).proposer == old(self).proposer,
            final(self).role == old(self).role,
            final(self).base_validators == old(self).base_validators,
            final(self).schedule == old(self).schedule,
            final(self).proposals == old(self).proposals,
            final(self).pending_blocks == old(self).pending_blocks,
            final(self).streams == old(self).streams,
            ok ==> final(self).height == old(self).height + 1 && dvs(final(self).decided@) == dvs(
                old(self).decided@,
            ).push(
                (DecidedValueModel {
                    certificate: cert@,
                    value: pvs(old(self).proposals@)[commit_idx(
                        pvs(old(self).proposals@),
                        cert@.height,
                        cert@.value_id,
                    )].value,
                }),
            ),
            !ok ==> final(self).height == old(self).height && final(self).decided == old(
                self,
            ).decided,
    {
        if cert.height != self.height {
            return false;
        }
        if self.height == u64::MAX {
            return false;
        }
        if self.decided.len() > 0 {
            let lastd = &self.decided[self.decided.len() - 1];
            assert(lastd@ == dvs(self.decided@).last());
            if lastd.certificate.height >= cert.height {
                return false;
            }
        }
        match self.find_commit(cert.height, cert.value_id) {
            None => false,
            Some(t) => {
                let ghost preds = dvs(self.decided@);
                assert(pvs(self.proposals@)[t as int] == self.proposals@[t as int]@);
                let value = self.proposals[t].value.duplicate();
                let record = DecidedValue { certificate: cert, value };
                self.decided.push(record);
                self.height = self.height + 1;
                proof {
                    assert(dvs(self.decided@) =~= preds.push(record@));
                    assert(decided_increasing(dvs(self.decided@))) by {
                        let post = dvs(self.decided@);
                        assert forall|a: int, b: int| 0 <= a < b < post.len() implies (
                        #[trigger] post[a]).certificate.height < (
                        #[trigger] post[b]).certificate.height by {
                            if b == post.len() - 1 {
                                if preds.len() > 0 && a < preds.len() - 1 {
                                    assert(preds[a].certificate.height < preds.last().certificate.height);
                                }
                            } else {
                                assert(post[a] == preds[a] && post[b] == preds[b]);
                            }
                        }
                    }
                }
                true
            },
        }
    }

    fn find_decided(&self, h: u64) -> (res: Option<usize>)
        ensures
            decided_idx(dvs(self.decided@), h) == -1 <==> res is None,
            res matches Some(i) ==> i == decided_idx(dvs(self.decided@), h)
                && i < self.decided@.len(),
    {
        let ghost mds = dvs(self.decided@);
        let ghost pred = |d: DecidedValueModel| d.certificate.height == h;
        let mut i: usize = 0;
        while i < self.decided.len()
            invariant
                i <= self.decided@.len(),
                mds == dvs(self.decided@),
                pred == (|d: DecidedValueModel| d.certificate.height == h),
                mds.len() == self.decided@.len(),
                forall|j: int| 0 <= j < i ==> !pred(#[trigger] mds[j]),
            decreases self.decided@.len() - i,
        {
            assert(mds[i as int] == self.decided@[i as int]@);
            if self.decided[i].certificate.height == h {
                proof {
                    assert(pred(mds[i as int]));
                    lemma_first_idx(mds, pred);
                }
                return Some(i);
            }
            i += 1;
        }
        proof {
            lemma_first_idx(mds, pred);
        }
        None
    }

    /// The decided record at height `h`, if one is retained.
    pub fn get_decided_value(&self, h: u64) -> (res: Option<DecidedValue>)
        ensures
            match res {
                Some(dv) => {
                    let t = decided_idx(dvs(self.decided@), h);
                    t != -1 && dv@ == dvs(self.decided@)[t]
                },
                None => decided_idx(dvs(self.decided@), h) == -1,
            },
    {
        match self.find_decided(h) {
            Some(i) => Some(self.decided[i].duplicate()),
            None => None,
        }
    }

    /// The earliest retained decided height, or the current height while
    /// nothing is decided.
    pub fn get_earliest_height(&self) -> (r: u64)
        ensures
            r == self.earliest_height(),
    {
        if self.decided.len() == 0 {
            self.height
        } else {
            assert(self.decided@[0]@ == dvs(self.decided@)[0]);
            self.decided[0].certificate.height
        }
    }

    fn find_restream(&self, h: u64, r: Round, value_id: u64) -> (res: Option<usize>)
        ensures
            restream_idx(pvs(self.proposals@), h, r, value_id) == -1 <==> res is None,
            res matches Some(i) ==> i == restream_idx(pvs(self.proposals@), h, r, value_id)
                && i < self.proposals@.len(),
    {
        let ghost mps = pvs(self.proposals@);
        let ghost pred = |p: ProposedValueModel| p.height == h && p.round == r && p.value.id
            == value_id;
        let mut i: usize = 0;
        while i < self.proposals.len()
            invariant
                i <= self.proposals@.len(),
                mps == pvs(self.proposals@),
                pred == (|p: ProposedValueModel| p.height == h && p.round == r && p.value.id
                    == value_id),
                mps.len() == self.proposals@.len(),
                forall|j: int| 0 <= j < i ==> !pred(#[trigger] mps[j]),
            decreases self.proposals@.len() - i,
        {
            assert(mps[i as int] == self.proposals@[i as int]@);
            let p = &self.proposals[i];
            if p.height == h && p.round == r && p.value.id == value_id {
                proof {
                    assert(pred(mps[i as int]));
                    lemma_first_idx(mps, pred);
                }
                return Some(i);
            }
            i += 1;
        }
        proof {
            lemma_first_idx(mps, pred);
        }
        None
    }

    /// The stored proposal to restream for (h, r) under the given value id,
    /// if one is stored.
    pub fn get_proposal_for_restreaming(&self, h: u64, r: Round, value_id: u64) -> (res: Option<
        ProposedValue,
    >)
        ensures
            match res {
                Some(pv) => {
                    let t = restream_idx(pvs(self.proposals@), h, r, value_id);
                    t != -1 && pv@ == pvs(self.proposals@)[t]
                },
                None => restream_idx(pvs(self.proposals@), h, r, value_id) == -1,
            },
    {
        match self.find_restream(h, r, value_id) {
            Some(i) => {
                assert(pvs(self.proposals@)[i as int] == self.proposals@[i as int]@);
                Some(self.proposals[i].duplicate())
            },
            None => None,
        }
    }

    /// All stored proposals at (h, r), in storage order: what a started
    /// round reports as pending for recovery.
    pub fn pending_proposals_for(&self, h: u64, r: Round) -> (res: Vec<ProposedValue>)
        ensures
            pvs(res@) == proposals_at(pvs(self.proposals@), h, r),
    {
        let ghost mps = pvs(self.proposals@);
        let mut res: Vec<ProposedValue> = Vec::new();
        assert(pvs(res@) =~= Seq::<ProposedValueModel>::empty());
        assert(mps.take(0) =~= Seq::<ProposedValueModel>::empty());
        let mut i: usize = 0;
        while i < self.proposals.len()
            invariant
                i <= self.proposals@.len(),
                mps == pvs(self.proposals@),
                mps.len() == self.proposals@.len(),
                pvs(res@) == proposals_at(mps.take(i as int), h, r),
            decreases self.proposals@.len() - i,
        {
            assert(mps[i as int] == self.proposals@[i as int]@);
            let ghost prefix = mps.take(i as int);
            assert(mps.take(i + 1 as int).drop_last() =~= prefix);
            assert(mps.take(i + 1 as int).last() == mps[i as int]);
            let p = &self.proposals[i];
            if p.height == h && p.round == r {
                res.push(p.duplicate());
                assert(pvs(res@) =~= proposals_at(prefix, h, r).push(mps[i as int]));
                assert(proposals_at(mps.take(i + 1 as int), h, r) =~= proposals_at(
                    prefix,
                    h,
                    r,
                ).push(mps[i as int]));
            } else {
                assert(proposals_at(mps.take(i + 1 as int), h, r) =~= proposals_at(prefix, h, r));
            }
            i += 1;
        }
        assert(mps.take(self.proposals@.len() as int) =~= mps);
        res
    }
}

proof fn lemma_vset_update(pre: Seq<HeightValidators>, i: int, entry: HeightValidators, h: u64)
    requires
        0 <= i < pre.len(),
        entry.height == h,
        vset_idx(pre, h) == i,
    ensures
        vset_idx(pre.update(i, entry), h) == i,
        forall|h2: u64|
            h2 != h ==> #[trigger] vset_idx(pre.update(i, entry), h2) == vset_idx(pre, h2)
                && (vset_idx(pre, h2) != -1 ==> pre.update(i, entry)[vset_idx(pre, h2)]
                == pre[vset_idx(pre, h2)]),
{
    let post = pre.update(i, entry);
    lemma_first_idx(pre, |e: HeightValidators| e.height == h);
    lemma_first_idx(post, |e: HeightValidators| e.height == h);
    assert(post[i].height == h);
    let ti = vset_idx(post, h);
    assert(ti != -1);
    assert(ti <= i);
    assert(ti == i) by {
        if ti < i {
            assert(pre[ti] == post[ti]);
        }
    }
    assert forall|h2: u64| h2 != h implies #[trigger] vset_idx(post, h2) == vset_idx(pre, h2) && (
    vset_idx(pre, h2) != -1 ==> post[vset_idx(pre, h2)] == pre[vset_idx(pre, h2)]) by {
        lemma_first_idx(pre, |e: HeightValidators| e.height == h2);
        lemma_first_idx(post, |e: HeightValidators| e.height == h2);
        let a = vset_idx(pre, h2);
        let b = vset_idx(post, h2);
        assert(forall|j: int|
            0 <= j < pre.len() && j != i ==> post[j] == pre[j]);
        if a == -1 {
            assert(b == -1) by {
                if b != -1 {
                    assert(post[b].height == h2);
                    assert(b != i);
                }
            }
        } else {
            assert(pre[a].height == h2);
            assert(a != i) by {
                assert(pre[i].height == h);
            }
            assert(post[a].height == h2);
            assert(b != -1);
            assert(b <= a);
            assert(b == a) by {
                if b < a {
                    assert(post[b].height == h2);
                    assert(b != i);
                    assert(pre[b].height == h2);
                }
            }
        }
    }
}

proof fn lemma_vset_push(pre: Seq<HeightValidators>, entry: HeightValidators, h: u64)
    requires
        entry.height == h,
        vset_idx(pre, h) == -1,
    ensures
        vset_idx(pre.push(entry), h) == pre.len(),
        forall|h2: u64|
            h2 != h ==> #[trigger] vset_idx(pre.push(entry), h2) == vset_idx(pre, h2)
                && (vset_idx(pre, h2) != -1 ==> pre.push(entry)[vset_idx(pre, h2)]
                == pre[vset_idx(pre, h2)]),
{
    let post = pre.push(entry);
    lemma_first_idx(pre, |e: HeightValidators| e.height == h);
    lemma_first_idx(post, |e: HeightValidators| e.height == h);
    assert(post[pre.len() as int].height == h);
    let ti = vset_idx(post, h);
    assert(ti != -1);
    assert(ti == pre.len()) by {
        if ti < pre.len() {
            assert(pre[ti] == post[ti]);
        }
    }
    assert forall|h2: u64| h2 != h implies #[trigger] vset_idx(post, h2) == vset_idx(pre, h2) && (
    vset_idx(pre, h2) != -1 ==> post[vset_idx(pre, h2)] == pre[vset_idx(pre, h2)]) by {
        lemma_first_idx(pre, |e: HeightValidators| e.height == h2);
        lemma_first_idx(post, |e: HeightValidators| e.height == h2);
        let a = vset_idx(pre, h2);
        let b = vset_idx(post, h2);
        if a == -1 {
            assert(b == -1) by {
                if b != -1 {
                    assert(post[b].height == h2);
                    assert(b != pre.len());
                    assert(pre[b].height == h2);
                }
            }
        } else {
            assert(pre[a].height == h2);
            assert(post[a].height == h2);
            assert(b != -1);
            assert(b == a) by {
                if b < a {
                    assert(post[b].height == h2);
                    assert(pre[b].height == h2);
                }
            }
        }
    }
}

} // verus!
