//! Reassembly of streamed proposal parts: partial state is kept per
//! (height, round, proposer) key, parts are accepted strictly in sequence
//! order, and a value is completed only by the terminal part with no gaps.

use vstd::prelude::*;
use crate::codec::{chunk, min2, num_chunks, stream_model, lemma_num_chunks_bounds};
use crate::codec::{decode_model, encode_model, lemma_codec_roundtrip};
use crate::types::ValueModel;
use crate::types::{addr_eq, copy_bytes, Address, ProposalPart, ProposalPartModel, Round};

verus! {

/// Mathematical model of one partial reassembly.
pub struct SlotModel {
    pub height: u64,
    pub round: Round,
    pub proposer: Seq<u8>,
    pub next_seq: u64,
    pub buf: Seq<u8>,
}

/// Partial reassembly state for one (height, round, proposer) key.
pub struct StreamSlot {
    pub height: u64,
    pub round: Round,
    pub proposer: Address,
    pub next_seq: u64,
    pub buf: Vec<u8>,
}

impl View for StreamSlot {
    type V = SlotModel;

    open spec fn view(&self) -> SlotModel {
        SlotModel {
            height: self.height,
            round: self.round,
            proposer: self.proposer@,
            next_seq: self.next_seq,
            buf: self.buf@,
        }
    }
}

/// Whether a slot carries the given key.
pub open spec fn slot_has_key(s: SlotModel, height: u64, round: Round, proposer: Seq<u8>) -> bool {
    s.height == height && s.round == round && s.proposer == proposer
}

/// Index of the slot with the given key, or -1 if none holds it.
pub open spec fn slot_idx(rs: Seq<SlotModel>, height: u64, round: Round, proposer: Seq<u8>) -> int
    decreases rs.len(),
{
    if rs.len() == 0 {
        -1
    } else if slot_has_key(rs[0], height, round, proposer) {
        0
    } else {
        let t = slot_idx(rs.drop_first(), height, round, proposer);
        if t == -1 {
            -1
        } else {
            1 + t
        }
    }
}

/// The found index is in range, holds the key, and no earlier slot does.
pub proof fn lemma_slot_idx(rs: Seq<SlotModel>, height: u64, round: Round, proposer: Seq<u8>)
    ensures
        slot_idx(rs, height, round, proposer) == -1 ==> forall|i: int|
            0 <= i < rs.len() ==> !slot_has_key(rs[i], height, round, proposer),
        slot_idx(rs, height, round, proposer) != -1 ==> {
            let t = slot_idx(rs, height, round, proposer);
            &&& 0 <= t < rs.len()
            &&& slot_has_key(rs[t], height, round, proposer)
            &&& forall|i: int| 0 <= i < t ==> !slot_has_key(rs[i], height, round, proposer)
        },
    decreases rs.len(),
{
    if rs.len() != 0 && !slot_has_key(rs[0], height, round, proposer) {
        lemma_slot_idx(rs.drop_first(), height, round, proposer);
        assert(forall|i: int|
            1 <= i < rs.len() ==> rs[i] == rs.drop_first()[i - 1]);
    }
}

/// A part is taken only when it is exactly the next one awaited. The bound on
/// `next` keeps the awaited sequence number from wrapping; a non-terminal
/// part numbered at the top of the range could never be followed anyway.
pub open spec fn part_accepted(next: u64, p: ProposalPartModel) -> bool {
    p.sequence == next && (p.last || next < u64::MAX)
}

/// The model of an optional byte vector.
pub open spec fn bytes_opt_model(o: Option<Vec<u8>>) -> Option<Seq<u8>> {
    match o {
        Some(b) => Some(b@),
        None => None,
    }
}

/// No two slots share a (height, round, proposer) key.
pub open spec fn reasm_wf(rs: Seq<SlotModel>) -> bool {
    forall|i: int, j: int|
        0 <= i < j < rs.len() ==> !slot_has_key(
            #[trigger] rs[j],
            (#[trigger] rs[i]).height,
            rs[i].round,
            rs[i].proposer,
        )
}

/// The sequence number the slot for `pm`'s key awaits: a fresh slot awaits 0.
pub open spec fn awaited_seq(pre: Seq<SlotModel>, from: Seq<u8>, pm: ProposalPartModel) -> u64 {
    let t = slot_idx(pre, pm.height, pm.round, from);
    if t == -1 {
        0
    } else {
        pre[t].next_seq
    }
}

/// The bytes the slot for `pm`'s key has gathered so far.
pub open spec fn gathered(pre: Seq<SlotModel>, from: Seq<u8>, pm: ProposalPartModel) -> Seq<u8> {
    let t = slot_idx(pre, pm.height, pm.round, from);
    if t == -1 {
        Seq::empty()
    } else {
        pre[t].buf
    }
}

/// The complete bytes that feeding one part hands out: only an accepted
/// terminal part completes, with everything gathered before it.
pub open spec fn feed_completed(pre: Seq<SlotModel>, from: Seq<u8>, pm: ProposalPartModel) -> Option<
    Seq<u8>,
> {
    if part_accepted(awaited_seq(pre, from, pm), pm) && pm.last {
        Some(gathered(pre, from, pm) + pm.data)
    } else {
        None
    }
}

/// The reassembly state after feeding one part from one sender: a rejected
/// part changes nothing, a completed slot is retired, an accepted
/// non-terminal part extends its slot (fresh if absent).
pub open spec fn feed_next(pre: Seq<SlotModel>, from: Seq<u8>, pm: ProposalPartModel) -> Seq<
    SlotModel,
> {
    let t = slot_idx(pre, pm.height, pm.round, from);
    let next0 = awaited_seq(pre, from, pm);
    let buf0 = gathered(pre, from, pm);
    if !part_accepted(next0, pm) {
        pre
    } else if pm.last {
        if t == -1 {
            pre
        } else {
            pre.remove(t)
        }
    } else {
        let ns = SlotModel {
            height: pm.height,
            round: pm.round,
            proposer: from,
            next_seq: (next0 + 1) as u64,
            buf: buf0 + pm.data,
        };
        if t == -1 {
            pre.push(ns)
        } else {
            pre.update(t, ns)
        }
    }
}

/// What feeding one part from one sender does to the whole reassembly state.
pub open spec fn feed_rel(
    pre: Seq<SlotModel>,
    from: Seq<u8>,
    pm: ProposalPartModel,
    post: Seq<SlotModel>,
    out: Option<Seq<u8>>,
) -> bool {
    post == feed_next(pre, from, pm) && out == feed_completed(pre, from, pm)
}

/// The reassembly state after feeding an ordered sequence of parts from one
/// sender, one by one.
pub open spec fn map_feed_next(
    rs: Seq<SlotModel>,
    from: Seq<u8>,
    parts: Seq<ProposalPartModel>,
) -> Seq<SlotModel>
    decreases parts.len(),
{
    if parts.len() == 0 {
        rs
    } else {
        map_feed_next(feed_next(rs, from, parts[0]), from, parts.drop_first())
    }
}

/// The completion that the final part of an ordered sequence produces when
/// the parts are fed one by one from one sender.
pub open spec fn map_feed_outcome(
    rs: Seq<SlotModel>,
    from: Seq<u8>,
    parts: Seq<ProposalPartModel>,
) -> Option<Seq<u8>>
    decreases parts.len(),
{
    if parts.len() == 0 {
        None
    } else if parts.len() == 1 {
        feed_completed(rs, from, parts[0])
    } else {
        map_feed_outcome(feed_next(rs, from, parts[0]), from, parts.drop_first())
    }
}

/// Iterated feeding unrolls from the back: the state after all parts is one
/// step past the state after all but the last, and the outcome is what that
/// final step completes.
pub proof fn lemma_map_feed_snoc(
    rs: Seq<SlotModel>,
    from: Seq<u8>,
    parts: Seq<ProposalPartModel>,
)
    requires
        parts.len() >= 1,
    ensures
        map_feed_next(rs, from, parts) == feed_next(
            map_feed_next(rs, from, parts.drop_last()),
            from,
            parts.last(),
        ),
        map_feed_outcome(rs, from, parts) == feed_completed(
            map_feed_next(rs, from, parts.drop_last()),
            from,
            parts.last(),
        ),
    decreases parts.len(),
{
    if parts.len() == 1 {
        let stepped = feed_next(rs, from, parts[0]);
        assert(parts.drop_last() =~= Seq::<ProposalPartModel>::empty());
        assert(parts.drop_first() =~= Seq::<ProposalPartModel>::empty());
        assert(map_feed_next(rs, from, parts) == map_feed_next(stepped, from, parts.drop_first()));
        assert(map_feed_next(stepped, from, parts.drop_first()) == stepped);
        assert(map_feed_next(rs, from, parts.drop_last()) == rs);
        assert(parts.last() == parts[0]);
    } else {
        let stepped = feed_next(rs, from, parts[0]);
        lemma_map_feed_snoc(stepped, from, parts.drop_first());
        assert(parts.drop_first().drop_last() =~= parts.drop_last().drop_first());
        assert(parts.drop_first().last() == parts.last());
        assert(parts.drop_last()[0] == parts[0]);
        assert(parts.drop_last().len() >= 1);
        assert(map_feed_next(rs, from, parts) == map_feed_next(stepped, from, parts.drop_first()));
        assert(map_feed_outcome(rs, from, parts) == map_feed_outcome(
            stepped,
            from,
            parts.drop_first(),
        ));
        assert(map_feed_next(rs, from, parts.drop_last()) == map_feed_next(
            stepped,
            from,
            parts.drop_last().drop_first(),
        ));
    }
}

/// Accepting a non-terminal part advances its key's slot exactly one step:
/// the awaited sequence number grows by one and the part's bytes join what
/// was gathered, whatever other slots the reassembler holds.
pub proof fn lemma_feed_tracks_slot(
    rs: Seq<SlotModel>,
    from: Seq<u8>,
    pm: ProposalPartModel,
    pm2: ProposalPartModel,
)
    requires
        pm2.height == pm.height,
        pm2.round == pm.round,
        part_accepted(awaited_seq(rs, from, pm), pm),
        !pm.last,
    ensures
        awaited_seq(feed_next(rs, from, pm), from, pm2) == awaited_seq(rs, from, pm) + 1,
        gathered(feed_next(rs, from, pm), from, pm2) == gathered(rs, from, pm) + pm.data,
{
    let t = slot_idx(rs, pm.height, pm.round, from);
    let next0 = awaited_seq(rs, from, pm);
    let buf0 = gathered(rs, from, pm);
    let ns = SlotModel {
        height: pm.height,
        round: pm.round,
        proposer: from,
        next_seq: (next0 + 1) as u64,
        buf: buf0 + pm.data,
    };
    let post = feed_next(rs, from, pm);
    lemma_slot_idx(rs, pm.height, pm.round, from);
    lemma_slot_idx(post, pm.height, pm.round, from);
    let t2 = slot_idx(post, pm.height, pm.round, from);
    if t == -1 {
        assert(post == rs.push(ns));
        assert(slot_has_key(post[rs.len() as int], pm.height, pm.round, from));
        assert(t2 != -1) by {
            if t2 == -1 {
                assert(!slot_has_key(post[rs.len() as int], pm.height, pm.round, from));
            }
        }
        assert(t2 == rs.len()) by {
            if t2 < rs.len() {
                assert(post[t2] == rs[t2]);
                assert(!slot_has_key(rs[t2], pm.height, pm.round, from));
            }
        }
    } else {
        assert(post == rs.update(t, ns));
        assert(slot_has_key(post[t], pm.height, pm.round, from));
        assert(t2 != -1) by {
            if t2 == -1 {
                assert(!slot_has_key(post[t], pm.height, pm.round, from));
            }
        }
        assert(t2 == t) by {
            if t2 < t {
                assert(post[t2] == rs[t2]);
                assert(!slot_has_key(rs[t2], pm.height, pm.round, from));
            }
        }
    }
}

proof fn lemma_map_feed_suffix(
    rs: Seq<SlotModel>,
    from: Seq<u8>,
    bytes: Seq<u8>,
    p: int,
    parts: Seq<ProposalPartModel>,
    k: int,
)
    requires
        p >= 1,
        bytes.len() >= 1,
        bytes.len() < u64::MAX,
        parts.len() == num_chunks(bytes.len() as int, p),
        forall|i: int| 0 <= i < parts.len() ==> (#[trigger] parts[i]).sequence == i as u64,
        forall|i: int| 0 <= i < parts.len() ==> (#[trigger] parts[i]).data == chunk(bytes, p, i),
        forall|i: int|
            0 <= i < parts.len() ==> ((#[trigger] parts[i]).last <==> i == parts.len() - 1),
        forall|i: int|
            0 <= i < parts.len() ==> (#[trigger] parts[i]).height == parts[0].height && parts[i].round
                == parts[0].round,
        0 <= k < parts.len(),
        awaited_seq(rs, from, parts[k]) == k as u64,
        gathered(rs, from, parts[k]) == bytes.take(k * p),
    ensures
        map_feed_outcome(rs, from, parts.skip(k)) == Some(bytes),
    decreases parts.len() - k,
{
    let n = bytes.len() as int;
    let m = parts.len() as int;
    lemma_num_chunks_bounds(n, p);
    assert(k * p <= (m - 1) * p && (m - 1) * p >= 0) by (nonlinear_arith)
        requires
            0 <= k <= m - 1,
            p >= 1,
    ;
    let rest = parts.skip(k);
    assert(rest[0] == parts[k]);
    if k == m - 1 {
        assert(parts[k].last);
        assert(part_accepted(k as u64, parts[k]));
        assert(m * p == (m - 1) * p + p) by (nonlinear_arith);
        assert(chunk(bytes, p, k) == bytes.subrange(k * p, n));
        assert(bytes.take(k * p) + bytes.subrange(k * p, n) =~= bytes);
        assert(rest.len() == 1);
    } else {
        assert(!parts[k].last);
        assert((k as u64) < u64::MAX) by {
            assert(m <= n);
        }
        assert(part_accepted(k as u64, parts[k]));
        assert((k + 1) * p == k * p + p) by (nonlinear_arith);
        assert((k + 1) * p <= (m - 1) * p) by (nonlinear_arith)
            requires
                k + 1 <= m - 1,
                p >= 1,
        ;
        assert(min2(k * p + p, n) == k * p + p);
        assert(bytes.take(k * p) + chunk(bytes, p, k) =~= bytes.take((k + 1) * p));
        lemma_feed_tracks_slot(rs, from, parts[k], parts[k + 1]);
        assert(rest.drop_first() =~= parts.skip(k + 1));
        lemma_map_feed_suffix(feed_next(rs, from, parts[k]), from, bytes, p, parts, k + 1);
        assert(feed_completed(rs, from, parts[k]) is None);
    }
}

/// Round trip against the whole reassembler: splitting a value's bytes and
/// feeding every part, in order, from one sender into a reassembler that
/// holds no slot for that key yet completes with exactly the original bytes,
/// whatever other keys it is reassembling.
pub proof fn lemma_reassembler_roundtrip(
    rs: Seq<SlotModel>,
    from: Seq<u8>,
    height: u64,
    round: Round,
    valid_round: Round,
    proposer: Seq<u8>,
    bytes: Seq<u8>,
    p: int,
)
    requires
        p >= 1,
        bytes.len() < u64::MAX,
        slot_idx(rs, height, round, from) == -1,
    ensures
        map_feed_outcome(
            rs,
            from,
            stream_model(height, round, valid_round, proposer, bytes, p),
        ) == Some(bytes),
{
    let parts = stream_model(height, round, valid_round, proposer, bytes, p);
    if bytes.len() == 0 {
        assert(num_chunks(0, p) == 1);
        assert(parts.len() == 1);
        assert(parts[0].data =~= Seq::<u8>::empty());
        assert(parts[0].last);
        assert(awaited_seq(rs, from, parts[0]) == 0);
        assert(part_accepted(0, parts[0]));
        assert(gathered(rs, from, parts[0]) + parts[0].data =~= bytes);
    } else {
        lemma_num_chunks_bounds(bytes.len() as int, p);
        assert(0 * p == 0) by (nonlinear_arith);
        assert(bytes.take(0) =~= Seq::<u8>::empty());
        assert(awaited_seq(rs, from, parts[0]) == 0);
        assert(gathered(rs, from, parts[0]) =~= bytes.take(0));
        lemma_map_feed_suffix(rs, from, bytes, p, parts, 0);
        assert(parts.skip(0) =~= parts);
    }
}

/// Round trip at the value level: encoding a value, splitting the encoding
/// into parts of any size and feeding all parts, in order, to the
/// reassembler completes with bytes that decode back to exactly the value
/// that was streamed.
pub proof fn lemma_value_stream_roundtrip(
    rs: Seq<SlotModel>,
    from: Seq<u8>,
    height: u64,
    round: Round,
    valid_round: Round,
    proposer: Seq<u8>,
    v: ValueModel,
    p: int,
)
    requires
        p >= 1,
        encode_model(v).len() < u64::MAX,
        slot_idx(rs, height, round, from) == -1,
    ensures
        match map_feed_outcome(
            rs,
            from,
            stream_model(height, round, valid_round, proposer, encode_model(v), p),
        ) {
            Some(bytes) => decode_model(bytes) == Some(v),
            None => false,
        },
{
    lemma_reassembler_roundtrip(rs, from, height, round, valid_round, proposer, encode_model(v), p);
    lemma_codec_roundtrip(v);
}

/// Parts that never carry their key's awaited sequence number are all
/// rejected by the reassembler: nothing changes and nothing completes.
pub proof fn lemma_map_feed_rejects_all(
    rs: Seq<SlotModel>,
    from: Seq<u8>,
    parts: Seq<ProposalPartModel>,
)
    requires
        forall|i: int|
            0 <= i < parts.len() ==> (#[trigger] parts[i]).sequence != awaited_seq(
                rs,
                from,
                parts[i],
            ),
    ensures
        map_feed_outcome(rs, from, parts) is None,
        map_feed_next(rs, from, parts) == rs,
    decreases parts.len(),
{
    if parts.len() != 0 {
        assert(!part_accepted(awaited_seq(rs, from, parts[0]), parts[0]));
        assert(feed_next(rs, from, parts[0]) == rs);
        assert(forall|i: int|
            0 <= i < parts.drop_first().len() ==> parts.drop_first()[i] == parts[i + 1]);
        lemma_map_feed_rejects_all(rs, from, parts.drop_first());
    }
}

proof fn lemma_map_gap_prefix(
    rs: Seq<SlotModel>,
    from: Seq<u8>,
    bytes: Seq<u8>,
    p: int,
    parts: Seq<ProposalPartModel>,
    k: int,
    j: int,
)
    requires
        p >= 1,
        bytes.len() < u64::MAX,
        parts.len() == num_chunks(bytes.len() as int, p),
        parts.len() <= bytes.len() + 1,
        forall|i: int| 0 <= i < parts.len() ==> (#[trigger] parts[i]).sequence == i as u64,
        forall|i: int| 0 <= i < parts.len() ==> (#[trigger] parts[i]).data == chunk(bytes, p, i),
        forall|i: int|
            0 <= i < parts.len() ==> ((#[trigger] parts[i]).last <==> i == parts.len() - 1),
        forall|i: int|
            0 <= i < parts.len() ==> (#[trigger] parts[i]).height == parts[0].height && parts[i].round
                == parts[0].round,
        0 <= k < parts.len(),
        0 <= j <= k,
        awaited_seq(rs, from, parts[k]) == j as u64,
        gathered(rs, from, parts[k]) == bytes.take(j * p),
    ensures
        map_feed_outcome(rs, from, parts.remove(k).skip(j)) is None,
    decreases k - j,
{
    let n = bytes.len() as int;
    let m = parts.len() as int;
    let q = parts.remove(k);
    if j == k {
        let tail = q.skip(j);
        assert(tail =~= parts.skip(k + 1));
        assert(forall|i: int| 0 <= i < tail.len() ==> tail[i] == parts[i + k + 1]);
        assert forall|i: int| 0 <= i < tail.len() implies (#[trigger] tail[i]).sequence
            != awaited_seq(rs, from, tail[i]) by {
            assert(parts[i + k + 1].sequence == (i + k + 1) as u64);
            assert(awaited_seq(rs, from, tail[i]) == awaited_seq(rs, from, parts[k])) by {
                assert(tail[i].height == parts[0].height && tail[i].round == parts[0].round);
                assert(parts[k].height == parts[0].height && parts[k].round == parts[0].round);
            }
            assert(i + k + 1 <= m <= n + 1);
        }
        lemma_map_feed_rejects_all(rs, from, tail);
    } else {
        assert(q.skip(j)[0] == q[j]);
        assert(q[j] == parts[j]);
        assert(parts[j].sequence == j as u64) by {
            assert(awaited_seq(rs, from, parts[j]) == awaited_seq(rs, from, parts[k]));
        }
        assert(!parts[j].last) by {
            assert(j < k < m);
        }
        assert(m >= 2);
        assert(n >= 1) by {
            assert(num_chunks(0, p) == 1);
        }
        lemma_num_chunks_bounds(n, p);
        assert((j as u64) < u64::MAX) by {
            assert(j < m <= n + 1);
        }
        assert(awaited_seq(rs, from, parts[j]) == j as u64);
        assert(gathered(rs, from, parts[j]) == bytes.take(j * p));
        assert(part_accepted(j as u64, parts[j]));
        assert(j + 1 <= m - 1);
        assert((j + 1) * p == j * p + p) by (nonlinear_arith);
        assert(j * p >= 0 && (j + 1) * p <= (m - 1) * p) by (nonlinear_arith)
            requires
                0 <= j,
                j + 1 <= m - 1,
                p >= 1,
        ;
        assert((m - 1) * p < n);
        assert(min2(j * p + p, n) == j * p + p);
        assert(bytes.take(j * p) + chunk(bytes, p, j) =~= bytes.take((j + 1) * p));
        lemma_feed_tracks_slot(rs, from, parts[j], parts[k]);
        assert(q.skip(j).drop_first() =~= q.skip(j + 1));
        assert(feed_completed(rs, from, parts[j]) is None);
        lemma_map_gap_prefix(feed_next(rs, from, parts[j]), from, bytes, p, parts, k, j + 1);
        assert(q.len() == m - 1);
        if q.skip(j).len() == 1 {
            // The accepted part is not terminal, so the lone step completes
            // nothing.
            assert(map_feed_outcome(rs, from, q.skip(j)) == feed_completed(rs, from, parts[j]));
        }
    }
}

/// A missing part is fatal for the whole reassembler too: feeding the stream
/// of a value with any one part left out, from one sender into a reassembler
/// with no slot for that key yet, never completes anything for that key.
pub proof fn lemma_reassembler_missing_part(
    rs: Seq<SlotModel>,
    from: Seq<u8>,
    height: u64,
    round: Round,
    valid_round: Round,
    proposer: Seq<u8>,
    bytes: Seq<u8>,
    p: int,
    k: int,
)
    requires
        p >= 1,
        bytes.len() < u64::MAX,
        slot_idx(rs, height, round, from) == -1,
        0 <= k < stream_model(height, round, valid_round, proposer, bytes, p).len(),
    ensures
        map_feed_outcome(
            rs,
            from,
            stream_model(height, round, valid_round, proposer, bytes, p).remove(k),
        ) is None,
{
    let parts = stream_model(height, round, valid_round, proposer, bytes, p);
    if bytes.len() == 0 {
        assert(num_chunks(0, p) == 1);
    } else {
        lemma_num_chunks_bounds(bytes.len() as int, p);
    }
    assert(parts.len() <= bytes.len() + 1);
    assert(0 * p == 0) by (nonlinear_arith);
    assert(awaited_seq(rs, from, parts[k]) == 0);
    assert(gathered(rs, from, parts[k]) =~= bytes.take(0));
    lemma_map_gap_prefix(rs, from, bytes, p, parts, k, 0);
    assert(parts.remove(k).skip(0) =~= parts.remove(k));
}

/// Reassembles streamed proposal parts, one partial state per
/// (height, round, proposer) key.
pub struct Reassembler {
    pub slots: Vec<StreamSlot>,
}

impl View for Reassembler {
    type V = Seq<SlotModel>;

    open spec fn view(&self) -> Seq<SlotModel> {
        self.slots@.map_values(|s: StreamSlot| s@)
    }
}

impl Reassembler {
    /// Fresh reassembler with no partial state.
    pub fn new() -> (r: Reassembler)
        ensures
            r@.len() == 0,
            reasm_wf(r@),
    {
        let r = Reassembler { slots: Vec::new() };
        assert(r@ =~= Seq::<SlotModel>::empty());
        r
    }

    fn find_slot(&self, height: u64, round: Round, proposer: &Address) -> (r: Option<usize>)
        ensures
            match r {
                Some(i) => {
                    &&& i < self@.len()
                    &&& slot_has_key(self@[i as int], height, round, proposer@)
                    &&& forall|j: int|
                        0 <= j < i ==> !slot_has_key(#[trigger] self@[j], height, round, proposer@)
                },
                None => forall|j: int|
                    0 <= j < self@.len() ==> !slot_has_key(
                        #[trigger] self@[j],
                        height,
                        round,
                        proposer@,
                    ),
            },
    {
        let mut i: usize = 0;
        while i < self.slots.len()
            invariant
                i <= self@.len(),
                self@.len() == self.slots@.len(),
                forall|j: int|
                    0 <= j < i ==> !slot_has_key(#[trigger] self@[j], height, round, proposer@),
            decreases self.slots.len() - i,
        {
            let s = &self.slots[i];
            if s.height == height && s.round == round && addr_eq(&s.proposer, proposer) {
                return Some(i);
            }
            i += 1;
        }
        None
    }

    /// Feed one received part from one sender. Returns the complete gathered
    /// bytes exactly when this part is the terminal one of its key's stream
    /// and every earlier part arrived in sequence with no gap.
    pub fn feed(&mut self, from: &Address, part: &ProposalPart) -> (out: Option<Vec<u8>>)
        requires
            reasm_wf(old(self)@),
        ensures
            reasm_wf(final(self)@),
            feed_rel(old(self)@, from@, part@, final(self)@, bytes_opt_model(out)),
    {
        let ghost pre = self@;
        let found = self.find_slot(part.height, part.round, from);
        proof {
            lemma_slot_idx(pre, part.height, part.round, from@);
        }
        match found {
            None => {
                proof {
                    assert(slot_idx(pre, part.height, part.round, from@) == -1) by {
                        if slot_idx(pre, part.height, part.round, from@) != -1 {
                            let t = slot_idx(pre, part.height, part.round, from@);
                            assert(slot_has_key(pre[t], part.height, part.round, from@));
                        }
                    }
                }
                if part.sequence != 0 {
                    return None;
                }
                if part.last {
                    let out = copy_bytes(&part.data);
                    assert(Seq::<u8>::empty() + part.data@ =~= out@);
                    Some(out)
                } else {
                    let slot = StreamSlot {
                        height: part.height,
                        round: part.round,
                        proposer: *from,
                        next_seq: 1,
                        buf: copy_bytes(&part.data),
                    };
                    proof {
                        assert(Seq::<u8>::empty() + part.data@ =~= slot@.buf);
                    }
                    self.slots.push(slot);
                    proof {
                        assert(self@ =~= pre.push(slot@));
                        assert forall|i: int, j: int| 0 <= i < j < self@.len() implies !slot_has_key(
                            self@[j],
                            self@[i].height,
                            self@[i].round,
                            self@[i].proposer,
                        ) by {
                            if j == self@.len() - 1 {
                                assert(!slot_has_key(pre[i], part.height, part.round, from@));
                            }
                        }
                    }
                    None
                }
            },
            Some(i) => {
                let ghost t = slot_idx(pre, part.height, part.round, from@);
                proof {
                    assert(t != -1) by {
                        if t == -1 {
                            assert(!slot_has_key(pre[i as int], part.height, part.round, from@));
                        }
                    }
                    assert(t == i as int) by {
                        if t < i as int {
                            assert(!slot_has_key(pre[t], part.height, part.round, from@));
                        }
                        if t > i as int {
                            assert(!slot_has_key(pre[i as int], part.height, part.round, from@));
                        }
                    }
                }
                let next0 = self.slots[i].next_seq;
                let accepted = part.sequence == next0 && (part.last || next0 < u64::MAX);
                if !accepted {
                    return None;
                }
                let mut slot = self.slots.remove(i);
                let ghost buf0 = slot.buf@;
                let mut k: usize = 0;
                while k < part.data.len()
                    invariant
                        k <= part.data@.len(),
                        slot.buf@ == buf0 + part.data@.take(k as int),
                        slot.height == part.height,
                        slot.round == part.round,
                        slot.proposer@ == from@,
                        slot.next_seq == next0,
                    decreases part.data@.len() - k,
                {
                    slot.buf.push(part.data[k]);
                    assert(slot.buf@ =~= buf0 + part.data@.take(k + 1 as int));
                    k += 1;
                }
                assert(slot.buf@ =~= buf0 + part.data@);
                if part.last {
                    proof {
                        assert(self@ =~= pre.remove(i as int));
                        assert forall|a: int, b: int| 0 <= a < b < self@.len() implies !slot_has_key(
                            self@[b],
                            self@[a].height,
                            self@[a].round,
                            self@[a].proposer,
                        ) by {
                            let a0 = if a < i as int {
                                a
                            } else {
                                a + 1
                            };
                            let b0 = if b < i as int {
                                b
                            } else {
                                b + 1
                            };
                            assert(!slot_has_key(pre[b0], pre[a0].height, pre[a0].round, pre[a0].proposer));
                        }
                    }
                    Some(slot.buf)
                } else {
                    slot.next_seq = next0 + 1;
                    let ghost ns = slot@;
                    self.slots.insert(i, slot);
                    proof {
                        assert(self@ =~= pre.update(i as int, ns));
                        assert forall|a: int, b: int| 0 <= a < b < self@.len() implies !slot_has_key(
                            self@[b],
                            self@[a].height,
                            self@[a].round,
                            self@[a].proposer,
                        ) by {
                            assert(slot_has_key(ns, pre[i as int].height, pre[i as int].round, pre[i as int].proposer));
                            assert(!slot_has_key(pre[b], pre[a].height, pre[a].round, pre[a].proposer));
                        }
                    }
                    None
                }
            },
        }
    }
}


} // verus!
