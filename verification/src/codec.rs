//! Proposal streaming codec: the wire encoding of a value, the split of the
//! encoding into an ordered sequence of parts, and the facts that make
//! reassembly of those parts exact.

use vstd::prelude::*;
use crate::types::{Address, ProposalPart, ProposalPartModel, Round, Value, ValueModel};

verus! {

/// The smaller of two integers.
pub open spec fn min2(a: int, b: int) -> int {
    if a < b {
        a
    } else {
        b
    }
}

/// The eight big-endian bytes of a value identifier.
pub open spec fn id_bytes(id: u64) -> Seq<u8> {
    seq![
        (id >> 56) as u8,
        (id >> 48) as u8,
        (id >> 40) as u8,
        (id >> 32) as u8,
        (id >> 24) as u8,
        (id >> 16) as u8,
        (id >> 8) as u8,
        id as u8,
    ]
}

/// The identifier read back from the first eight bytes of an encoding.
pub open spec fn id_of_bytes(b: Seq<u8>) -> u64
    recommends
        b.len() >= 8,
{
    (((b[0] as u64) << 56) | ((b[1] as u64) << 48) | ((b[2] as u64) << 40) | ((b[3] as u64) << 32)
        | ((b[4] as u64) << 24) | ((b[5] as u64) << 16) | ((b[6] as u64) << 8) | (b[7] as u64)) as u64
}

/// Wire encoding of a value: eight big-endian identifier bytes, then the payload.
pub open spec fn encode_model(v: ValueModel) -> Seq<u8> {
    id_bytes(v.id) + v.payload
}

/// Decoding of wire bytes: fails exactly when fewer than eight bytes are given.
pub open spec fn decode_model(b: Seq<u8>) -> Option<ValueModel> {
    if b.len() < 8 {
        None
    } else {
        Some(ValueModel { id: id_of_bytes(b), payload: b.skip(8) })
    }
}

/// Reading the eight big-endian bytes of an identifier gives the identifier back.
pub proof fn lemma_id_roundtrip(id: u64)
    ensures
        id_of_bytes(id_bytes(id)) == id,
{
    let b = id_bytes(id);
    assert((((((id >> 56) as u8) as u64) << 56) | ((((id >> 48) as u8) as u64) << 48)
        | ((((id >> 40) as u8) as u64) << 40) | ((((id >> 32) as u8) as u64) << 32)
        | ((((id >> 24) as u8) as u64) << 24) | ((((id >> 16) as u8) as u64) << 16)
        | ((((id >> 8) as u8) as u64) << 8) | (((id as u8) as u64))) == id) by (bit_vector);
}

/// Decoding an encoding recovers the value exactly.
pub proof fn lemma_codec_roundtrip(v: ValueModel)
    ensures
        decode_model(encode_model(v)) == Some(v),
{
    let e = encode_model(v);
    lemma_id_roundtrip(v.id);
    assert(id_of_bytes(e) == id_of_bytes(id_bytes(v.id))) by {
        assert(e[0] == id_bytes(v.id)[0]);
        assert(e[1] == id_bytes(v.id)[1]);
        assert(e[2] == id_bytes(v.id)[2]);
        assert(e[3] == id_bytes(v.id)[3]);
        assert(e[4] == id_bytes(v.id)[4]);
        assert(e[5] == id_bytes(v.id)[5]);
        assert(e[6] == id_bytes(v.id)[6]);
        assert(e[7] == id_bytes(v.id)[7]);
    }
    assert(e.skip(8) =~= v.payload);
}

/// Encode a value for the wire.
pub fn encode_value(v: &Value) -> (r: Vec<u8>)
    ensures
        r@ == encode_model(v@),
{
    let mut r: Vec<u8> = Vec::new();
    r.push((v.id >> 56) as u8);
    r.push((v.id >> 48) as u8);
    r.push((v.id >> 40) as u8);
    r.push((v.id >> 32) as u8);
    r.push((v.id >> 24) as u8);
    r.push((v.id >> 16) as u8);
    r.push((v.id >> 8) as u8);
    r.push(v.id as u8);
    let mut i: usize = 0;
    while i < v.payload.len()
        invariant
            i <= v.payload@.len(),
            r@ == id_bytes(v.id) + v.payload@.take(i as int),
        decreases v.payload@.len() - i,
    {
        r.push(v.payload[i]);
        assert(r@ =~= id_bytes(v.id) + v.payload@.take(i + 1 as int));
        i += 1;
    }
    assert(r@ =~= encode_model(v@));
    r
}

/// Decode wire bytes into a value; `None` exactly when the bytes are too short.
pub fn decode_value(b: &Vec<u8>) -> (r: Option<Value>)
    ensures
        match r {
            Some(v) => decode_model(b@) == Some(v@),
            None => decode_model(b@) is None,
        },
{
    if b.len() < 8 {
        return None;
    }
    let id: u64 = ((b[0] as u64) << 56) | ((b[1] as u64) << 48) | ((b[2] as u64) << 40)
        | ((b[3] as u64) << 32) | ((b[4] as u64) << 24) | ((b[5] as u64) << 16)
        | ((b[6] as u64) << 8) | (b[7] as u64);
    let mut payload: Vec<u8> = Vec::new();
    let mut i: usize = 8;
    while i < b.len()
        invariant
            8 <= i <= b@.len(),
            payload@ == b@.subrange(8, i as int),
        decreases b@.len() - i,
    {
        payload.push(b[i]);
        assert(payload@ =~= b@.subrange(8, i + 1 as int));
        i += 1;
    }
    assert(payload@ =~= b@.skip(8));
    Some(Value { id, payload })
}

/// Number of parts that the encoding of `n` bytes is split into at part size
/// `p`: at least one, so that even an empty encoding carries a terminal part.
pub open spec fn num_chunks(n: int, p: int) -> int
    recommends
        p >= 1,
    decreases n,
{
    if n <= p || p < 1 {
        1
    } else {
        1 + num_chunks(n - p, p)
    }
}

/// The `i`-th chunk of `b` at part size `p`.
pub open spec fn chunk(b: Seq<u8>, p: int, i: int) -> Seq<u8> {
    b.subrange(i * p, min2(i * p + p, b.len() as int))
}

/// All chunks of `b` at part size `p`, in order.
pub open spec fn chunk_seq(b: Seq<u8>, p: int) -> Seq<Seq<u8>> {
    Seq::new(num_chunks(b.len() as int, p) as nat, |i: int| chunk(b, p, i))
}

/// Concatenation of a sequence of byte sequences.
pub open spec fn cat(s: Seq<Seq<u8>>) -> Seq<u8>
    decreases s.len(),
{
    if s.len() == 0 {
        Seq::empty()
    } else {
        s[0] + cat(s.drop_first())
    }
}

proof fn lemma_cat_cons(a: Seq<u8>, s: Seq<Seq<u8>>)
    ensures
        cat(seq![a] + s) == a + cat(s),
{
    let whole = seq![a] + s;
    assert(whole[0] == a);
    assert(whole.drop_first() =~= s);
}

/// There is always at least one chunk.
pub proof fn lemma_num_chunks_pos(n: int, p: int)
    ensures
        num_chunks(n, p) >= 1,
    decreases n,
{
    if !(n <= p || p < 1) {
        lemma_num_chunks_pos(n - p, p);
    }
}

/// How many chunks cover how many bytes: the last chunk ends exactly at the
/// end of the input.
pub proof fn lemma_num_chunks_bounds(n: int, p: int)
    requires
        p >= 1,
        n >= 1,
    ensures
        num_chunks(n, p) >= 1,
        num_chunks(n, p) <= n,
        (num_chunks(n, p) - 1) * p < n,
        n <= num_chunks(n, p) * p,
    decreases n,
{
    if n <= p {
        assert((1 - 1) * p == 0) by (nonlinear_arith);
        assert(1 * p == p) by (nonlinear_arith);
    } else {
        lemma_num_chunks_bounds(n - p, p);
        let m = num_chunks(n - p, p);
        assert(m * p == (m - 1) * p + p) by (nonlinear_arith);
        assert((m + 1) * p == m * p + p) by (nonlinear_arith);
    }
}

/// Splitting into chunks loses and reorders nothing: the chunks concatenate
/// back to the original bytes.
pub proof fn lemma_chunks_concat(b: Seq<u8>, p: int)
    requires
        p >= 1,
    ensures
        cat(chunk_seq(b, p)) == b,
    decreases b.len(),
{
    let n = b.len() as int;
    if n <= p {
        assert(num_chunks(n, p) == 1);
        assert(chunk(b, p, 0) =~= b);
        assert(chunk_seq(b, p) =~= seq![b]);
        assert(seq![b].drop_first() =~= Seq::<Seq<u8>>::empty());
        assert(cat(seq![b].drop_first()) == Seq::<u8>::empty());
        assert(b + Seq::<u8>::empty() =~= b);
    } else {
        let rest = b.skip(p);
        lemma_chunks_concat(rest, p);
        assert(chunk_seq(b, p) =~= seq![b.take(p)] + chunk_seq(rest, p)) by {
            assert(num_chunks(n, p) == 1 + num_chunks(n - p, p));
            assert(0 * p == 0) by (nonlinear_arith);
            assert(chunk(b, p, 0) =~= b.take(p));
            lemma_num_chunks_bounds(n, p);
            assert forall|i: int| 1 <= i < num_chunks(n, p) implies chunk(b, p, i) == chunk(
                rest,
                p,
                i - 1,
            ) by {
                assert(i * p == (i - 1) * p + p) by (nonlinear_arith);
                assert((i - 1) * p >= 0) by (nonlinear_arith)
                    requires
                        i >= 1,
                        p >= 1,
                ;
                assert(i * p <= (num_chunks(n, p) - 1) * p) by (nonlinear_arith)
                    requires
                        i <= num_chunks(n, p) - 1,
                        p >= 1,
                ;
                assert(chunk(b, p, i) =~= chunk(rest, p, i - 1));
            }
        }
        lemma_cat_cons(b.take(p), chunk_seq(rest, p));
        assert(b.take(p) + rest =~= b);
    }
}

/// The ordered sequence of parts that streaming `bytes` under the given
/// header fields produces: chunk `i` carries sequence number `i`, and only
/// the final chunk carries the terminal marker.
pub open spec fn stream_model(
    height: u64,
    round: Round,
    valid_round: Round,
    proposer: Seq<u8>,
    bytes: Seq<u8>,
    p: int,
) -> Seq<ProposalPartModel> {
    Seq::new(
        num_chunks(bytes.len() as int, p) as nat,
        |i: int|
            ProposalPartModel {
                height,
                round,
                valid_round,
                proposer,
                sequence: i as u64,
                data: chunk(bytes, p, i),
                last: i == num_chunks(bytes.len() as int, p) - 1,
            },
    )
}

/// The models of an ordered vector of parts.
pub open spec fn parts_models(parts: Seq<ProposalPart>) -> Seq<ProposalPartModel> {
    parts.map_values(|p: ProposalPart| p@)
}

/// Split wire bytes into the ordered, finite sequence of proposal parts.
/// The output is a function of the arguments alone, so streaming the same
/// value twice yields byte-identical parts.
pub fn split_into_parts(
    height: u64,
    round: Round,
    valid_round: Round,
    proposer: &Address,
    bytes: &Vec<u8>,
    part_size: usize,
) -> (parts: Vec<ProposalPart>)
    requires
        part_size >= 1,
    ensures
        parts_models(parts@) == stream_model(
            height,
            round,
            valid_round,
            proposer@,
            bytes@,
            part_size as int,
        ),
{
    let ghost model = stream_model(height, round, valid_round, proposer@, bytes@, part_size as int);
    let n = bytes.len();
    let mut parts: Vec<ProposalPart> = Vec::new();
    if n == 0 {
        parts.push(
            ProposalPart {
                height,
                round,
                valid_round,
                proposer: *proposer,
                sequence: 0,
                data: Vec::new(),
                last: true,
            },
        );
        assert(chunk(bytes@, part_size as int, 0) =~= Seq::<u8>::empty());
        assert(parts_models(parts@) =~= model);
        return parts;
    }
    let mut offset: usize = 0;
    let mut seqno: u64 = 0;
    while offset < n
        invariant
            part_size >= 1,
            n == bytes@.len(),
            model == stream_model(height, round, valid_round, proposer@, bytes@, part_size as int),
            offset <= n,
            offset < n ==> offset == seqno * part_size,
            seqno <= offset,
            parts@.len() == seqno,
            offset < n ==> num_chunks(n as int, part_size as int) == seqno + num_chunks(
                (n - offset) as int,
                part_size as int,
            ),
            offset == n ==> num_chunks(n as int, part_size as int) == seqno,
            forall|j: int| 0 <= j < seqno ==> parts@[j]@ == model[j],
        decreases n - offset,
    {
        let end = if n - offset > part_size {
            offset + part_size
        } else {
            n
        };
        let mut data: Vec<u8> = Vec::new();
        let mut k = offset;
        while k < end
            invariant
                offset <= k <= end <= n,
                n == bytes@.len(),
                data@ == bytes@.subrange(offset as int, k as int),
            decreases end - k,
        {
            data.push(bytes[k]);
            assert(data@ =~= bytes@.subrange(offset as int, k + 1 as int));
            k += 1;
        }
        let last = end == n;
        let part = ProposalPart {
            height,
            round,
            valid_round,
            proposer: *proposer,
            sequence: seqno,
            data,
            last,
        };
        proof {
            let np = num_chunks(n as int, part_size as int);
            let s = seqno as int;
            let p = part_size as int;
            assert(s * p + p == (s + 1) * p) by (nonlinear_arith);
            assert(part.data@ =~= chunk(bytes@, p, s));
            if last {
                assert(num_chunks((n - offset) as int, p) == 1);
                assert(np == s + 1);
            } else {
                assert(num_chunks((n - offset) as int, p) == 1 + num_chunks(
                    (n - (offset + part_size)) as int,
                    p,
                ));
                lemma_num_chunks_pos((n - (offset + part_size)) as int, p);
                assert(np >= s + 2);
            }
            assert(part@ == model[s]);
        }
        parts.push(part);
        offset = end;
        seqno += 1;
    }
    assert(parts_models(parts@) =~= model);
    parts
}

} // verus!
