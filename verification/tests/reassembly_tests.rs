//! Tests of part reassembly: the split/feed round trip, gap detection, and
//! independence of keys.

use reth_malachite::codec::{encode_value, split_into_parts};
use reth_malachite::reassembly::Reassembler;
use reth_malachite::types::{Address, Round, Value};

fn addr(n: u8) -> Address {
    Address::new([n; 20])
}

#[test]
fn feeding_all_parts_in_order_yields_original_bytes() {
    let v = Value { id: 11, payload: (0u8..50).collect() };
    let bytes = encode_value(&v);
    let parts = split_into_parts(5, Round::At(0), Round::Nil, &addr(1), &bytes, 7);
    let mut r = Reassembler::new();
    let mut completed = None;
    for p in &parts {
        let out = r.feed(&addr(1), p);
        if p.last {
            completed = out;
        } else {
            assert!(out.is_none());
        }
    }
    assert_eq!(completed.expect("the terminal part completes"), bytes);
}

#[test]
fn missing_part_never_completes() {
    let v = Value { id: 12, payload: (0u8..40).collect() };
    let bytes = encode_value(&v);
    let parts = split_into_parts(5, Round::At(0), Round::Nil, &addr(1), &bytes, 6);
    assert!(parts.len() >= 4);
    let mut r = Reassembler::new();
    for (i, p) in parts.iter().enumerate() {
        if i == 2 {
            continue; // the gap
        }
        assert!(r.feed(&addr(1), p).is_none());
    }
}

#[test]
fn out_of_order_part_is_rejected_without_corruption() {
    let v = Value { id: 13, payload: (0u8..20).collect() };
    let bytes = encode_value(&v);
    let parts = split_into_parts(5, Round::At(0), Round::Nil, &addr(1), &bytes, 5);
    let mut r = Reassembler::new();
    // A later part first: rejected, the slot stays fresh.
    assert!(r.feed(&addr(1), &parts[1]).is_none());
    // The full stream in order still completes with the exact bytes.
    let mut completed = None;
    for p in &parts {
        completed = r.feed(&addr(1), p);
    }
    assert_eq!(completed.expect("in-order stream completes"), bytes);
}

#[test]
fn keys_are_reassembled_independently() {
    let v1 = Value { id: 21, payload: vec![1; 9] };
    let v2 = Value { id: 22, payload: vec![2; 9] };
    let b1 = encode_value(&v1);
    let b2 = encode_value(&v2);
    let p1 = split_into_parts(5, Round::At(0), Round::Nil, &addr(1), &b1, 4);
    let p2 = split_into_parts(5, Round::At(0), Round::Nil, &addr(2), &b2, 4);
    let mut r = Reassembler::new();
    // Interleave the two senders' streams.
    let mut done1 = None;
    let mut done2 = None;
    for i in 0..p1.len().max(p2.len()) {
        if i < p1.len() {
            let out = r.feed(&addr(1), &p1[i]);
            if p1[i].last {
                done1 = out;
            }
        }
        if i < p2.len() {
            let out = r.feed(&addr(2), &p2[i]);
            if p2[i].last {
                done2 = out;
            }
        }
    }
    assert_eq!(done1.expect("first stream completes"), b1);
    assert_eq!(done2.expect("second stream completes"), b2);
}
