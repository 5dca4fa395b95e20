//! Tests of the wire codec: value encoding and splitting into parts.

use reth_malachite::codec::{decode_value, encode_value, split_into_parts};
use reth_malachite::types::{Address, Round, Value};

fn addr(n: u8) -> Address {
    Address::new([n; 20])
}

#[test]
fn encode_is_id_then_payload() {
    let v = Value { id: 0x0102030405060708, payload: vec![9, 10, 11] };
    let bytes = encode_value(&v);
    assert_eq!(bytes, vec![1, 2, 3, 4, 5, 6, 7, 8, 9, 10, 11]);
}

#[test]
fn decode_recovers_encoded_value() {
    let v = Value { id: 0xDEADBEEF00112233, payload: vec![42; 100] };
    let bytes = encode_value(&v);
    let back = decode_value(&bytes).expect("an encoding must decode");
    assert_eq!(back, v);
}

#[test]
fn decode_fails_only_under_eight_bytes() {
    assert!(decode_value(&vec![]).is_none());
    assert!(decode_value(&vec![1, 2, 3, 4, 5, 6, 7]).is_none());
    let v = decode_value(&vec![0, 0, 0, 0, 0, 0, 0, 5]).expect("eight bytes decode");
    assert_eq!(v.id, 5);
    assert!(v.payload.is_empty());
}

#[test]
fn split_produces_ordered_chunks_with_terminal_marker() {
    let bytes: Vec<u8> = (0u8..10).collect();
    let parts = split_into_parts(7, Round::At(2), Round::Nil, &addr(1), &bytes, 4);
    assert_eq!(parts.len(), 3);
    for (i, p) in parts.iter().enumerate() {
        assert_eq!(p.sequence, i as u64);
        assert_eq!(p.height, 7);
        assert_eq!(p.round, Round::At(2));
        assert_eq!(p.valid_round, Round::Nil);
        assert_eq!(p.proposer, addr(1));
        assert_eq!(p.last, i == 2);
    }
    assert_eq!(parts[0].data, vec![0, 1, 2, 3]);
    assert_eq!(parts[1].data, vec![4, 5, 6, 7]);
    assert_eq!(parts[2].data, vec![8, 9]);
}

#[test]
fn split_of_empty_bytes_is_one_terminal_part() {
    let parts = split_into_parts(1, Round::At(0), Round::Nil, &addr(2), &vec![], 16);
    assert_eq!(parts.len(), 1);
    assert_eq!(parts[0].sequence, 0);
    assert!(parts[0].last);
    assert!(parts[0].data.is_empty());
}

#[test]
fn split_exact_multiple_has_full_final_chunk() {
    let bytes: Vec<u8> = (0u8..8).collect();
    let parts = split_into_parts(1, Round::At(0), Round::Nil, &addr(3), &bytes, 4);
    assert_eq!(parts.len(), 2);
    assert_eq!(parts[1].data, vec![4, 5, 6, 7]);
    assert!(parts[1].last);
    assert!(!parts[0].last);
}
