//! Cross-checks of the wire codec against the reference SCALE
//! implementation, plus executable round trips for the primitives.

use ext_bridge::codec::decode_bool;
use ext_bridge::codec::decode_bytes;
use ext_bridge::codec::decode_compact_u128;
use ext_bridge::codec::decode_u32;
use ext_bridge::codec::decode_u8;
use ext_bridge::codec::encode_bool;
use ext_bridge::codec::encode_bytes;
use ext_bridge::codec::encode_compact_u128;
use ext_bridge::codec::encode_u32;
use ext_bridge::codec::encode_u8;
use parity_scale_codec::Compact;
use parity_scale_codec::Decode;
use parity_scale_codec::Encode;

fn compact_values() -> Vec<u128> {
    vec![
        0,
        1,
        42,
        63,
        64,
        100,
        16383,
        16384,
        65536,
        0x3fff_ffff,
        0x4000_0000,
        0xdead_beef,
        u64::MAX as u128 - 1,
        u64::MAX as u128,
        u64::MAX as u128 + 1,
        u128::MAX / 7,
        u128::MAX - 1,
        u128::MAX,
    ]
}

#[test]
fn compact_encoding_matches_reference() {
    for v in compact_values() {
        let mut ours: Vec<u8> = Vec::new();
        encode_compact_u128(v, &mut ours);
        let reference = Compact(v).encode();
        assert_eq!(ours, reference, "compact encoding of {}", v);
    }
}

#[test]
fn compact_decoding_matches_reference() {
    for v in compact_values() {
        let reference = Compact(v).encode();
        let (decoded, next) = decode_compact_u128(&reference, 0).expect("decode");
        assert_eq!(decoded, v);
        assert_eq!(next, reference.len());

        let mut ours: Vec<u8> = Vec::new();
        encode_compact_u128(v, &mut ours);
        let from_reference = Compact::<u128>::decode(&mut &ours[..]).expect("reference decode");
        assert_eq!(from_reference.0, v);
    }
}

#[test]
fn compact_round_trip_survives_surrounding_bytes() {
    let mut buf: Vec<u8> = vec![0xab, 0xcd];
    encode_compact_u128(123_456_789, &mut buf);
    buf.push(0xef);
    let (decoded, next) = decode_compact_u128(&buf, 2).expect("decode");
    assert_eq!(decoded, 123_456_789);
    assert_eq!(buf[next], 0xef);
}

#[test]
fn compact_decode_rejects_truncated_input() {
    let mut buf: Vec<u8> = Vec::new();
    encode_compact_u128(u128::MAX, &mut buf);
    buf.pop();
    assert_eq!(decode_compact_u128(&buf, 0), None);
    assert_eq!(decode_compact_u128(&Vec::new(), 0), None);
}

#[test]
fn u32_encoding_matches_reference() {
    for v in [0u32, 1, 5, 10, 256, 65536, u32::MAX] {
        let mut ours: Vec<u8> = Vec::new();
        encode_u32(v, &mut ours);
        assert_eq!(ours, v.encode(), "little-endian encoding of {}", v);
        let (decoded, next) = decode_u32(&ours, 0).expect("decode");
        assert_eq!(decoded, v);
        assert_eq!(next, 4);
    }
}

#[test]
fn u8_and_bool_round_trip() {
    for v in [0u8, 1, 7, 255] {
        let mut ours: Vec<u8> = Vec::new();
        encode_u8(v, &mut ours);
        assert_eq!(ours, v.encode());
        assert_eq!(decode_u8(&ours, 0), Some((v, 1)));
    }
    for b in [false, true] {
        let mut ours: Vec<u8> = Vec::new();
        encode_bool(b, &mut ours);
        assert_eq!(ours, b.encode());
        assert_eq!(decode_bool(&ours, 0), Some((b, 1)));
    }
    assert_eq!(decode_bool(&vec![2u8], 0), None, "invalid discriminator is malformed");
}

#[test]
fn bytes_encoding_matches_reference() {
    let cases: Vec<Vec<u8>> = vec![
        Vec::new(),
        vec![9],
        vec![1, 2, 3, 4, 5],
        vec![0x55; 40],
        vec![7; 300],
    ];
    for data in cases {
        let mut ours: Vec<u8> = Vec::new();
        encode_bytes(&data, &mut ours);
        assert_eq!(ours, data.encode(), "length-prefixed encoding of {} bytes", data.len());
        let (decoded, next) = decode_bytes(&ours, 0).expect("decode");
        assert_eq!(decoded, data);
        assert_eq!(next, ours.len());
    }
}

#[test]
fn bytes_decode_rejects_short_payload() {
    let mut buf: Vec<u8> = Vec::new();
    encode_bytes(&vec![1, 2, 3], &mut buf);
    buf.pop();
    assert_eq!(decode_bytes(&buf, 0), None);
}
