//! The unframer against the reference byte-stuffing implementation, and the
//! payload decoder against the reference encoder.

use std::collections::BTreeMap;

use bin_receiver::cbor::parse_payload;
use bin_receiver::cbor::widen16;
use bin_receiver::cbor::widen32;
use bin_receiver::cbor::Scalar;
use bin_receiver::cbor::Value;
use bin_receiver::unframe::unstuff;

use serde_cbor::Value as CborValue;

fn roundtrip_payload(payload: &[u8]) {
    let encoded = cobs::encode_vec(payload);
    let out = unstuff(&encoded).expect("a stuffed sequence the sender emitted must decode");
    assert_eq!(out, payload);
    // and the reference decoder agrees
    assert_eq!(cobs::decode_vec(&encoded).unwrap(), payload);
}

#[test]
fn unstuff_inverts_reference_stuffing() {
    roundtrip_payload(&[]);
    roundtrip_payload(&[0]);
    roundtrip_payload(&[0, 0, 0]);
    roundtrip_payload(&[1, 2, 3]);
    roundtrip_payload(&[1, 0, 2, 0, 0, 3]);
    let long: Vec<u8> = (0..900u32).map(|i| (i % 251 + 1) as u8).collect();
    roundtrip_payload(&long);
    let mut with_zeros = long.clone();
    with_zeros[253] = 0;
    with_zeros[254] = 0;
    with_zeros[700] = 0;
    roundtrip_payload(&with_zeros);
}

#[test]
fn unstuff_agrees_with_reference_on_invalid_input() {
    let cases: Vec<Vec<u8>> = vec![
        vec![],
        vec![0],
        vec![0, 0],
        vec![5, 1],
        vec![5, 1, 0],
        vec![2, 0, 3],
        vec![255, 1, 2],
        vec![1, 0, 5],
        vec![0, 0, 1],
        vec![3, 9, 9, 4, 8],
    ];
    for c in cases {
        let mine = unstuff(&c);
        let reference = cobs::decode_vec(&c).ok();
        assert_eq!(mine, reference, "disagreement on {:?}", c);
    }
}

fn decode_one(v: &CborValue) -> Value {
    let bytes = serde_cbor::to_vec(v).unwrap();
    parse_payload(&bytes).expect("reference encoding must parse")
}

fn expect_scalar(v: &CborValue) -> Scalar {
    match decode_one(v) {
        Value::Scalar(s) => s,
        Value::Object(_) => panic!("expected a non-map root"),
    }
}

#[test]
fn decoder_reads_reference_integers() {
    let cases: Vec<u64> = vec![0, 1, 23, 24, 255, 256, 65535, 65536, 4294967295, 4294967296, u64::MAX];
    for u in cases {
        let s = expect_scalar(&CborValue::Integer(u as i128));
        assert!(matches!(s, Scalar::Unsigned(x) if x == u), "mismatch on {}", u);
    }
    let negatives: Vec<i64> = vec![-1, -24, -25, -256, -257, -65537, i64::MIN];
    for i in negatives {
        let s = expect_scalar(&CborValue::Integer(i as i128));
        assert!(matches!(s, Scalar::Signed(x) if x == i), "mismatch on {}", i);
    }
}

#[test]
fn decoder_reads_reference_floats() {
    // 23.5 survives the reference encoder's narrowing to a half float
    let cases: Vec<f64> = vec![
        23.5,
        -23.5,
        0.0,
        1.0,
        (1.0f32 / 3.0f32) as f64,
        0.1,
        -1.0e300,
        f64::INFINITY,
        f64::NEG_INFINITY,
        f32::MIN_POSITIVE as f64,
    ];
    for x in cases {
        let s = expect_scalar(&CborValue::Float(x));
        assert!(
            matches!(s, Scalar::Float(b) if b == x.to_bits()),
            "mismatch on {}",
            x
        );
    }
}

#[test]
fn widening_matches_hardware_conversion() {
    // binary16: 23.5 is 0 10011 0111100000
    assert_eq!(widen16(0x4de0), 23.5f64.to_bits());
    // binary16 smallest subnormal
    assert_eq!(f64::from_bits(widen16(0x0001)), (2.0f64).powi(-24));
    // binary16 infinities and zeroes
    assert_eq!(f64::from_bits(widen16(0x7c00)), f64::INFINITY);
    assert_eq!(f64::from_bits(widen16(0xfc00)), f64::NEG_INFINITY);
    assert_eq!(widen16(0x8000), (-0.0f64).to_bits());
    for b in [0x0001u32, 0x00000007, 0x007fffff, 0x3f800000, 0x7f7fffff, 0x80000001] {
        let expected = (f32::from_bits(b) as f64).to_bits();
        assert_eq!(widen32(b), expected, "mismatch on bits {:#x}", b);
    }
}

#[test]
fn decoder_reads_reference_text() {
    for s in ["", "dev-A", "h\u{e9}llo \u{4e16}\u{754c}"] {
        let sc = expect_scalar(&CborValue::Text(String::from(s)));
        assert!(matches!(sc, Scalar::Text(t) if t == s), "mismatch on {:?}", s);
    }
}

#[test]
fn decoder_collapses_other_kinds() {
    let cases = vec![
        CborValue::Null,
        CborValue::Bool(true),
        CborValue::Bytes(vec![1, 2, 3]),
        CborValue::Array(vec![CborValue::Integer(1), CborValue::Text(String::from("x"))]),
    ];
    for v in cases {
        let s = expect_scalar(&v);
        assert!(matches!(s, Scalar::Other));
    }
}

#[test]
fn decoder_keeps_map_entries() {
    let mut m = BTreeMap::new();
    m.insert(CborValue::Text(String::from("fnum")), CborValue::Integer(3));
    m.insert(
        CborValue::Text(String::from("nested")),
        CborValue::Map(BTreeMap::new()),
    );
    let es = match decode_one(&CborValue::Map(m)) {
        Value::Object(es) => es,
        Value::Scalar(_) => panic!("expected a map root"),
    };
    assert_eq!(es.len(), 2);
    assert!(matches!(&es[0].0, Scalar::Text(t) if t == "fnum"));
    assert!(matches!(es[0].1, Scalar::Unsigned(3)));
    assert!(matches!(&es[1].0, Scalar::Text(t) if t == "nested"));
    // a nested map is structurally checked and collapsed
    assert!(matches!(es[1].1, Scalar::Other));
}

#[test]
fn decoder_rejects_malformed_payloads() {
    let cases: Vec<Vec<u8>> = vec![
        vec![],
        vec![0x18],              // unsigned argument cut off
        vec![0x19, 0x01],        // two-byte argument cut off
        vec![0x62, 0x61],        // text shorter than announced
        vec![0x62, 0xff, 0xfe],  // text that is not UTF-8
        vec![0x81],              // array of one item, item missing
        vec![0xa1, 0x01],        // map of one entry, value missing
        vec![0x5f, 0xff],        // indefinite length is not supported
        vec![0x1c],              // reserved additional information
        vec![0x01, 0x01],        // trailing data after one item
        vec![0x3b, 0xff, 0xff, 0xff, 0xff, 0xff, 0xff, 0xff, 0xff], // negative below 64 bits
    ];
    for c in cases {
        assert!(parse_payload(&c).is_none(), "accepted malformed {:?}", c);
    }
}
