//! Tests of the order-preserving key codec and the bound conversions.

use backup::keys::Key;
use backup::keys::bound_from_raw;
use backup::keys::bound_into_raw;
use backup::keys::decode_bytes;
use backup::keys::encode_bytes;
use backup::keys::key_le;
use backup::keys::key_lt;

#[test]
fn test_encode_layout() {
    // The empty key encodes to one zero-padded terminal group.
    assert_eq!(
        encode_bytes(&Vec::new()),
        vec![0, 0, 0, 0, 0, 0, 0, 0, 247]
    );
    // A short key is padded to eight bytes; the marker counts its bytes.
    assert_eq!(
        encode_bytes(&b"1".to_vec()),
        vec![0x31, 0, 0, 0, 0, 0, 0, 0, 248]
    );
    // Eight bytes fill one full group and leave an empty terminal group.
    let eight = b"abcdefgh".to_vec();
    let mut expect = b"abcdefgh".to_vec();
    expect.push(255);
    expect.extend_from_slice(&[0, 0, 0, 0, 0, 0, 0, 0, 247]);
    assert_eq!(encode_bytes(&eight), expect);
}

#[test]
fn test_key_roundtrip() {
    let cases: Vec<Vec<u8>> = vec![
        Vec::new(),
        b"1".to_vec(),
        b"1234567".to_vec(),
        b"12345678".to_vec(),
        b"123456789".to_vec(),
        b"0123456789abcdef".to_vec(),
        vec![0, 255, 0, 255, 1, 2, 3, 4, 5, 6, 7, 8, 9, 10],
    ];
    for raw in cases {
        let key = Key::from_raw(&raw);
        assert_eq!(key.into_raw().unwrap(), raw);
        let enc = encode_bytes(&raw);
        assert_eq!(decode_bytes(&enc).unwrap(), raw);
    }
}

#[test]
fn test_decode_rejects_malformed() {
    // Too short for one group.
    assert!(decode_bytes(&vec![0, 0, 0, 0, 0, 0, 0, 0]).is_none());
    // Invalid marker.
    assert!(decode_bytes(&vec![0, 0, 0, 0, 0, 0, 0, 0, 1]).is_none());
    // A non-zero pad byte.
    assert!(decode_bytes(&vec![0x31, 7, 0, 0, 0, 0, 0, 0, 248]).is_none());
    // A continuation marker with nothing after it.
    assert!(decode_bytes(&vec![0, 0, 0, 0, 0, 0, 0, 0, 255]).is_none());
    // A terminal group followed by trailing bytes.
    let mut enc = encode_bytes(&b"1".to_vec());
    enc.extend_from_slice(&[0, 0, 0, 0, 0, 0, 0, 0, 247]);
    assert!(decode_bytes(&enc).is_none());
}

#[test]
fn test_encoding_preserves_order() {
    let raws: Vec<Vec<u8>> = vec![
        Vec::new(),
        b"1".to_vec(),
        b"12".to_vec(),
        b"2".to_vec(),
        b"7".to_vec(),
        b"abcdefgh".to_vec(),
        b"abcdefghi".to_vec(),
    ];
    for a in &raws {
        for b in &raws {
            let ea = encode_bytes(a);
            let eb = encode_bytes(b);
            assert_eq!(key_lt(&ea, &eb), a < b, "{:?} {:?}", a, b);
            assert_eq!(key_le(&ea, &eb), a <= b, "{:?} {:?}", a, b);
        }
    }
}

#[test]
fn test_bound_roundtrip() {
    // The empty raw bound is the unbounded side, and comes back empty.
    let unbounded = bound_from_raw(&Vec::new());
    assert!(unbounded.is_none());
    assert_eq!(bound_into_raw(unbounded).unwrap(), Vec::<u8>::new());
    // A non-empty raw bound encodes and decodes to itself.
    let bounded = bound_from_raw(&b"37".to_vec());
    assert!(bounded.is_some());
    assert_eq!(bound_into_raw(bounded).unwrap(), b"37".to_vec());
}

#[test]
fn test_key_accessors() {
    let key = Key::from_raw(&b"12".to_vec());
    let enc = key.as_encoded().clone();
    assert_eq!(key.clone().into_encoded(), enc);
    assert_eq!(Key::from_encoded(enc.clone()).into_raw().unwrap(), b"12");
    assert_eq!(
        Key::from_encoded_slice(&enc).into_raw().unwrap(),
        b"12".to_vec()
    );
}
