use zkp::bignum::Bignum;
use zkp::serialization::deserialize_biguint;
use zkp::serialization::serialize_biguint;

fn n(v: u64) -> Bignum {
    Bignum::from_u64(v)
}

#[test]
fn test_round_trip_small_values() {
    for v in [0u64, 1, 2, 255, 256, 257, 65535, 65536, 12345, u64::MAX] {
        let value = n(v);
        let bytes = serialize_biguint(&value);
        assert!(!bytes.is_empty());
        let back = deserialize_biguint(&bytes).unwrap();
        assert!(value.eq_value(&back));
        // the minimal form is unique, so even the bytes come back the same
        assert_eq!(serialize_biguint(&back), bytes);
    }
}

#[test]
fn test_encoding_is_minimal_big_endian() {
    assert_eq!(serialize_biguint(&n(0)), vec![0]);
    assert_eq!(serialize_biguint(&n(1)), vec![1]);
    assert_eq!(serialize_biguint(&n(256)), vec![1, 0]);
    assert_eq!(serialize_biguint(&n(0x0102_0304)), vec![1, 2, 3, 4]);
}

#[test]
fn test_decode_accepts_leading_zeros() {
    let a = deserialize_biguint(&[0, 0, 1, 0]).unwrap();
    assert!(a.eq_value(&n(256)));

    let zero = deserialize_biguint(&[0, 0, 0]).unwrap();
    assert!(zero.eq_value(&n(0)));
}

#[test]
fn test_decode_rejects_empty() {
    assert!(deserialize_biguint(&[]).is_err());
}
