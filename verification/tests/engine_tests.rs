use zkp::ZKP;
use zkp::ZkpConfig;
use zkp::ZkpError;
use zkp::bignum::Bignum;
use zkp::serialization;

fn n(v: u64) -> Bignum {
    Bignum::from_u64(v)
}

fn toy_zkp() -> ZKP {
    ZKP { p: n(23), q: n(11), alpha: n(4), beta: n(9) }
}

#[test]
fn test_toy_example() {
    let zkp = toy_zkp();

    let x = n(6);
    let k = n(7);
    let c = n(4);

    let (y1, y2) = zkp.compute_pair(&x).unwrap();
    assert!(y1.eq_value(&n(2)));
    assert!(y2.eq_value(&n(3)));

    let (r1, r2) = zkp.compute_pair(&k).unwrap();
    assert!(r1.eq_value(&n(8)));
    assert!(r2.eq_value(&n(4)));

    let s = zkp.solve(&k, &c, &x).unwrap();
    assert!(s.eq_value(&n(5)));

    let result = zkp.verify(&r1, &r2, &y1, &y2, &c, &s).unwrap();
    assert!(result);

    // fake secret
    let x_fake = n(7);
    let s_fake = zkp.solve(&k, &c, &x_fake).unwrap();
    assert!(s_fake.eq_value(&n(1)));

    let result = zkp.verify(&r1, &r2, &y1, &y2, &c, &s_fake).unwrap();
    assert!(!result);
}

#[test]
fn test_toy_example_with_random_numbers() {
    let zkp = toy_zkp();

    let x = n(6);
    let k = ZKP::generate_random_number_below(&zkp.q).unwrap();
    let c = ZKP::generate_random_number_below(&zkp.q).unwrap();

    let (y1, y2) = zkp.compute_pair(&x).unwrap();
    assert!(y1.eq_value(&n(2)));
    assert!(y2.eq_value(&n(3)));

    let (r1, r2) = zkp.compute_pair(&k).unwrap();
    let s = zkp.solve(&k, &c, &x).unwrap();
    let result = zkp.verify(&r1, &r2, &y1, &y2, &c, &s).unwrap();
    assert!(result);
}

#[test]
fn test_1024_bits_constants() {
    let zkp = ZKP::new(None).unwrap();
    let q = &zkp.q;

    let x = ZKP::generate_random_number_below(q).unwrap();
    let k = ZKP::generate_random_number_below(q).unwrap();
    let c = ZKP::generate_random_number_below(q).unwrap();

    let (y1, y2) = zkp.compute_pair(&x).unwrap();
    let (r1, r2) = zkp.compute_pair(&k).unwrap();
    let s = zkp.solve(&k, &c, &x).unwrap();
    let result = zkp.verify(&r1, &r2, &y1, &y2, &c, &s).unwrap();
    assert!(result);
}

#[test]
fn test_serialization() {
    let value = n(12345);
    let serialized = serialization::serialize_biguint(&value);
    let deserialized = serialization::deserialize_biguint(&serialized).unwrap();
    assert!(value.eq_value(&deserialized));
}

#[test]
fn test_error_handling() {
    let zkp = ZKP::new(None).unwrap();

    // Test invalid bounds: q + 1 as big-endian bytes.
    let q_plus_one: [u8; 20] = [
        0xF5, 0x18, 0xAA, 0x87, 0x81, 0xA8, 0xDF, 0x27, 0x8A, 0xBA, 0x4E, 0x7D, 0x64, 0xB7, 0xCB,
        0x9D, 0x49, 0x46, 0x23, 0x54,
    ];
    let large_exp = serialization::deserialize_biguint(&q_plus_one).unwrap();
    assert!(zkp.compute_pair(&large_exp).is_err());

    // Test empty serialization
    assert!(serialization::deserialize_biguint(&[]).is_err());

    // Test zero bound for random generation
    assert!(ZKP::generate_random_number_below(&n(0)).is_err());
}

#[test]
fn test_range_rejection() {
    let zkp = toy_zkp();
    let eleven = n(11);
    let twelve = n(12);
    let good = n(3);

    // compute_pair rejects any exponent >= q
    assert!(matches!(zkp.compute_pair(&eleven), Err(ZkpError::InvalidInput(_))));
    assert!(matches!(zkp.compute_pair(&twelve), Err(ZkpError::InvalidInput(_))));

    // solve rejects each argument >= q
    assert!(matches!(zkp.solve(&eleven, &good, &good), Err(ZkpError::InvalidInput(_))));
    assert!(matches!(zkp.solve(&good, &eleven, &good), Err(ZkpError::InvalidInput(_))));
    assert!(matches!(zkp.solve(&good, &good, &eleven), Err(ZkpError::InvalidInput(_))));

    // verify rejects q-bounded arguments >= q and p-bounded arguments >= p
    let big = n(23);
    assert!(matches!(zkp.verify(&good, &good, &good, &good, &eleven, &good), Err(ZkpError::InvalidInput(_))));
    assert!(matches!(zkp.verify(&good, &good, &good, &good, &good, &eleven), Err(ZkpError::InvalidInput(_))));
    assert!(matches!(zkp.verify(&big, &good, &good, &good, &good, &good), Err(ZkpError::InvalidInput(_))));
    assert!(matches!(zkp.verify(&good, &big, &good, &good, &good, &good), Err(ZkpError::InvalidInput(_))));
    assert!(matches!(zkp.verify(&good, &good, &big, &good, &good, &good), Err(ZkpError::InvalidInput(_))));
    assert!(matches!(zkp.verify(&good, &good, &good, &big, &good, &good), Err(ZkpError::InvalidInput(_))));
}

#[test]
fn test_solve_handles_borrow() {
    // k < c * x, so the unsigned subtraction must wrap through q:
    // (7 - 4 * 6) mod 11 = (7 - 24) mod 11 = -17 mod 11 = 5.
    let zkp = toy_zkp();
    let s = zkp.solve(&n(7), &n(4), &n(6)).unwrap();
    assert!(s.eq_value(&n(5)));

    // k >= c * x takes the direct path: (10 - 2 * 3) mod 11 = 4.
    let s2 = zkp.solve(&n(10), &n(2), &n(3)).unwrap();
    assert!(s2.eq_value(&n(4)));

    // a borrow that lands exactly on a multiple of q: (0 - 2 * 0) mod 11 = 0.
    let s3 = zkp.solve(&n(0), &n(2), &n(0)).unwrap();
    assert!(s3.eq_value(&n(0)));
}

#[test]
fn test_validate_parameters() {
    assert!(toy_zkp().validate_parameters().is_ok());

    let zero_p = ZKP { p: n(1), q: n(11), alpha: n(4), beta: n(9) };
    assert!(matches!(zero_p.validate_parameters(), Err(ZkpError::InvalidInput(_))));

    let alpha_too_big = ZKP { p: n(23), q: n(11), alpha: n(23), beta: n(9) };
    assert!(matches!(alpha_too_big.validate_parameters(), Err(ZkpError::InvalidInput(_))));

    let beta_too_small = ZKP { p: n(23), q: n(11), alpha: n(4), beta: n(1) };
    assert!(matches!(beta_too_small.validate_parameters(), Err(ZkpError::InvalidInput(_))));
}

#[test]
fn test_new_with_config() {
    let with_constants = ZKP::new(Some(ZkpConfig::default()));
    assert!(with_constants.is_ok());

    let custom = ZkpConfig { key_size_bits: 2048, use_predefined_constants: false };
    assert!(matches!(ZKP::new(Some(custom)), Err(ZkpError::InvalidInput(_))));
}

#[test]
fn test_generate_random_string() {
    let s = ZKP::generate_random_string(16).unwrap();
    assert_eq!(s.chars().count(), 16);
    assert!(s.chars().all(|ch| ch.is_ascii_alphanumeric()));
    assert!(matches!(ZKP::generate_random_string(0), Err(ZkpError::InvalidInput(_))));
}

#[test]
fn test_built_in_parameters_validate() {
    let zkp = ZKP::new(None).unwrap();
    assert!(zkp.validate_parameters().is_ok());
}
