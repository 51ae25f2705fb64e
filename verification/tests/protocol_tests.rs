use zkp::ZKP;
use zkp::bignum::Bignum;
use zkp::client::challenge_commitments;
use zkp::client::challenge_response;
use zkp::client::password_to_biguint;
use zkp::client::registration_commitments;
use zkp::serialization::serialize_biguint;
use zkp::server::AuthError;
use zkp::server::AuthImpl;

fn n(v: u64) -> Bignum {
    Bignum::from_u64(v)
}

fn toy_zkp() -> ZKP {
    ZKP { p: n(23), q: n(11), alpha: n(4), beta: n(9) }
}

fn toy_coordinator() -> AuthImpl {
    AuthImpl::with_config(toy_zkp(), 1000, 100).unwrap()
}

/// Registers "alice" with secret x = 6 (commitments y1 = 2, y2 = 3).
fn register_alice(auth: &mut AuthImpl, now: u64) {
    let zkp = toy_zkp();
    let (y1, y2) = zkp.compute_pair(&n(6)).unwrap();
    auth.register("alice", &serialize_biguint(&y1), &serialize_biguint(&y2), now).unwrap();
}

/// Asks for a challenge with nonce k = 7 (commitments r1 = 8, r2 = 4) and
/// returns the auth id and challenge bytes.
fn challenge_alice(auth: &mut AuthImpl, now: u64) -> (String, Vec<u8>) {
    let zkp = toy_zkp();
    let (r1, r2) = zkp.compute_pair(&n(7)).unwrap();
    auth.create_authentication_challenge(
        "alice",
        &serialize_biguint(&r1),
        &serialize_biguint(&r2),
        now,
    )
    .unwrap()
}

/// Asks for challenges (spacing the requests past the rate limit) until
/// one is nonzero: a zero challenge makes every response pass, so a test
/// of a wrong secret needs c != 0.
fn nonzero_challenge_alice(auth: &mut AuthImpl, now: u64) -> (String, Vec<u8>, u64) {
    let mut at = now;
    loop {
        let (aid, c_bytes) = challenge_alice(auth, at);
        if c_bytes != vec![0] {
            return (aid, c_bytes, at);
        }
        at += 2000;
    }
}

fn answer(auth: &mut AuthImpl, aid: &str, secret: u64, c_bytes: &[u8], now: u64) -> Result<String, AuthError> {
    let zkp = toy_zkp();
    let c = zkp::serialization::deserialize_biguint(c_bytes).unwrap();
    let s = zkp.solve(&n(7), &c, &n(secret)).unwrap();
    auth.verify_authentication(aid, &serialize_biguint(&s), now)
}

#[test]
fn test_full_authentication_flow() {
    let mut auth = toy_coordinator();
    register_alice(&mut auth, 0);

    let (aid, c_bytes) = challenge_alice(&mut auth, 2000);
    assert_eq!(aid.len(), 36);

    let token = answer(&mut auth, &aid, 6, &c_bytes, 2500).unwrap();
    assert_eq!(token.len(), 36);
    assert!(!token.is_empty());

    // a second attempt with a response derived from a different secret
    let (aid2, c_bytes2, at) = nonzero_challenge_alice(&mut auth, 4000);
    let denied = answer(&mut auth, &aid2, 5, &c_bytes2, at + 500);
    assert!(matches!(denied, Err(AuthError::PermissionDenied)));
}

#[test]
fn test_auth_id_is_single_use_after_success() {
    let mut auth = toy_coordinator();
    register_alice(&mut auth, 0);
    let (aid, c_bytes) = challenge_alice(&mut auth, 2000);

    answer(&mut auth, &aid, 6, &c_bytes, 2500).unwrap();
    let replay = answer(&mut auth, &aid, 6, &c_bytes, 2600);
    assert!(matches!(replay, Err(AuthError::NotFound)));
}

#[test]
fn test_auth_id_is_single_use_after_failure() {
    let mut auth = toy_coordinator();
    register_alice(&mut auth, 0);
    let (aid, c_bytes, at) = nonzero_challenge_alice(&mut auth, 2000);

    let denied = answer(&mut auth, &aid, 9, &c_bytes, at + 500);
    assert!(matches!(denied, Err(AuthError::PermissionDenied)));
    let replay = answer(&mut auth, &aid, 6, &c_bytes, at + 600);
    assert!(matches!(replay, Err(AuthError::NotFound)));
}

#[test]
fn test_rate_limiting() {
    let mut auth = toy_coordinator();
    register_alice(&mut auth, 0);

    let _first = challenge_alice(&mut auth, 5000);

    let zkp = toy_zkp();
    let (r1, r2) = zkp.compute_pair(&n(7)).unwrap();
    let r1b = serialize_biguint(&r1);
    let r2b = serialize_biguint(&r2);

    // within the 1000 ms minimum interval
    let second = auth.create_authentication_challenge("alice", &r1b, &r2b, 5500);
    assert!(matches!(second, Err(AuthError::RateLimited)));

    // a clock that moved backwards also counts as too soon
    let backwards = auth.create_authentication_challenge("alice", &r1b, &r2b, 4000);
    assert!(matches!(backwards, Err(AuthError::RateLimited)));

    // after the interval the request goes through
    let third = auth.create_authentication_challenge("alice", &r1b, &r2b, 6000);
    assert!(third.is_ok());
}

#[test]
fn test_register_rejections() {
    let mut auth = toy_coordinator();
    let y1 = serialize_biguint(&n(2));
    let y2 = serialize_biguint(&n(3));

    assert!(matches!(auth.register("", &y1, &y2, 0), Err(AuthError::InvalidInput)));

    let long_name = "x".repeat(101);
    assert!(matches!(auth.register(&long_name, &y1, &y2, 0), Err(AuthError::InvalidInput)));

    assert!(matches!(auth.register("alice", &[], &y2, 0), Err(AuthError::SerializationError)));
    assert!(matches!(auth.register("alice", &y1, &[], 0), Err(AuthError::SerializationError)));

    // commitments must lie strictly between 1 and p
    let too_big = serialize_biguint(&n(23));
    assert!(matches!(auth.register("alice", &too_big, &y2, 0), Err(AuthError::InvalidInput)));
    let one = serialize_biguint(&n(1));
    assert!(matches!(auth.register("alice", &y1, &one, 0), Err(AuthError::InvalidInput)));

    auth.register("alice", &y1, &y2, 0).unwrap();
    assert!(matches!(auth.register("alice", &y1, &y2, 10), Err(AuthError::AlreadyRegistered)));
}

#[test]
fn test_challenge_rejections() {
    let mut auth = toy_coordinator();
    register_alice(&mut auth, 0);
    let r1 = serialize_biguint(&n(8));
    let r2 = serialize_biguint(&n(4));

    assert!(matches!(
        auth.create_authentication_challenge("", &r1, &r2, 2000),
        Err(AuthError::InvalidInput)
    ));
    assert!(matches!(
        auth.create_authentication_challenge("alice", &[], &r2, 2000),
        Err(AuthError::SerializationError)
    ));
    let too_big = serialize_biguint(&n(25));
    assert!(matches!(
        auth.create_authentication_challenge("alice", &too_big, &r2, 2000),
        Err(AuthError::InvalidInput)
    ));
    assert!(matches!(
        auth.create_authentication_challenge("bob", &r1, &r2, 2000),
        Err(AuthError::NotFound)
    ));
}

#[test]
fn test_verify_rejections() {
    let mut auth = toy_coordinator();
    register_alice(&mut auth, 0);
    let (aid, _c_bytes) = challenge_alice(&mut auth, 2000);
    let s = serialize_biguint(&n(5));

    assert!(matches!(auth.verify_authentication("", &s, 2500), Err(AuthError::InvalidInput)));
    assert!(matches!(
        auth.verify_authentication("not-an-auth-id", &s, 2500),
        Err(AuthError::NotFound)
    ));
    assert!(matches!(
        auth.verify_authentication(&aid, &[], 2500),
        Err(AuthError::SerializationError)
    ));
    let s_big = serialize_biguint(&n(11));
    assert!(matches!(
        auth.verify_authentication(&aid, &s_big, 2500),
        Err(AuthError::InvalidInput)
    ));

    // none of those consumed the auth id; the honest answer still works
    let token = answer(&mut auth, &aid, 6, &_c_bytes, 2500).unwrap();
    assert_eq!(token.len(), 36);
}

#[test]
fn test_displacing_a_challenge_invalidates_old_auth_id() {
    let mut auth = toy_coordinator();
    register_alice(&mut auth, 0);

    let (aid1, _c1) = challenge_alice(&mut auth, 2000);
    let (aid2, c2) = challenge_alice(&mut auth, 4000);

    // the first auth id was displaced by the second challenge
    let replay = answer(&mut auth, &aid1, 6, &c2, 4500);
    assert!(matches!(replay, Err(AuthError::NotFound)));

    // the second one answers the live challenge
    let token = answer(&mut auth, &aid2, 6, &c2, 4600).unwrap();
    assert_eq!(token.len(), 36);
}

#[test]
fn test_full_flow_with_built_in_parameters_and_password() {
    let mut auth = AuthImpl::new().unwrap();
    let zkp = ZKP::new(None).unwrap();

    let (y1, y2) = registration_commitments(&zkp, "test_password_123");
    auth.register("alice", &y1, &y2, 0).unwrap();

    let (k, r1, r2) = challenge_commitments(&zkp);
    let (aid, c_bytes) = auth.create_authentication_challenge("alice", &r1, &r2, 2000).unwrap();

    let s_bytes = challenge_response(&zkp, &k, &c_bytes, "test_password_123").unwrap();
    let token = auth.verify_authentication(&aid, &s_bytes, 2500).unwrap();
    assert_eq!(token.len(), 36);

    // the wrong password fails the proof
    let (k2, r1b, r2b) = challenge_commitments(&zkp);
    let (aid2, c2) = auth.create_authentication_challenge("alice", &r1b, &r2b, 4000).unwrap();
    let s_wrong = challenge_response(&zkp, &k2, &c2, "wrong_password").unwrap();
    let denied = auth.verify_authentication(&aid2, &s_wrong, 4500);
    assert!(matches!(denied, Err(AuthError::PermissionDenied)));
}

#[test]
fn test_invalid_registration() {
    let mut auth = AuthImpl::new().unwrap();
    let zkp = ZKP::new(None).unwrap();
    let (y1, y2) = registration_commitments(&zkp, "test_password_123");
    let result = auth.register("", &y1, &y2, 0);
    assert!(result.is_err(), "Empty username should fail");
}

#[test]
fn test_authentication_without_registration() {
    let mut auth = AuthImpl::new().unwrap();
    let zkp = ZKP::new(None).unwrap();
    let (_k, r1, r2) = challenge_commitments(&zkp);
    let result = auth.create_authentication_challenge("non_existent_user", &r1, &r2, 0);
    assert!(result.is_err(), "Non-existent user should fail");
    assert!(matches!(result, Err(AuthError::NotFound)));
}

#[test]
fn test_wrong_password_authentication() {
    let mut auth = AuthImpl::new().unwrap();
    let zkp = ZKP::new(None).unwrap();

    let (y1, y2) = registration_commitments(&zkp, "correct_password");
    auth.register("test_user_wrong", &y1, &y2, 0).unwrap();

    let (k, r1, r2) = challenge_commitments(&zkp);
    let (aid, c_bytes) = auth.create_authentication_challenge("test_user_wrong", &r1, &r2, 2000).unwrap();
    let s_bytes = challenge_response(&zkp, &k, &c_bytes, "wrong_password").unwrap();
    let result = auth.verify_authentication(&aid, &s_bytes, 2500);
    assert!(result.is_err(), "Wrong password should fail authentication");
}

#[test]
fn test_password_secret_is_deterministic_and_in_range() {
    let zkp = ZKP::new(None).unwrap();
    let a = password_to_biguint("correct_password", &zkp);
    let b = password_to_biguint("correct_password", &zkp);
    assert!(a.eq_value(&b));
    assert!(a.lt(&zkp.q));

    let other = password_to_biguint("other_password", &zkp);
    assert!(!a.eq_value(&other));
}

#[test]
fn test_completeness_counter_check() {
    // substituting a different secret into solve yields a response the
    // verifier rejects (property check over random nonces and challenges)
    let zkp = toy_zkp();
    let (y1, y2) = zkp.compute_pair(&n(6)).unwrap();
    for _ in 0..20 {
        let k = ZKP::generate_random_number_below(&zkp.q).unwrap();
        let c = ZKP::generate_random_number_below(&zkp.q).unwrap();
        let (r1, r2) = zkp.compute_pair(&k).unwrap();

        let honest = zkp.solve(&k, &c, &n(6)).unwrap();
        assert!(zkp.verify(&r1, &r2, &y1, &y2, &c, &honest).unwrap());

        // x' = 7 != 6; the proof fails unless c happens to be 0
        let forged = zkp.solve(&k, &c, &n(7)).unwrap();
        if !c.eq_value(&n(0)) {
            assert!(!zkp.verify(&r1, &r2, &y1, &y2, &c, &forged).unwrap());
        }
    }
}
