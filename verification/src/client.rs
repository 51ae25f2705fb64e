//! Client-side computation for the protocol: deriving the secret from a
//! password, building the commitment pairs that registration and
//! challenge requests carry, and solving a received challenge. The
//! network exchange around these calls belongs to the transport layer.

use crate::bignum::Bignum;
use crate::bignum::be_val;
use crate::bignum::big_rem;
use crate::engine::ZKP;
use crate::engine::ZkpError;
use crate::engine::ZkpResult;
use crate::engine::mod_exp;
use crate::engine::response;
use crate::serialization::deserialize_biguint;
use crate::serialization::serialize_biguint;
use sha2::Digest;
use vstd::prelude::*;
use vstd::string::StringSliceAdditionalSpecFns;

verus! {

/// What SHA-256 returns for a byte string: a digest that depends on the
/// input bytes alone.
pub uninterp spec fn sha256_of(input: Seq<u8>) -> Seq<u8>;

/// Relies on sha2's `Sha256`: one `update` over the whole input followed
/// by `finalize` yields the 32-byte SHA-256 digest of the input, a
/// function of the input alone.
#[verifier::external_body]
fn sha256_digest(input: &[u8]) -> (r: Vec<u8>)
    ensures
        r@ == sha256_of(input@),
        r@.len() == 32,
{
    let mut hasher = sha2::Sha256::new();
    hasher.update(input);
    hasher.finalize().to_vec()
}

/// The integer a password stands for: its SHA-256 digest read as a
/// big-endian integer, reduced into `[0, q)`. Deterministic, so the same
/// password always yields the same secret.
pub open spec fn password_secret(password: &str, q: nat) -> nat {
    be_val(sha256_of(password.spec_bytes())) % q
}

/// Derives the secret integer for a password.
pub fn password_to_biguint(password: &str, zkp: &ZKP) -> (r: Bignum)
    requires
        zkp.wf(),
    ensures
        r.wf(),
        r.val() == password_secret(password, zkp.q.val()),
        r.val() < zkp.q.val(),
{
    let digest = sha256_digest(password.as_bytes());
    let n = match deserialize_biguint(digest.as_slice()) {
        Ok(v) => v,
        Err(_) => Bignum::from_u64(0),
    };
    let reduced = big_rem(&n, &zkp.q);
    proof {
        vstd::arithmetic::div_mod::lemma_mod_bound(n.val() as int, zkp.q.val() as int);
    }
    reduced
}

/// The registration payload: the commitment pair for the
/// password-derived secret, in wire encoding.
pub fn registration_commitments(zkp: &ZKP, password: &str) -> (r: (Vec<u8>, Vec<u8>))
    requires
        zkp.wf(),
    ensures
        ({
            let x = password_secret(password, zkp.q.val());
            &&& be_val(r.0@) == mod_exp(zkp.alpha.val(), x, zkp.p.val())
            &&& be_val(r.1@) == mod_exp(zkp.beta.val(), x, zkp.p.val())
            &&& r.0@.len() >= 1
            &&& r.1@.len() >= 1
        }),
{
    let x = password_to_biguint(password, zkp);
    let (y1, y2) = match zkp.compute_pair(&x) {
        Ok(pair) => pair,
        Err(_) => (Bignum::from_u64(0), Bignum::from_u64(0)),
    };
    (serialize_biguint(&y1), serialize_biguint(&y2))
}

/// The challenge-request payload: a fresh random nonce and the wire
/// encoding of its commitment pair. The nonce must be kept for
/// `challenge_response` and never reused across attempts.
pub fn challenge_commitments(zkp: &ZKP) -> (r: (Bignum, Vec<u8>, Vec<u8>))
    requires
        zkp.wf(),
    ensures
        r.0.wf(),
        r.0.val() < zkp.q.val(),
        be_val(r.1@) == mod_exp(zkp.alpha.val(), r.0.val(), zkp.p.val()),
        be_val(r.2@) == mod_exp(zkp.beta.val(), r.0.val(), zkp.p.val()),
        r.1@.len() >= 1,
        r.2@.len() >= 1,
{
    let k = match ZKP::generate_random_number_below(&zkp.q) {
        Ok(v) => v,
        Err(_) => Bignum::from_u64(0),
    };
    let (r1, r2) = match zkp.compute_pair(&k) {
        Ok(pair) => pair,
        Err(_) => (Bignum::from_u64(0), Bignum::from_u64(0)),
    };
    (k, serialize_biguint(&r1), serialize_biguint(&r2))
}

/// The answer payload: the response `(k - c x) mod q` for the received
/// challenge, the kept nonce, and the password-derived secret, in wire
/// encoding. A malformed or out-of-range challenge is reported, never
/// answered.
pub fn challenge_response(zkp: &ZKP, k: &Bignum, c_bytes: &[u8], password: &str) -> (r: ZkpResult<
    Vec<u8>,
>)
    requires
        zkp.wf(),
        k.wf(),
        k.val() < zkp.q.val(),
    ensures
        match r {
            Ok(s_bytes) => {
                &&& c_bytes@.len() > 0
                &&& be_val(c_bytes@) < zkp.q.val()
                &&& be_val(s_bytes@) == response(
                    k.val(),
                    be_val(c_bytes@),
                    password_secret(password, zkp.q.val()),
                    zkp.q.val(),
                )
                &&& s_bytes@.len() >= 1
            },
            Err(e) => {
                &&& (c_bytes@.len() == 0 || be_val(c_bytes@) >= zkp.q.val())
                &&& (e is SerializationError <==> c_bytes@.len() == 0)
                &&& (c_bytes@.len() > 0 ==> e is InvalidInput)
            },
        },
{
    let c = match deserialize_biguint(c_bytes) {
        Ok(v) => v,
        Err(e) => {
            return Err(e);
        },
    };
    let x = password_to_biguint(password, zkp);
    let s = match zkp.solve(k, &c, &x) {
        Ok(v) => v,
        Err(e) => {
            return Err(e);
        },
    };
    Ok(serialize_biguint(&s))
}

} // verus!
