//! The Chaum-Pedersen proof engine: group parameters, commitment
//! computation, challenge-response solving, and proof verification over a
//! prime-order subgroup. Every operation is a pure function of its
//! arguments except the two random samplers, whose contracts state what
//! holds of every outcome.

use crate::bignum::Bignum;
use crate::bignum::big_add;
use crate::bignum::big_modpow;
use crate::bignum::big_mul;
use crate::bignum::big_random_below;
use crate::bignum::big_rem;
use crate::bignum::big_sub;
use rand::Rng;
use vstd::arithmetic::div_mod::*;
use vstd::arithmetic::power::*;
use vstd::prelude::*;

verus! {

/// Error type for proof-engine operations.
#[derive(Debug)]
pub enum ZkpError {
    InvalidProof,
    SerializationError(String),
    ComputationError(String),
    InvalidInput(String),
}

/// Result type for proof-engine operations.
pub type ZkpResult<T> = Result<T, ZkpError>;

/// Configuration for the engine's constants and parameters.
#[derive(Debug, Clone, Copy, PartialEq, Eq, Structural)]
pub struct ZkpConfig {
    pub key_size_bits: usize,
    pub use_predefined_constants: bool,
}

impl Default for ZkpConfig {
    /// The built-in parameter set: a 1024-bit group.
    fn default() -> (r: Self)
        ensures
            r.key_size_bits == 1024,
            r.use_predefined_constants,
    {
        Self { key_size_bits: 1024, use_predefined_constants: true }
    }
}

/// `b ^ e mod m`, the one operation commitments are built from.
pub open spec fn mod_exp(b: nat, e: nat, m: nat) -> nat {
    (pow(b as int, e) % (m as int)) as nat
}

/// The response to challenge `c` for nonce `k` and secret `x`:
/// `(k - c * x) mod q`, computed in the integers, so the result lies in
/// `[0, q)` even when `c * x` exceeds `k`.
pub open spec fn response(k: nat, c: nat, x: nat, q: nat) -> nat {
    ((k - c * x) % (q as int)) as nat
}

/// One half of the verification equation: `g^s * y^c mod p`.
pub open spec fn check_value(g: nat, y: nat, s: nat, c: nat, p: nat) -> nat {
    (mod_exp(g, s, p) * mod_exp(y, c, p)) % p
}

/// Both verification equations: the commitment-of-nonce pair must equal
/// the recomputed pair, for each generator.
pub open spec fn verify_passes(
    alpha: nat,
    beta: nat,
    p: nat,
    r1: nat,
    r2: nat,
    y1: nat,
    y2: nat,
    c: nat,
    s: nat,
) -> bool {
    r1 == check_value(alpha, y1, s, c, p) && r2 == check_value(beta, y2, s, c, p)
}

/// The group parameters: prime modulus `p`, subgroup order `q`, and the
/// two generators `alpha` and `beta`.
pub struct ZKP {
    pub p: Bignum,
    pub q: Bignum,
    pub alpha: Bignum,
    pub beta: Bignum,
}

impl ZKP {
    /// The invariant of a usable parameter set: minimal representations,
    /// `p > 1`, `q > 1`, and both generators strictly between 1 and `p`.
    pub open spec fn wf(&self) -> bool {
        &&& self.p.wf()
        &&& self.q.wf()
        &&& self.alpha.wf()
        &&& self.beta.wf()
        &&& 1 < self.p.val()
        &&& 1 < self.q.val()
        &&& 1 < self.alpha.val() < self.p.val()
        &&& 1 < self.beta.val() < self.p.val()
    }

    /// Creates an engine with the built-in constants, or reports that
    /// externally supplied parameters must be passed in directly.
    pub fn new(config: Option<ZkpConfig>) -> (r: ZkpResult<Self>)
        ensures
            match r {
                Ok(z) => {
                    &&& (config matches Some(c) ==> c.use_predefined_constants)
                    &&& z.p.wf() && z.q.wf() && z.alpha.wf() && z.beta.wf()
                    &&& z.p.val() == group_modulus()
                    &&& z.q.val() == group_order()
                    &&& z.alpha.val() == group_generator()
                    &&& z.beta.val() == mod_exp(group_generator(), second_generator_exponent(), group_modulus())
                    &&& z.beta.val() < z.p.val()
                },
                Err(e) => {
                    &&& (config matches Some(c) && !c.use_predefined_constants)
                    &&& e is InvalidInput
                },
            },
    {
        let config = match config {
            Some(c) => c,
            None => ZkpConfig::default(),
        };
        if config.use_predefined_constants {
            let (alpha, beta, p, q) = Self::get_constants();
            Ok(Self { p, q, alpha, beta })
        } else {
            Err(ZkpError::InvalidInput("Custom parameters not implemented".to_owned()))
        }
    }

    /// `(alpha^exp mod p, beta^exp mod p)`: the commitment pair for a
    /// secret, or the commitment-of-nonce pair for a nonce.
    pub fn compute_pair(&self, exp: &Bignum) -> (r: ZkpResult<(Bignum, Bignum)>)
        requires
            self.wf(),
            exp.wf(),
        ensures
            match r {
                Ok(pair) => {
                    &&& exp.val() < self.q.val()
                    &&& pair.0.wf() && pair.1.wf()
                    &&& pair.0.val() == mod_exp(self.alpha.val(), exp.val(), self.p.val())
                    &&& pair.1.val() == mod_exp(self.beta.val(), exp.val(), self.p.val())
                    &&& pair.0.val() < self.p.val()
                    &&& pair.1.val() < self.p.val()
                },
                Err(e) => {
                    &&& exp.val() >= self.q.val()
                    &&& e is InvalidInput
                },
            },
    {
        if !exp.lt(&self.q) {
            return Err(ZkpError::InvalidInput("Exponent must be less than q".to_owned()));
        }
        let p1 = big_modpow(&self.alpha, exp, &self.p);
        let p2 = big_modpow(&self.beta, exp, &self.p);
        proof {
            lemma_mod_bound(pow(self.alpha.val() as int, exp.val()), self.p.val() as int);
            lemma_mod_bound(pow(self.beta.val() as int, exp.val()), self.p.val() as int);
        }
        Ok((p1, p2))
    }

    /// The prover's response `s = (k - c * x) mod q`, using unsigned
    /// arithmetic that first reduces `c * x` and then adds `q` back when
    /// the difference would go negative.
    pub fn solve(&self, k: &Bignum, c: &Bignum, x: &Bignum) -> (r: ZkpResult<Bignum>)
        requires
            self.wf(),
            k.wf(),
            c.wf(),
            x.wf(),
        ensures
            match r {
                Ok(s) => {
                    &&& k.val() < self.q.val()
                    &&& c.val() < self.q.val()
                    &&& x.val() < self.q.val()
                    &&& s.wf()
                    &&& s.val() < self.q.val()
                    &&& s.val() == response(k.val(), c.val(), x.val(), self.q.val())
                },
                Err(e) => {
                    &&& (k.val() >= self.q.val() || c.val() >= self.q.val() || x.val()
                        >= self.q.val())
                    &&& e is InvalidInput
                },
            },
    {
        if !k.lt(&self.q) || !c.lt(&self.q) || !x.lt(&self.q) {
            return Err(ZkpError::InvalidInput("All parameters must be less than q".to_owned()));
        }
        let cx = big_mul(c, x);
        let t = big_rem(&cx, &self.q);
        proof {
            lemma_mod_bound(cx.val() as int, self.q.val() as int);
        }
        let s = if !k.lt(&t) {
            big_sub(k, &t)
        } else {
            big_sub(&big_add(k, &self.q), &t)
        };
        proof {
            let ki = k.val() as int;
            let cxi = cx.val() as int;
            let qi = self.q.val() as int;
            let ti = t.val() as int;
            lemma_sub_mod_noop_right(ki, cxi, qi);
            assert((ki - cxi) % qi == (ki - ti) % qi);
            if k.val() >= t.val() {
                lemma_small_mod((ki - ti) as nat, self.q.val());
            } else {
                lemma_mod_add_multiples_vanish(ki - ti, qi);
                lemma_small_mod((ki - ti + qi) as nat, self.q.val());
            }
        }
        Ok(s)
    }

    /// Checks the proof equations `r1 == alpha^s * y1^c mod p` and
    /// `r2 == beta^s * y2^c mod p`; both must hold.
    pub fn verify(
        &self,
        r1: &Bignum,
        r2: &Bignum,
        y1: &Bignum,
        y2: &Bignum,
        c: &Bignum,
        s: &Bignum,
    ) -> (r: ZkpResult<bool>)
        requires
            self.wf(),
            r1.wf(),
            r2.wf(),
            y1.wf(),
            y2.wf(),
            c.wf(),
            s.wf(),
        ensures
            match r {
                Ok(b) => {
                    &&& c.val() < self.q.val()
                    &&& s.val() < self.q.val()
                    &&& r1.val() < self.p.val()
                    &&& r2.val() < self.p.val()
                    &&& y1.val() < self.p.val()
                    &&& y2.val() < self.p.val()
                    &&& b == verify_passes(
                        self.alpha.val(),
                        self.beta.val(),
                        self.p.val(),
                        r1.val(),
                        r2.val(),
                        y1.val(),
                        y2.val(),
                        c.val(),
                        s.val(),
                    )
                },
                Err(e) => {
                    &&& (c.val() >= self.q.val() || s.val() >= self.q.val() || r1.val()
                        >= self.p.val() || r2.val() >= self.p.val() || y1.val() >= self.p.val()
                        || y2.val() >= self.p.val())
                    &&& e is InvalidInput
                },
            },
    {
        if !c.lt(&self.q) || !s.lt(&self.q) {
            return Err(
                ZkpError::InvalidInput("Challenge and solution must be less than q".to_owned()),
            );
        }
        if !r1.lt(&self.p) || !r2.lt(&self.p) || !y1.lt(&self.p) || !y2.lt(&self.p) {
            return Err(ZkpError::InvalidInput("All commitments must be less than p".to_owned()));
        }
        let alpha_s = big_modpow(&self.alpha, s, &self.p);
        let y1_c = big_modpow(y1, c, &self.p);
        let check1 = big_rem(&big_mul(&alpha_s, &y1_c), &self.p);
        let cond1 = r1.eq_value(&check1);

        let beta_s = big_modpow(&self.beta, s, &self.p);
        let y2_c = big_modpow(y2, c, &self.p);
        let check2 = big_rem(&big_mul(&beta_s, &y2_c), &self.p);
        let cond2 = r2.eq_value(&check2);

        Ok(cond1 && cond2)
    }

    /// Draws a uniformly distributed integer in `[0, bound)` from a
    /// cryptographically secure source.
    pub fn generate_random_number_below(bound: &Bignum) -> (r: ZkpResult<Bignum>)
        requires
            bound.wf(),
        ensures
            match r {
                Ok(v) => {
                    &&& bound.val() > 0
                    &&& v.wf()
                    &&& v.val() < bound.val()
                },
                Err(e) => {
                    &&& bound.val() == 0
                    &&& e is InvalidInput
                },
            },
    {
        let zero = Bignum::from_u64(0);
        if bound.eq_value(&zero) {
            return Err(ZkpError::InvalidInput("Bound cannot be zero".to_owned()));
        }
        Ok(big_random_below(bound))
    }

    /// Draws a random alphanumeric string of the requested length.
    pub fn generate_random_string(size: usize) -> (r: ZkpResult<String>)
        ensures
            match r {
                Ok(s) => {
                    &&& size > 0
                    &&& s@.len() == size
                    &&& forall|i: int| 0 <= i < s@.len() ==> alphanumeric_char(#[trigger] s@[i])
                },
                Err(e) => {
                    &&& size == 0
                    &&& e is InvalidInput
                },
            },
    {
        if size == 0 {
            return Err(ZkpError::InvalidInput("Size cannot be zero".to_owned()));
        }
        Ok(random_alphanumeric_string(size))
    }

    /// The built-in 1024-bit parameter set, returned as
    /// `(alpha, beta, p, q)`; `beta` is a power of `alpha`, so it generates
    /// the same subgroup.
    pub fn get_constants() -> (r: (Bignum, Bignum, Bignum, Bignum))
        ensures
            r.0.wf() && r.1.wf() && r.2.wf() && r.3.wf(),
            r.0.val() == group_generator(),
            r.1.val() == mod_exp(group_generator(), second_generator_exponent(), group_modulus()),
            r.1.val() < group_modulus(),
            r.2.val() == group_modulus(),
            r.3.val() == group_order(),
    {
        let mut p = Bignum::from_u64(0xB10B8F96A080E01D);
        p = append_chunk(&p, 0xDE92DE5EAE5D54EC);
        p = append_chunk(&p, 0x52C99FBCFB06A3C6);
        p = append_chunk(&p, 0x9A6A9DCA52D23B61);
        p = append_chunk(&p, 0x6073E28675A23D18);
        p = append_chunk(&p, 0x9838EF1E2EE652C0);
        p = append_chunk(&p, 0x13ECB4AEA9061123);
        p = append_chunk(&p, 0x24975C3CD49B83BF);
        p = append_chunk(&p, 0xACCBDD7D90C4BD70);
        p = append_chunk(&p, 0x98488E9C219A7372);
        p = append_chunk(&p, 0x4EFFD6FAE5644738);
        p = append_chunk(&p, 0xFAA31A4FF55BCCC0);
        p = append_chunk(&p, 0xA151AF5F0DC8B4BD);
        p = append_chunk(&p, 0x45BF37DF365C1A65);
        p = append_chunk(&p, 0xE68CFDA76D4DA708);
        p = append_chunk(&p, 0xDF1FB2BC2E4A4371);

        let mut alpha = Bignum::from_u64(0xA4D1CBD5C3FD3412);
        alpha = append_chunk(&alpha, 0x6765A442EFB99905);
        alpha = append_chunk(&alpha, 0xF8104DD258AC507F);
        alpha = append_chunk(&alpha, 0xD6406CFF14266D31);
        alpha = append_chunk(&alpha, 0x266FEA1E5C41564B);
        alpha = append_chunk(&alpha, 0x777E690F5504F213);
        alpha = append_chunk(&alpha, 0x160217B4B01B886A);
        alpha = append_chunk(&alpha, 0x5E91547F9E2749F4);
        alpha = append_chunk(&alpha, 0xD7FBD7D3B9A92EE1);
        alpha = append_chunk(&alpha, 0x909D0D2263F80A76);
        alpha = append_chunk(&alpha, 0xA6A24C087A091F53);
        alpha = append_chunk(&alpha, 0x1DBF0A0169B6A28A);
        alpha = append_chunk(&alpha, 0xD662A4D18E73AFA3);
        alpha = append_chunk(&alpha, 0x2D779D5918D08BC8);
        alpha = append_chunk(&alpha, 0x858F4DCEF97C2A24);
        alpha = append_chunk(&alpha, 0x855E6EEB22B3B2E5);
        let q0 = Bignum::from_u64(0xF518AA87);
        let q1 = append_chunk(&q0, 0x81A8DF278ABA4E7D);
        let q = append_chunk(&q1, 0x64B7CB9D49462353);

        let e0 = Bignum::from_u64(0x266FEA);
        let exp = append_chunk(&e0, 0x1E5C41564B777E69);

        assert(p.val() == group_modulus());
        assert(alpha.val() == group_generator());
        assert(q.val() == group_order());
        assert(exp.val() == second_generator_exponent());

        let beta = big_modpow(&alpha, &exp, &p);
        proof {
            lemma_mod_bound(pow(alpha.val() as int, exp.val()), p.val() as int);
        }
        (alpha, beta, p, q)
    }

    /// Range-checks the parameters; the service must refuse to start when
    /// this fails.
    pub fn validate_parameters(&self) -> (r: ZkpResult<()>)
        requires
            self.p.wf(),
            self.q.wf(),
            self.alpha.wf(),
            self.beta.wf(),
        ensures
            r is Ok <==> self.wf(),
            r is Err ==> (r matches Err(e) && e is InvalidInput),
    {
        let one = Bignum::from_u64(1);
        if !one.lt(&self.p) || !one.lt(&self.q) {
            return Err(ZkpError::InvalidInput("p and q must be greater than 1".to_owned()));
        }
        if !self.alpha.lt(&self.p) || !self.beta.lt(&self.p) {
            return Err(ZkpError::InvalidInput("Generators must be less than p".to_owned()));
        }
        if !one.lt(&self.alpha) || !one.lt(&self.beta) {
            return Err(ZkpError::InvalidInput("Generators must be greater than 1".to_owned()));
        }
        Ok(())
    }
}

/// The modulus of the built-in 1024-bit group.
pub open spec fn group_modulus() -> nat {
    0xB10B8F96A080E01DDE92DE5EAE5D54EC52C99FBCFB06A3C69A6A9DCA52D23B616073E28675A23D189838EF1E2EE652C013ECB4AEA906112324975C3CD49B83BFACCBDD7D90C4BD7098488E9C219A73724EFFD6FAE5644738FAA31A4FF55BCCC0A151AF5F0DC8B4BD45BF37DF365C1A65E68CFDA76D4DA708DF1FB2BC2E4A4371nat
}

/// The order of the subgroup the proofs run in.
pub open spec fn group_order() -> nat {
    0xF518AA8781A8DF278ABA4E7D64B7CB9D49462353nat
}

/// The first generator of the built-in group.
pub open spec fn group_generator() -> nat {
    0xA4D1CBD5C3FD34126765A442EFB99905F8104DD258AC507FD6406CFF14266D31266FEA1E5C41564B777E690F5504F213160217B4B01B886A5E91547F9E2749F4D7FBD7D3B9A92EE1909D0D2263F80A76A6A24C087A091F531DBF0A0169B6A28AD662A4D18E73AFA32D779D5918D08BC8858F4DCEF97C2A24855E6EEB22B3B2E5nat
}

/// The exponent that derives the second generator from the first.
pub open spec fn second_generator_exponent() -> nat {
    0x266FEA1E5C41564B777E69nat
}

/// Shifts an accumulated value up by 64 bits and adds the next chunk, so a
/// wide constant can be built from machine words.
fn append_chunk(acc: &Bignum, chunk: u64) -> (r: Bignum)
    requires
        acc.wf(),
    ensures
        r.wf(),
        r.val() == acc.val() * 0x10000000000000000 + chunk,
{
    let half = Bignum::from_u64(0x100000000);
    let shift = big_mul(&half, &half);
    let shifted = big_mul(acc, &shift);
    big_add(&shifted, &Bignum::from_u64(chunk))
}

/// The built-in parameters satisfy the domain invariant that the subgroup
/// order divides `p - 1`, as a subgroup order must.
pub proof fn lemma_builtin_order_divides_group()
    ensures
        (group_modulus() - 1) % (group_order() as int) == 0,
{
}

/// The verification equation holds for one generator `g` whose order
/// divides `q`: with commitment `y = g^x mod p`, nonce commitment
/// `r = g^k mod p`, and response `s = (k - c x) mod q`, the recomputed
/// value `g^s * y^c mod p` equals `r`.
proof fn lemma_check_equation(p: nat, q: nat, g: nat, x: nat, k: nat, c: nat)
    requires
        p > 1,
        q > 0,
        g >= 1,
        pow(g as int, q) % (p as int) == 1,
        k < q,
    ensures
        check_value(g, mod_exp(g, x, p), response(k, c, x, q), c, p) == mod_exp(g, k, p),
{
    let pi = p as int;
    let gi = g as int;
    let qi = q as int;
    let s = response(k, c, x, q);
    let y = mod_exp(g, x, p);
    let cx = c * x;

    // s is the Euclidean remainder of k - c*x by q, so s + c*x exceeds k
    // by a non-negative multiple of q.
    lemma_mod_bound(k - cx, qi);
    lemma_fundamental_div_mod(k - cx, qi);
    let d = (k - cx) / qi;
    assert(k - cx == qi * d + s);
    assert(d <= 0) by {
        if d >= 1 {
            assert(qi * d >= qi) by (nonlinear_arith)
                requires
                    qi > 0,
                    d >= 1,
            ;
        }
    }
    let t = (-d) as nat;
    assert(qi * d == -(qi * (t as int))) by (nonlinear_arith)
        requires
            d == -(t as int),
    ;
    assert(s + cx == k + q * t);

    // Remove the inner mod from y^c.
    lemma_mod_bound(pow(gi, x), pi);
    assert(y as int == pow(gi, x) % pi);
    lemma_pow_mod_noop(pow(gi, x), c, pi);
    assert(pow(y as int, c) % pi == pow(pow(gi, x), c) % pi);
    lemma_pow_multiplies(gi, x, c);
    vstd::arithmetic::mul::lemma_mul_is_commutative(x as int, c as int);
    assert(pow(y as int, c) % pi == pow(gi, cx) % pi);

    // Merge the product of powers into one power of g.
    lemma_mod_bound(pow(gi, s), pi);
    lemma_mod_bound(pow(y as int, c), pi);
    lemma_mul_mod_noop_general(pow(gi, s), pow(gi, cx), pi);
    lemma_pow_adds(gi, s, cx);
    assert(check_value(g, y, s, c, p) as int == pow(gi, (s + cx) as nat) % pi);

    // Split off the multiple of q, whose power reduces to 1 mod p.
    lemma_pow_adds(gi, k, q * t);
    lemma_pow_multiplies(gi, q, t);
    lemma_pow_mod_noop(pow(gi, q), t, pi);
    lemma1_pow(t);
    lemma_small_mod(1, p);
    assert(pow(gi, q * t) % pi == 1);
    lemma_mul_mod_noop_general(pow(gi, k), pow(gi, q * t), pi);
    lemma_mod_bound(pow(gi, k), pi);
    lemma_mod_twice(pow(gi, k), pi);
}

/// Soundness of the protocol: over parameters whose generators have order
/// dividing `q`, an honestly computed response passes verification. With
/// commitments `(y1, y2)` for secret `x`, nonce commitments `(r1, r2)` for
/// nonce `k`, and response `s = (k - c x) mod q`, both verification
/// equations hold, so `verify` answers true for every `x`, `k`, `c` in
/// range.
pub proof fn lemma_protocol_soundness(zkp: ZKP, x: nat, k: nat, c: nat)
    requires
        zkp.wf(),
        pow(zkp.alpha.val() as int, zkp.q.val()) % (zkp.p.val() as int) == 1,
        pow(zkp.beta.val() as int, zkp.q.val()) % (zkp.p.val() as int) == 1,
        x < zkp.q.val(),
        k < zkp.q.val(),
        c < zkp.q.val(),
    ensures
        verify_passes(
            zkp.alpha.val(),
            zkp.beta.val(),
            zkp.p.val(),
            mod_exp(zkp.alpha.val(), k, zkp.p.val()),
            mod_exp(zkp.beta.val(), k, zkp.p.val()),
            mod_exp(zkp.alpha.val(), x, zkp.p.val()),
            mod_exp(zkp.beta.val(), x, zkp.p.val()),
            c,
            response(k, c, x, zkp.q.val()),
        ),
{
    lemma_check_equation(zkp.p.val(), zkp.q.val(), zkp.alpha.val(), x, k, c);
    lemma_check_equation(zkp.p.val(), zkp.q.val(), zkp.beta.val(), x, k, c);
}

/// A digit or an ASCII letter.
pub open spec fn alphanumeric_char(ch: char) -> bool {
    ('0' <= ch && ch <= '9') || ('a' <= ch && ch <= 'z') || ('A' <= ch && ch <= 'Z')
}

/// Relies on rand's `Alphanumeric` distribution: `sample_iter` yields an
/// endless stream drawn from the ASCII digits and letters, so taking
/// `size` of them collects a string of exactly `size` alphanumeric
/// characters.
#[verifier::external_body]
fn random_alphanumeric_string(size: usize) -> (r: String)
    ensures
        r@.len() == size,
        forall|i: int| 0 <= i < r@.len() ==> alphanumeric_char(#[trigger] r@[i]),
{
    rand::thread_rng().sample_iter(rand::distributions::Alphanumeric).take(size).map(
        char::from,
    ).collect()
}

} // verus!
