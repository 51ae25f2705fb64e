//! Unbounded non-negative integers for the proof engine, represented as
//! minimal big-endian byte strings. The representation is the same one the
//! protocol puts on the wire, so the codec at the system boundary is a
//! near-identity and every arithmetic contract is stated over the numeric
//! value of the bytes.

use num_bigint::RandBigInt;
use vstd::arithmetic::div_mod::*;
use vstd::arithmetic::power::pow;
use vstd::prelude::*;

verus! {

/// The numeric value of a big-endian byte string.
pub open spec fn be_val(s: Seq<u8>) -> nat
    decreases s.len(),
{
    if s.len() == 0 {
        0
    } else {
        (256 * be_val(s.drop_last()) + s.last()) as nat
    }
}

/// Powers of 256, the weight of each byte position.
pub open spec fn pow256(n: nat) -> nat
    decreases n,
{
    if n == 0 {
        1
    } else {
        256 * pow256((n - 1) as nat)
    }
}

/// Minimal big-endian form: at least one byte, and no leading zero byte
/// except in the one-byte encoding of zero itself.
pub open spec fn canonical(s: Seq<u8>) -> bool {
    s.len() >= 1 && (s.len() > 1 ==> s[0] != 0)
}

/// An unbounded non-negative integer held as its minimal big-endian bytes.
pub struct Bignum {
    pub bytes: Vec<u8>,
}

pub proof fn lemma_pow256_positive(n: nat)
    ensures
        pow256(n) >= 1,
    decreases n,
{
    if n > 0 {
        lemma_pow256_positive((n - 1) as nat);
    }
}

/// Prepending a byte adds its value at the weight of the old length.
pub proof fn lemma_be_val_prepend(s: Seq<u8>, d: u8)
    ensures
        be_val(s.insert(0, d)) == d * pow256(s.len()) + be_val(s),
    decreases s.len(),
{
    let t = s.insert(0, d);
    if s.len() == 0 {
        assert(t =~= seq![d]);
        assert(t.drop_last() =~= Seq::<u8>::empty());
        assert(be_val(Seq::<u8>::empty()) == 0);
        assert(pow256(0) == 1);
        assert(be_val(t) == d * pow256(s.len()) + be_val(s));
    } else {
        assert(t.drop_last() =~= s.drop_last().insert(0, d));
        assert(t.last() == s.last());
        lemma_be_val_prepend(s.drop_last(), d);
        assert(pow256(s.len()) == 256 * pow256((s.len() - 1) as nat));
        assert(be_val(t) == 256 * be_val(t.drop_last()) + t.last());
        assert(be_val(s) == 256 * be_val(s.drop_last()) + s.last());
        assert(256 * (d * pow256((s.len() - 1) as nat)) == d * (256 * pow256(
            (s.len() - 1) as nat,
        ))) by (nonlinear_arith);
        assert(256 * (d * pow256((s.len() - 1) as nat) + be_val(s.drop_last())) == 256 * (d
            * pow256((s.len() - 1) as nat)) + 256 * be_val(s.drop_last())) by (nonlinear_arith);
        assert(be_val(t) == d * pow256(s.len()) + be_val(s));
    }
}

/// A byte string's value is below the weight one place past its end.
pub proof fn lemma_be_val_upper(s: Seq<u8>)
    ensures
        be_val(s) < pow256(s.len()),
    decreases s.len(),
{
    if s.len() > 0 {
        lemma_be_val_upper(s.drop_last());
        assert(256 * be_val(s.drop_last()) <= 256 * (pow256((s.len() - 1) as nat) - 1))
            by (nonlinear_arith)
            requires
                be_val(s.drop_last()) <= pow256((s.len() - 1) as nat) - 1,
        ;
    }
}

pub proof fn lemma_pow256_mono(m: nat, n: nat)
    ensures
        m <= n ==> pow256(m) <= pow256(n),
    decreases n,
{
    if n > 0 && m <= n - 1 {
        lemma_pow256_mono(m, (n - 1) as nat);
        lemma_pow256_positive((n - 1) as nat);
    }
}

/// A byte string that starts with a nonzero byte is at least the weight of
/// its leading position.
pub proof fn lemma_be_val_lower(s: Seq<u8>)
    requires
        s.len() >= 1,
        s[0] != 0,
    ensures
        be_val(s) >= pow256((s.len() - 1) as nat),
{
    let tail = s.subrange(1, s.len() as int);
    assert(s =~= tail.insert(0, s[0]));
    lemma_be_val_prepend(tail, s[0]);
    lemma_pow256_positive(tail.len());
    assert(s[0] * pow256(tail.len()) >= pow256(tail.len())) by (nonlinear_arith)
        requires
            s[0] >= 1,
            pow256(tail.len()) >= 1,
    ;
}

/// Of two minimal forms, the shorter one holds the smaller value.
pub proof fn lemma_canonical_len_lt(s: Seq<u8>, t: Seq<u8>)
    requires
        canonical(s),
        canonical(t),
        s.len() < t.len(),
    ensures
        be_val(s) < be_val(t),
{
    lemma_be_val_upper(s);
    lemma_be_val_lower(t);
    lemma_pow256_mono(s.len(), (t.len() - 1) as nat);
}

/// Byte strings of one length compare as their values do at the first
/// position where they differ.
pub proof fn lemma_be_val_lex(s: Seq<u8>, t: Seq<u8>, i: int)
    requires
        s.len() == t.len(),
        0 <= i < s.len(),
        forall|j: int| 0 <= j < i ==> s[j] == t[j],
        s[i] < t[i],
    ensures
        be_val(s) < be_val(t),
    decreases i,
{
    let s1 = s.subrange(1, s.len() as int);
    let t1 = t.subrange(1, t.len() as int);
    assert(s =~= s1.insert(0, s[0]));
    assert(t =~= t1.insert(0, t[0]));
    lemma_be_val_prepend(s1, s[0]);
    lemma_be_val_prepend(t1, t[0]);
    let p = pow256(s1.len());
    if i == 0 {
        lemma_be_val_upper(s1);
        assert(s[0] * p + p <= t[0] * p) by (nonlinear_arith)
            requires
                s[0] + 1 <= t[0],
                p >= 0,
        ;
    } else {
        assert(forall|j: int| 0 <= j < i - 1 ==> s1[j] == t1[j]);
        lemma_be_val_lex(s1, t1, i - 1);
    }
}

/// On byte strings of one length, the value determines the bytes.
pub proof fn lemma_be_val_injective_fixed_len(s: Seq<u8>, t: Seq<u8>)
    requires
        s.len() == t.len(),
        be_val(s) == be_val(t),
    ensures
        s == t,
    decreases s.len(),
{
    if s.len() == 0 {
        assert(s =~= t);
    } else if s[0] < t[0] {
        lemma_be_val_lex(s, t, 0);
    } else if t[0] < s[0] {
        lemma_be_val_lex(t, s, 0);
    } else {
        let s1 = s.subrange(1, s.len() as int);
        let t1 = t.subrange(1, t.len() as int);
        assert(s =~= s1.insert(0, s[0]));
        assert(t =~= t1.insert(0, t[0]));
        lemma_be_val_prepend(s1, s[0]);
        lemma_be_val_prepend(t1, t[0]);
        lemma_be_val_injective_fixed_len(s1, t1);
        assert(s =~= t);
    }
}

/// Leading zero bytes do not change the value.
pub proof fn lemma_be_val_skip_zeros(s: Seq<u8>, i: int)
    requires
        0 <= i <= s.len(),
        forall|j: int| 0 <= j < i ==> s[j] == 0,
    ensures
        be_val(s) == be_val(s.subrange(i, s.len() as int)),
    decreases i,
{
    if i == 0 {
        assert(s.subrange(0, s.len() as int) =~= s);
    } else {
        lemma_be_val_skip_zeros(s, i - 1);
        let outer = s.subrange(i - 1, s.len() as int);
        let inner = s.subrange(i, s.len() as int);
        assert(outer =~= inner.insert(0, s[i - 1]));
        lemma_be_val_prepend(inner, s[i - 1]);
        assert(be_val(outer) == be_val(inner));
    }
}

/// Each integer has exactly one minimal big-endian form.
pub proof fn lemma_canonical_unique(s: Seq<u8>, t: Seq<u8>)
    requires
        canonical(s),
        canonical(t),
        be_val(s) == be_val(t),
    ensures
        s == t,
{
    if s.len() < t.len() {
        lemma_canonical_len_lt(s, t);
    } else if t.len() < s.len() {
        lemma_canonical_len_lt(t, s);
    } else {
        lemma_be_val_injective_fixed_len(s, t);
    }
}

impl Bignum {
    /// The integer this value stands for.
    pub open spec fn val(&self) -> nat {
        be_val(self.bytes@)
    }

    /// The representation is minimal, so each integer has exactly one form.
    pub open spec fn wf(&self) -> bool {
        canonical(self.bytes@)
    }

    /// Builds the minimal big-endian form of a machine integer.
    pub fn from_u64(n: u64) -> (r: Bignum)
        ensures
            r.wf(),
            r.val() == n,
    {
        let mut bytes: Vec<u8> = Vec::new();
        if n == 0 {
            bytes.push(0);
            proof {
                lemma_be_val_prepend(Seq::<u8>::empty(), 0u8);
                assert(bytes@ =~= Seq::<u8>::empty().insert(0, 0u8));
            }
            return Bignum { bytes };
        }
        let mut m: u64 = n;
        assert(be_val(bytes@) == 0);
        assert(pow256(0) == 1);
        while m > 0
            invariant
                n == m * pow256(bytes@.len()) + be_val(bytes@),
                m > 0 || (bytes@.len() >= 1 && bytes@[0] != 0),
            decreases m,
        {
            let ghost prev = bytes@;
            let ghost m_prev = m;
            let d: u8 = (m % 256) as u8;
            bytes.insert(0, d);
            m = m / 256;
            proof {
                lemma_be_val_prepend(prev, d);
                lemma_fundamental_div_mod(m_prev as int, 256);
                assert((m * 256 + d) * pow256(prev.len()) == m * (256 * pow256(prev.len())) + d
                    * pow256(prev.len())) by (nonlinear_arith);
            }
        }
        Bignum { bytes }
    }

    /// Numeric comparison of two minimal forms: shorter means smaller, and
    /// at one length the byte strings compare lexicographically.
    pub fn lt(&self, other: &Bignum) -> (r: bool)
        requires
            self.wf(),
            other.wf(),
        ensures
            r == (self.val() < other.val()),
    {
        let na = self.bytes.len();
        let nb = other.bytes.len();
        if na < nb {
            proof {
                lemma_canonical_len_lt(self.bytes@, other.bytes@);
            }
            return true;
        }
        if nb < na {
            proof {
                lemma_canonical_len_lt(other.bytes@, self.bytes@);
            }
            return false;
        }
        let mut i: usize = 0;
        while i < na
            invariant
                na == self.bytes@.len(),
                na == other.bytes@.len(),
                i <= na,
                forall|j: int| 0 <= j < i ==> self.bytes@[j] == other.bytes@[j],
            decreases na - i,
        {
            let ai = self.bytes[i];
            let bi = other.bytes[i];
            if ai < bi {
                proof {
                    lemma_be_val_lex(self.bytes@, other.bytes@, i as int);
                }
                return true;
            }
            if bi < ai {
                proof {
                    lemma_be_val_lex(other.bytes@, self.bytes@, i as int);
                }
                return false;
            }
            i = i + 1;
        }
        proof {
            assert(self.bytes@ =~= other.bytes@);
        }
        false
    }

    /// Numeric equality of two minimal forms.
    pub fn eq_value(&self, other: &Bignum) -> (r: bool)
        requires
            self.wf(),
            other.wf(),
        ensures
            r == (self.val() == other.val()),
    {
        !self.lt(other) && !other.lt(self)
    }
}

impl Clone for Bignum {
    /// Copies the bytes, so the copy stands for the same integer.
    fn clone(&self) -> (r: Bignum)
        ensures
            r.bytes@ == self.bytes@,
    {
        let n = self.bytes.len();
        let mut bytes: Vec<u8> = Vec::new();
        let mut i: usize = 0;
        while i < n
            invariant
                n == self.bytes@.len(),
                i <= n,
                bytes@ == self.bytes@.subrange(0, i as int),
            decreases n - i,
        {
            bytes.push(self.bytes[i]);
            proof {
                assert(bytes@ =~= self.bytes@.subrange(0, i + 1));
            }
            i = i + 1;
        }
        proof {
            assert(bytes@ =~= self.bytes@);
        }
        Bignum { bytes }
    }
}

/// Relies on num_bigint: `from_bytes_be` reads big-endian bytes,
/// `Mul for BigUint` multiplies, and `to_bytes_be` writes the product in
/// minimal big-endian form.
#[verifier::external_body]
pub(crate) fn big_mul(a: &Bignum, b: &Bignum) -> (r: Bignum)
    ensures
        r.wf(),
        r.val() == a.val() * b.val(),
{
    let x = num_bigint::BigUint::from_bytes_be(&a.bytes);
    let y = num_bigint::BigUint::from_bytes_be(&b.bytes);
    Bignum { bytes: (x * y).to_bytes_be() }
}

/// Relies on num_bigint: `from_bytes_be`, `Add for BigUint`, and
/// `to_bytes_be`, which writes the sum in minimal big-endian form.
#[verifier::external_body]
pub(crate) fn big_add(a: &Bignum, b: &Bignum) -> (r: Bignum)
    ensures
        r.wf(),
        r.val() == a.val() + b.val(),
{
    let x = num_bigint::BigUint::from_bytes_be(&a.bytes);
    let y = num_bigint::BigUint::from_bytes_be(&b.bytes);
    Bignum { bytes: (x + y).to_bytes_be() }
}

/// Relies on num_bigint: `Sub for BigUint` computes the difference and
/// panics when it would go negative, which the precondition excludes.
#[verifier::external_body]
pub(crate) fn big_sub(a: &Bignum, b: &Bignum) -> (r: Bignum)
    requires
        b.val() <= a.val(),
    ensures
        r.wf(),
        r.val() == a.val() - b.val(),
{
    let x = num_bigint::BigUint::from_bytes_be(&a.bytes);
    let y = num_bigint::BigUint::from_bytes_be(&b.bytes);
    Bignum { bytes: (x - y).to_bytes_be() }
}

/// Relies on num_bigint: `Rem for BigUint` computes the remainder and
/// panics on a zero modulus, which the precondition excludes.
#[verifier::external_body]
pub(crate) fn big_rem(a: &Bignum, m: &Bignum) -> (r: Bignum)
    requires
        m.val() > 0,
    ensures
        r.wf(),
        r.val() == a.val() % m.val(),
{
    let x = num_bigint::BigUint::from_bytes_be(&a.bytes);
    let y = num_bigint::BigUint::from_bytes_be(&m.bytes);
    Bignum { bytes: (x % y).to_bytes_be() }
}

/// Relies on num_bigint: `BigUint::modpow` returns `self ^ exponent %
/// modulus` and panics on a zero modulus, which the precondition excludes.
#[verifier::external_body]
pub(crate) fn big_modpow(base: &Bignum, exponent: &Bignum, modulus: &Bignum) -> (r: Bignum)
    requires
        modulus.val() > 0,
    ensures
        r.wf(),
        r.val() == pow(base.val() as int, exponent.val()) % (modulus.val() as int),
{
    let b = num_bigint::BigUint::from_bytes_be(&base.bytes);
    let e = num_bigint::BigUint::from_bytes_be(&exponent.bytes);
    let m = num_bigint::BigUint::from_bytes_be(&modulus.bytes);
    Bignum { bytes: b.modpow(&e, &m).to_bytes_be() }
}

/// Relies on num_bigint's `gen_biguint_below` over rand's `thread_rng`: it
/// draws by rejection sampling, so every outcome lies strictly below the
/// bound; it panics on a zero bound, which the precondition excludes.
#[verifier::external_body]
pub(crate) fn big_random_below(bound: &Bignum) -> (r: Bignum)
    requires
        bound.val() > 0,
    ensures
        r.wf(),
        r.val() < bound.val(),
{
    let b = num_bigint::BigUint::from_bytes_be(&bound.bytes);
    let mut rng = rand::thread_rng();
    Bignum { bytes: rng.gen_biguint_below(&b).to_bytes_be() }
}

} // verus!
