//! The wire encoding of protocol integers: a minimal big-endian byte
//! sequence, the sole contract between the proof engine and the transport
//! layer. Encoding never emits an empty sequence, and decoding rejects one.

use crate::bignum::Bignum;
use crate::bignum::be_val;
use crate::bignum::canonical;
use crate::bignum::lemma_be_val_prepend;
use crate::bignum::lemma_be_val_skip_zeros;
use crate::bignum::lemma_canonical_unique;
use crate::engine::ZkpError;
use crate::engine::ZkpResult;
use vstd::prelude::*;

verus! {

/// Writes an integer as its minimal big-endian bytes.
pub fn serialize_biguint(value: &Bignum) -> (r: Vec<u8>)
    requires
        value.wf(),
    ensures
        r@ == value.bytes@,
        be_val(r@) == value.val(),
        r@.len() >= 1,
{
    value.bytes.clone()
}

/// Reads an integer from big-endian bytes; an empty sequence is malformed.
/// Leading zero bytes are accepted and dropped, so the result is minimal.
pub fn deserialize_biguint(bytes: &[u8]) -> (r: ZkpResult<Bignum>)
    ensures
        match r {
            Ok(b) => {
                &&& bytes@.len() > 0
                &&& b.wf()
                &&& b.val() == be_val(bytes@)
            },
            Err(e) => {
                &&& bytes@.len() == 0
                &&& e is SerializationError
            },
        },
{
    let n = bytes.len();
    if n == 0 {
        return Err(ZkpError::SerializationError("Empty byte array".to_owned()));
    }
    let mut i: usize = 0;
    while i < n && bytes[i] == 0
        invariant
            n == bytes@.len(),
            i <= n,
            forall|j: int| 0 <= j < i ==> bytes@[j] == 0,
        decreases n - i,
    {
        i = i + 1;
    }
    if i == n {
        let mut v: Vec<u8> = Vec::new();
        v.push(0);
        proof {
            lemma_be_val_skip_zeros(bytes@, n as int);
            assert(bytes@.subrange(n as int, n as int) =~= Seq::<u8>::empty());
            lemma_be_val_prepend(Seq::<u8>::empty(), 0u8);
            assert(v@ =~= Seq::<u8>::empty().insert(0, 0u8));
        }
        return Ok(Bignum { bytes: v });
    }
    let mut v: Vec<u8> = Vec::new();
    let mut j: usize = i;
    while j < n
        invariant
            n == bytes@.len(),
            i <= j <= n,
            v@ == bytes@.subrange(i as int, j as int),
        decreases n - j,
    {
        v.push(bytes[j]);
        proof {
            assert(v@ =~= bytes@.subrange(i as int, j + 1));
        }
        j = j + 1;
    }
    proof {
        lemma_be_val_skip_zeros(bytes@, i as int);
        assert(v@ =~= bytes@.subrange(i as int, n as int));
    }
    Ok(Bignum { bytes: v })
}

/// Codec round trip: for every value in the domain, decoding what
/// `serialize_biguint` emits gives the value back, and the minimal form is
/// unique, so it even gives the same bytes.
pub proof fn lemma_codec_round_trip(v: Bignum)
    requires
        v.wf(),
    ensures
        v.bytes@.len() > 0,
        be_val(v.bytes@) == v.val(),
        forall|w: Bignum| w.wf() && w.val() == be_val(v.bytes@) ==> w.bytes@ == v.bytes@,
{
    assert forall|w: Bignum| w.wf() && w.val() == be_val(v.bytes@) implies w.bytes@
        == v.bytes@ by {
        lemma_canonical_unique(w.bytes@, v.bytes@);
    }
}

} // verus!
