use vstd::prelude::*;
use sha2::{Digest, Sha256};
use crate::scalar::{be_value, group_order, le_value, scalar_from_bytes_mod_order, Scalar};
use crate::bls::{bls_order, fr_from_be_bytes_mod_order, BlsScalar};

verus! {

/// The SHA-256 digest of a byte string.
pub uninterp spec fn sha256_digest(data: Seq<u8>) -> Seq<u8>;

/// The challenge that a transcript yields: its SHA-256 digest read as a
/// little-endian integer and reduced modulo the group order.
pub open spec fn hash_to_scalar(t: Seq<u8>) -> int {
    le_value(sha256_digest(t)) as int % group_order()
}

/// Relies on sha2's `Sha256`: the digest of the whole byte string.
#[verifier::external_body]
pub(crate) fn sha256(data: &Vec<u8>) -> (r: [u8; 32])
    ensures
        r@ == sha256_digest(data@),
{
    let mut h = Sha256::new();
    h.update(data);
    h.finalize().into()
}

/// Appends a 32-byte encoding to a transcript.
pub fn absorb(t: &mut Vec<u8>, b: &[u8; 32])
    ensures
        final(t)@ == old(t)@ + b@,
{
    let mut i: usize = 0;
    while i < 32
        invariant
            0 <= i <= 32,
            t@ == old(t)@ + b@.subrange(0, i as int),
        decreases 32 - i,
    {
        t.push(b[i]);
        i = i + 1;
        assert(t@ =~= old(t)@ + b@.subrange(0, i as int));
    }
    assert(b@.subrange(0, 32) =~= b@);
}

/// Appends a byte string of any length to a transcript.
pub fn absorb_slice(t: &mut Vec<u8>, b: &[u8])
    ensures
        final(t)@ == old(t)@ + b@,
{
    let mut i: usize = 0;
    while i < b.len()
        invariant
            0 <= i <= b@.len(),
            t@ == old(t)@ + b@.subrange(0, i as int),
        decreases b@.len() - i,
    {
        t.push(b[i]);
        i = i + 1;
        assert(t@ =~= old(t)@ + b@.subrange(0, i as int));
    }
    assert(b@.subrange(0, b@.len() as int) =~= b@);
}

/// Hashes a transcript into a challenge scalar.
pub fn challenge(t: &Vec<u8>) -> (r: Scalar)
    ensures
        r.wf(),
        r.val() == hash_to_scalar(t@),
{
    let d = sha256(t);
    scalar_from_bytes_mod_order(d)
}

/// A byte string hashed into the BLS12-381 scalar field: its SHA-256 digest
/// read as a big-endian integer and reduced modulo `r`.
pub open spec fn hash_to_r(t: Seq<u8>) -> int {
    be_value(sha256_digest(t)) as int % bls_order()
}

/// Hashes a byte string into the BLS12-381 scalar field.
pub fn hash_to_fr(t: &Vec<u8>) -> (r: BlsScalar)
    ensures
        r.wf(),
        r.val() == hash_to_r(t@),
{
    let d = sha256(t);
    fr_from_be_bytes_mod_order(d)
}

/// The lowercase hexadecimal digit of `n < 16`.
pub open spec fn hex_digit(n: int) -> char {
    seq!['0', '1', '2', '3', '4', '5', '6', '7', '8', '9', 'a', 'b', 'c', 'd', 'e', 'f'][n]
}

/// The lowercase hexadecimal text of a byte string: two digits per byte, the
/// high half first.
pub open spec fn hex_of(b: Seq<u8>) -> Seq<char>
    decreases b.len(),
{
    if b.len() == 0 {
        seq![]
    } else {
        seq![hex_digit(b[0] as int / 16), hex_digit(b[0] as int % 16)] + hex_of(b.drop_first())
    }
}

/// Relies on hex's `encode`: two lowercase digits for each byte, in order.
#[verifier::external_body]
pub(crate) fn hex_encode(b: &Vec<u8>) -> (r: String)
    ensures
        r@ == hex_of(b@),
{
    hex::encode(b)
}

} // verus!
