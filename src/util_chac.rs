use vstd::prelude::*;
use rand::rngs::StdRng;
use crate::bls::{
    bls_order, fr_random, g1_mul, g1_random, g2_mul, g2_random, BlsScalar, G1Point, G2Point,
};
use crate::transcript::{absorb, absorb_slice, hash_to_fr, hash_to_r, hex_encode, hex_of};

verus! {

/// The public parameters of the credential scheme: generators `g1`, `g2`,
/// the issuer trapdoor's images `y1 = g1·δ`, `y2 = g2·δ`, the MAC key
/// `sk = y1·α`, the signer key `(pk1, pk2) = (g1, g1·α)`, the attribute
/// trapdoors `x1`, `x2` and their commitments `ipk1 = g2·x1`, `ipk2 = g2·x2`.
#[derive(Clone, Copy, Debug)]
pub struct PublicParams {
    pub g1: G1Point,
    pub g2: G2Point,
    pub y1: G1Point,
    pub y2: G2Point,
    pub sk: G1Point,
    pub pk1: G1Point,
    pub pk2: G1Point,
    pub x1: BlsScalar,
    pub x2: BlsScalar,
    pub ipk1: G2Point,
    pub ipk2: G2Point,
}

impl PublicParams {
    pub open spec fn wf(&self) -> bool {
        &&& self.g1.wf() && self.g2.wf() && self.y1.wf() && self.y2.wf()
        &&& self.sk.wf() && self.pk1.wf() && self.pk2.wf()
        &&& self.x1.wf() && self.x2.wf()
        &&& self.ipk1.wf() && self.ipk2.wf()
    }

    /// The two generators as lowercase hexadecimal text, `g1` first.
    pub fn to_string(&self) -> (r: String)
        ensures
            r@ == hex_of(self.g1.bytes@ + self.g2.bytes@),
    {
        let mut b: Vec<u8> = Vec::new();
        absorb_slice(&mut b, &self.g1.bytes);
        absorb_slice(&mut b, &self.g2.bytes);
        assert(b@ =~= self.g1.bytes@ + self.g2.bytes@);
        hex_encode(&b)
    }

    /// The parameters were made with the trapdoor `delta` and the key `alpha`.
    pub open spec fn made_with(&self, delta: int, alpha: int) -> bool {
        let l = bls_order();
        &&& self.y1.log() == (self.g1.log() * delta) % l
        &&& self.y2.log() == (self.g2.log() * delta) % l
        &&& self.sk.log() == (self.y1.log() * alpha) % l
        &&& self.pk1 == self.g1
        &&& self.pk2.log() == (self.g1.log() * alpha) % l
        &&& self.ipk1.log() == (self.g2.log() * self.x1.val()) % l
        &&& self.ipk2.log() == (self.g2.log() * self.x2.val()) % l
    }
}

/// Draws the generators and the trapdoors, and derives the keys from them.
pub fn setup(rng: &mut StdRng) -> (pp: PublicParams)
    ensures
        pp.wf(),
        exists|delta: int, alpha: int|
            0 <= delta < bls_order() && 0 <= alpha < bls_order() && #[trigger] pp.made_with(
                delta,
                alpha,
            ),
{
    let g1 = g1_random(rng);
    let g2 = g2_random(rng);
    let delta = fr_random(rng);
    let y1 = g1_mul(&g1, &delta);
    let y2 = g2_mul(&g2, &delta);

    let alpha = fr_random(rng);
    let sk = g1_mul(&y1, &alpha);
    let pk1 = g1;
    let pk2 = g1_mul(&g1, &alpha);

    let x1 = fr_random(rng);
    let x2 = fr_random(rng);
    let ipk1 = g2_mul(&g2, &x1);
    let ipk2 = g2_mul(&g2, &x2);

    let pp = PublicParams { g1, g2, y1, y2, sk, pk1, pk2, x1, x2, ipk1, ipk2 };
    assert(pp.made_with(delta.val(), alpha.val()));
    pp
}

/// The tag that every hash of this scheme begins with, `"chac-bls12-381"` in
/// ASCII, which separates its hashes from those of the other schemes.
pub open spec fn scheme_tag() -> Seq<u8> {
    seq![99u8, 104, 97, 99, 45, 98, 108, 115, 49, 50, 45, 51, 56, 49]
}

/// A transcript holding only the scheme's tag.
pub fn tagged_transcript() -> (t: Vec<u8>)
    ensures
        t@ == scheme_tag(),
{
    let tag: [u8; 14] = [99, 104, 97, 99, 45, 98, 108, 115, 49, 50, 45, 51, 56, 49];
    assert(tag@ =~= scheme_tag());
    let mut t: Vec<u8> = Vec::new();
    absorb_slice(&mut t, &tag);
    assert(t@ =~= scheme_tag());
    t
}

/// The logarithm of the session base `h = g1·H(nonce)`, hashed with the tag.
pub open spec fn nonce_base(pp: PublicParams, nonce: BlsScalar) -> int {
    (pp.g1.log() * hash_to_r(scheme_tag() + nonce.bytes@)) % bls_order()
}

/// The logarithm of the base `H(ipk1)` in G2, `g2` times the tagged hash of
/// `ipk1`.
pub open spec fn ipk_base(pp: PublicParams) -> int {
    (pp.g2.log() * hash_to_r(scheme_tag() + pp.ipk1.bytes@)) % bls_order()
}

/// Hashes a nonce to the session base `h = g1·H(nonce)`.
pub fn hash_nonce(pp: &PublicParams, nonce: &BlsScalar) -> (h: G1Point)
    requires
        pp.wf(),
    ensures
        h.wf(),
        h.log() == nonce_base(*pp, *nonce),
{
    let mut t = tagged_transcript();
    absorb(&mut t, &nonce.bytes);
    g1_mul(&pp.g1, &hash_to_fr(&t))
}

/// Hashes the attribute commitment `ipk1` to a base in G2.
pub fn hash_ipk(pp: &PublicParams) -> (h: G2Point)
    requires
        pp.wf(),
    ensures
        h.wf(),
        h.log() == ipk_base(*pp),
{
    let mut t = tagged_transcript();
    absorb_slice(&mut t, &pp.ipk1.bytes);
    g2_mul(&pp.g2, &hash_to_fr(&t))
}

/// A blinded MAC query: `s1 = g1·r`, `s2 = g2·r`, `sig = sk + h·r`.
#[derive(Clone, Copy, Debug)]
pub struct Query {
    pub pk2: G1Point,
    pub sig: G1Point,
    pub s1: G1Point,
    pub s2: G2Point,
}

impl Query {
    pub open spec fn wf(&self) -> bool {
        self.pk2.wf() && self.sig.wf() && self.s1.wf() && self.s2.wf()
    }
}

/// The issuer's response under the key `y`: `w1 = g1/y`, `w2 = g2/y`,
/// `z = (pk1·x1 + pk2·x2)·y`, `v = H(ipk1)/y`.
#[derive(Clone, Copy, Debug)]
pub struct Response {
    pub w1: G1Point,
    pub w2: G2Point,
    pub z: G1Point,
    pub v: G2Point,
}

impl Response {
    pub open spec fn wf(&self) -> bool {
        self.w1.wf() && self.w2.wf() && self.z.wf() && self.v.wf()
    }
}

/// A re-randomised redemption message.
#[derive(Clone, Copy, Debug)]
pub struct Msg {
    pub pkp1: G1Point,
    pub pkp2: G1Point,
    pub sigp: G1Point,
    pub s1p: G1Point,
    pub s2p: G2Point,
    pub zp: G1Point,
    pub w1p: G1Point,
    pub w2p: G2Point,
    pub vp: G2Point,
}

impl Msg {
    pub open spec fn wf(&self) -> bool {
        &&& self.pkp1.wf() && self.pkp2.wf() && self.sigp.wf()
        &&& self.s1p.wf() && self.s2p.wf() && self.zp.wf()
        &&& self.w1p.wf() && self.w2p.wf() && self.vp.wf()
    }
}

} // verus!
