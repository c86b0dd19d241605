use vstd::prelude::*;
use vstd::arithmetic::div_mod::{
    lemma_add_mod_noop, lemma_sub_mod_noop, lemma_sub_mod_noop_right,
};
use rand::rngs::StdRng;
use crate::bls::{
    bls_order, encode_g1, encode_g2, fr_add, fr_invert, fr_mul, fr_random, fr_sub, g1_add,
    g1_mul, g1_random, g1_sub, g2_random, inv_r, lemma_g1_encodes, lemma_g1_log, lemma_g2_log,
    lemma_inv_r_is, BlsScalar, G1Point, G2Point, is_inverse_r,
};
use crate::transcript::{absorb_slice, hash_to_fr, hash_to_r};
use crate::util_dalek::ParamLogs;

verus! {

/// The public parameters of the pairing instantiation: `g1`, `g3`, `g4` in G1
/// and `g2` in G2.
#[derive(Clone, Copy, Debug)]
pub struct PublicParams {
    pub g1: G1Point,
    pub g2: G2Point,
    pub g3: G1Point,
    pub g4: G1Point,
}

/// The tag that every challenge transcript of this instantiation begins
/// with, `"ntat-bls12-381"` in ASCII, which separates its transcripts from those of the
/// other schemes.
pub open spec fn scheme_tag() -> Seq<u8> {
    seq![110u8, 116, 97, 116, 45, 98, 108, 115, 49, 50, 45, 51, 56, 49]
}

/// Absorbs the scheme's tag into a transcript.
fn absorb_tag(h: &mut Vec<u8>)
    ensures
        final(h)@ == old(h)@ + scheme_tag(),
{
    let tag: [u8; 14] = [110, 116, 97, 116, 45, 98, 108, 115, 49, 50, 45, 51, 56, 49];
    assert(tag@ =~= scheme_tag());
    absorb_slice(h, &tag);
}

/// The bytes that the public parameters contribute to every transcript.
pub open spec fn params_encoding(p: ParamLogs) -> Seq<u8> {
    encode_g1(p.g1) + encode_g2(p.g2) + encode_g1(p.g3) + encode_g1(p.g4)
}

impl PublicParams {
    pub open spec fn wf(&self) -> bool {
        self.g1.wf() && self.g2.wf() && self.g3.wf() && self.g4.wf()
    }

    pub open spec fn logs(&self) -> ParamLogs {
        ParamLogs { g1: self.g1.log(), g2: self.g2.log(), g3: self.g3.log(), g4: self.g4.log() }
    }

    /// Absorbs the scheme's tag, then the four generators in order, into a
    /// transcript.
    pub fn hash(&self, h: &mut Vec<u8>)
        requires
            self.wf(),
        ensures
            final(h)@ == old(h)@ + scheme_tag() + params_encoding(self.logs()),
    {
        proof {
            lemma_g1_log(self.g1);
            lemma_g2_log(self.g2);
            lemma_g1_log(self.g3);
            lemma_g1_log(self.g4);
        }
        absorb_tag(h);
        absorb_slice(h, &self.g1.bytes);
        absorb_slice(h, &self.g2.bytes);
        absorb_slice(h, &self.g3.bytes);
        absorb_slice(h, &self.g4.bytes);
        assert(h@ =~= old(h)@ + scheme_tag() + params_encoding(self.logs()));
    }
}

/// Draws the four generators.
pub fn setup(rng: &mut StdRng) -> (pp: PublicParams)
    ensures
        pp.wf(),
{
    let g1 = g1_random(rng);
    let g2 = g2_random(rng);
    let g3 = g1_random(rng);
    let g4 = g1_random(rng);
    PublicParams { g1, g2, g3, g4 }
}

/// A proof that `T` is `λ·(X + g3·r + g4)` for the `x` with `X = g1·x`.
#[derive(Clone, Copy, Debug)]
pub struct REP3Proof {
    pub ch: BlsScalar,
    pub resp1: BlsScalar,
    pub resp2: BlsScalar,
    pub resp3: BlsScalar,
}

impl REP3Proof {
    pub open spec fn wf(&self) -> bool {
        self.ch.wf() && self.resp1.wf() && self.resp2.wf() && self.resp3.wf()
    }
}

/// The challenge of a representation proof, over the logarithms of the public
/// values and of the two commitments.
pub open spec fn rep3_challenge(p: ParamLogs, x: int, t: int, c1: int, c2: int) -> int {
    hash_to_r(scheme_tag() + params_encoding(p) + encode_g1(x) + encode_g1(t) + encode_g1(c1) + encode_g1(c2))
}

/// A representation proof is accepted: the commitments rebuilt from the
/// responses hash to the challenge.
pub open spec fn rep3_accepts(
    p: ParamLogs,
    x: int,
    t: int,
    ch: int,
    resp1: int,
    resp2: int,
    resp3: int,
) -> bool {
    ch == rep3_challenge(
        p,
        x,
        t,
        p.g1 * resp1 + x * ch,
        p.g1 * resp1 + p.g3 * resp2 + t * resp3 - p.g4 * ch,
    )
}

/// The representation proof made with the nonces `a`, `b`, `c` for the
/// witnesses `w`, `lambda` and `r`.
pub open spec fn rep3_proof_is(
    pi: REP3Proof,
    p: ParamLogs,
    x: int,
    t: int,
    w: int,
    lambda: int,
    r: int,
    a: int,
    b: int,
    c: int,
) -> bool {
    let l = bls_order();
    let ch = rep3_challenge(p, x, t, p.g1 * a, p.g1 * a + p.g3 * b + t * c);
    &&& pi.ch.val() == ch
    &&& pi.resp1.val() == (a - ch * w) % l
    &&& pi.resp2.val() == (b - ch * r) % l
    &&& pi.resp3.val() == (c + ch * inv_r(lambda)) % l
}

/// Proves knowledge of `x`, `r` and `1/λ` for `X = g1·x` and
/// `T = λ·(g1·x + g3·r + g4)`, with fresh nonces drawn from `rng`.
pub fn rep3_prove(
    rng: &mut StdRng,
    pp: &PublicParams,
    X: G1Point,
    T: G1Point,
    x: BlsScalar,
    lambda: BlsScalar,
    r: BlsScalar,
) -> (pi: REP3Proof)
    requires
        pp.wf(),
        X.wf(),
        T.wf(),
        x.wf(),
        lambda.wf(),
        r.wf(),
        lambda.val() != 0,
    ensures
        pi.wf(),
        is_inverse_r(lambda.val(), inv_r(lambda.val())),
        exists|a: int, b: int, c: int|
            0 <= a < bls_order() && 0 <= b < bls_order() && 0 <= c < bls_order()
                && #[trigger] rep3_proof_is(
                pi,
                pp.logs(),
                X.log(),
                T.log(),
                x.val(),
                lambda.val(),
                r.val(),
                a,
                b,
                c,
            ),
{
    let ghost p = pp.logs();
    let ghost l = bls_order();
    let a = fr_random(rng);
    let b = fr_random(rng);
    let c = fr_random(rng);

    let comm1 = g1_mul(&pp.g1, &a);
    let comm2 = g1_add(&g1_add(&comm1, &g1_mul(&pp.g3, &b)), &g1_mul(&T, &c));
    proof {
        lemma_g1_encodes(comm1, p.g1 * a.val());
        lemma_add_mod_noop(p.g1 * a.val(), p.g3 * b.val(), l);
        lemma_add_mod_noop(p.g1 * a.val() + p.g3 * b.val(), T.log() * c.val(), l);
        lemma_g1_encodes(comm2, p.g1 * a.val() + p.g3 * b.val() + T.log() * c.val());
        lemma_g1_log(X);
        lemma_g1_log(T);
    }

    let mut h: Vec<u8> = Vec::new();
    pp.hash(&mut h);
    absorb_slice(&mut h, &X.bytes);
    absorb_slice(&mut h, &T.bytes);
    absorb_slice(&mut h, &comm1.bytes);
    absorb_slice(&mut h, &comm2.bytes);
    let ch = hash_to_fr(&h);
    assert(h@ =~= scheme_tag() + params_encoding(p) + encode_g1(X.log()) + encode_g1(T.log()) + encode_g1(
        p.g1 * a.val(),
    ) + encode_g1(p.g1 * a.val() + p.g3 * b.val() + T.log() * c.val()));

    let resp1 = fr_sub(&a, &fr_mul(&ch, &x));
    let resp2 = fr_sub(&b, &fr_mul(&ch, &r));
    let lambda_inv = fr_invert(&lambda);
    let resp3 = fr_add(&c, &fr_mul(&ch, &lambda_inv));
    proof {
        lemma_inv_r_is(lambda.val(), lambda_inv.val());
        lemma_sub_mod_noop_right(a.val(), ch.val() * x.val(), l);
        lemma_sub_mod_noop_right(b.val(), ch.val() * r.val(), l);
        lemma_add_mod_noop(c.val(), ch.val() * lambda_inv.val(), l);
        assert(c.val() % l == c.val()) by (nonlinear_arith)
            requires 0 <= c.val() < l;
    }
    let pi = REP3Proof { ch, resp1, resp2, resp3 };
    assert(rep3_proof_is(pi, p, X.log(), T.log(), x.val(), lambda.val(), r.val(), a.val(), b.val(), c.val()));
    pi
}

/// Checks a representation proof for `X` and `T`.
pub fn rep3_verify(pp: &PublicParams, X: G1Point, T: G1Point, pi_c: &REP3Proof) -> (ok: bool)
    requires
        pp.wf(),
        X.wf(),
        T.wf(),
        pi_c.wf(),
    ensures
        ok == rep3_accepts(
            pp.logs(),
            X.log(),
            T.log(),
            pi_c.ch.val(),
            pi_c.resp1.val(),
            pi_c.resp2.val(),
            pi_c.resp3.val(),
        ),
{
    let ghost p = pp.logs();
    let ghost l = bls_order();
    let ghost (ch, r1, r2, r3) = (pi_c.ch.val(), pi_c.resp1.val(), pi_c.resp2.val(), pi_c.resp3.val());
    let u1 = g1_mul(&pp.g1, &pi_c.resp1);
    let comm1_ = g1_add(&u1, &g1_mul(&X, &pi_c.ch));
    let u2 = g1_add(&u1, &g1_mul(&pp.g3, &pi_c.resp2));
    let u3 = g1_add(&u2, &g1_mul(&T, &pi_c.resp3));
    let comm2_ = g1_sub(&u3, &g1_mul(&pp.g4, &pi_c.ch));
    proof {
        lemma_add_mod_noop(p.g1 * r1, X.log() * ch, l);
        lemma_g1_encodes(comm1_, p.g1 * r1 + X.log() * ch);
        lemma_add_mod_noop(p.g1 * r1, p.g3 * r2, l);
        lemma_add_mod_noop(p.g1 * r1 + p.g3 * r2, T.log() * r3, l);
        lemma_sub_mod_noop(p.g1 * r1 + p.g3 * r2 + T.log() * r3, p.g4 * ch, l);
        lemma_g1_encodes(comm2_, p.g1 * r1 + p.g3 * r2 + T.log() * r3 - p.g4 * ch);
        lemma_g1_log(X);
        lemma_g1_log(T);
    }

    let mut h: Vec<u8> = Vec::new();
    pp.hash(&mut h);
    absorb_slice(&mut h, &X.bytes);
    absorb_slice(&mut h, &T.bytes);
    absorb_slice(&mut h, &comm1_.bytes);
    absorb_slice(&mut h, &comm2_.bytes);
    assert(h@ =~= scheme_tag() + params_encoding(p) + encode_g1(X.log()) + encode_g1(T.log()) + encode_g1(
        p.g1 * r1 + X.log() * ch,
    ) + encode_g1(p.g1 * r1 + p.g3 * r2 + T.log() * r3 - p.g4 * ch));
    let ch_ = hash_to_fr(&h);
    let ok = pi_c.ch.equals(&ch_);
    proof {
        if pi_c.ch.val() == ch_.val() {
            crate::scalar::lemma_le_value_injective(pi_c.ch.bytes@, ch_.bytes@);
        }
    }
    ok
}

/// A client's blinded query: the point `T` and a proof of its form.
#[derive(Clone, Copy, Debug)]
pub struct Query {
    pub T: G1Point,
    pub pi_c: REP3Proof,
}

impl Query {
    pub open spec fn wf(&self) -> bool {
        self.T.wf() && self.pi_c.wf()
    }
}

/// The server's answer to a query: the tag `s` and the signed point `S`; a
/// pairing check takes the place of a proof.
#[derive(Clone, Copy, Debug)]
pub struct ResponsePairing {
    pub s: BlsScalar,
    pub S: G1Point,
}

impl ResponsePairing {
    pub open spec fn wf(&self) -> bool {
        self.s.wf() && self.S.wf()
    }
}

/// An unblinded token: `sigma = (1/(sk_s + s))·(g1·sk_c + g3·r + g4)`.
#[derive(Clone, Copy, Debug)]
pub struct Token {
    pub sigma: G1Point,
    pub r: BlsScalar,
    pub s: BlsScalar,
}

impl Token {
    pub open spec fn wf(&self) -> bool {
        self.sigma.wf() && self.r.wf() && self.s.wf()
    }
}

/// The first redemption message: `sigma_` and a hash commitment to `Q`.
#[derive(Clone, Copy, Debug)]
pub struct RedemptionProof1 {
    pub sigma_: G1Point,
    pub comm: BlsScalar,
}

impl RedemptionProof1 {
    pub open spec fn wf(&self) -> bool {
        self.sigma_.wf() && self.comm.wf()
    }
}

/// The second redemption message: the three responses and the opening `rho`.
#[derive(Clone, Copy, Debug)]
pub struct RedemptionProof2 {
    pub v0: BlsScalar,
    pub v1: BlsScalar,
    pub v2: BlsScalar,
    pub rho: BlsScalar,
}

impl RedemptionProof2 {
    pub open spec fn wf(&self) -> bool {
        self.v0.wf() && self.v1.wf() && self.v2.wf() && self.rho.wf()
    }
}

/// The commitment to the nonce point of logarithm `q` under the opening whose
/// encoding is `rho`.
pub open spec fn redemption_commitment(rho: Seq<u8>, q: int) -> int {
    hash_to_r(rho + encode_g1(q))
}

/// Hashes the opening `rho` and the point `Q` into a commitment.
pub fn commit(rho: &BlsScalar, Q: &G1Point) -> (comm: BlsScalar)
    requires
        Q.wf(),
    ensures
        comm.wf(),
        comm.val() == redemption_commitment(rho.bytes@, Q.log()),
{
    proof {
        lemma_g1_log(*Q);
    }
    let mut h: Vec<u8> = Vec::new();
    absorb_slice(&mut h, &rho.bytes);
    absorb_slice(&mut h, &Q.bytes);
    assert(h@ =~= rho.bytes@ + encode_g1(Q.log()));
    hash_to_fr(&h)
}

/// Draws a client key pair: `sk_c` and `pk_c = g1·sk_c`.
pub fn client_keygen(rng: &mut StdRng, pp: &PublicParams) -> (keys: (BlsScalar, G1Point))
    requires
        pp.wf(),
    ensures
        keys.0.wf(),
        keys.1.wf(),
        keys.1.log() == (pp.g1.log() * keys.0.val()) % bls_order(),
{
    let sk_c = fr_random(rng);
    (sk_c, g1_mul(&pp.g1, &sk_c))
}

/// Draws a server key pair: `sk_s` and `pk_s = g2·sk_s`.
pub fn server_keygen(rng: &mut StdRng, pp: &PublicParams) -> (keys: (BlsScalar, G2Point))
    requires
        pp.wf(),
    ensures
        keys.0.wf(),
        keys.1.wf(),
        keys.1.log() == (pp.g2.log() * keys.0.val()) % bls_order(),
{
    let sk_s = fr_random(rng);
    (sk_s, crate::bls::g2_mul(&pp.g2, &sk_s))
}

} // verus!
