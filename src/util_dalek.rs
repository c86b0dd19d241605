use vstd::prelude::*;
use vstd::arithmetic::div_mod::{
    lemma_add_mod_noop, lemma_mul_mod_noop_left, lemma_sub_mod_noop, lemma_sub_mod_noop_right,
};
use rand::rngs::StdRng;
use crate::scalar::{
    group_order, inv_mod, is_inverse, lemma_inv_mod_is, lemma_scalar_val_injective, random_scalar,
    scalar_add, scalar_invert, scalar_mul, scalar_sub, Scalar,
};
use crate::ristretto::{
    encode, lemma_point_log, point_add, point_mul, point_sub, random_point, Point,
};
use crate::transcript::{absorb, absorb_slice, challenge, hash_to_scalar};

verus! {

/// A well-formed point whose logarithm is `k` reduced is encoded by `k`.
pub proof fn lemma_point_encodes(p: Point, k: int)
    requires
        p.wf(),
        p.log() == k % group_order(),
    ensures
        p.bytes@ == encode(k),
{
    lemma_point_log(p);
}

/// The logarithms of the four generators.
pub struct ParamLogs {
    pub g1: int,
    pub g2: int,
    pub g3: int,
    pub g4: int,
}

/// The public parameters: four independent generators of the group.
#[derive(Clone, Copy, Debug)]
pub struct PublicParams {
    pub g1: Point,
    pub g2: Point,
    pub g3: Point,
    pub g4: Point,
}

/// The tag that every challenge transcript of this instantiation begins
/// with, `"ntat-ristretto"` in ASCII, which separates its transcripts from those of the
/// other schemes.
pub open spec fn scheme_tag() -> Seq<u8> {
    seq![110u8, 116, 97, 116, 45, 114, 105, 115, 116, 114, 101, 116, 116, 111]
}

/// Absorbs the scheme's tag into a transcript.
fn absorb_tag(h: &mut Vec<u8>)
    ensures
        final(h)@ == old(h)@ + scheme_tag(),
{
    let tag: [u8; 14] = [110, 116, 97, 116, 45, 114, 105, 115, 116, 114, 101, 116, 116, 111];
    assert(tag@ =~= scheme_tag());
    absorb_slice(h, &tag);
}

/// The bytes that the public parameters contribute to every transcript.
pub open spec fn params_encoding(p: ParamLogs) -> Seq<u8> {
    encode(p.g1) + encode(p.g2) + encode(p.g3) + encode(p.g4)
}

impl PublicParams {
    pub open spec fn wf(&self) -> bool {
        self.g1.wf() && self.g2.wf() && self.g3.wf() && self.g4.wf()
    }

    pub open spec fn logs(&self) -> ParamLogs {
        ParamLogs { g1: self.g1.log(), g2: self.g2.log(), g3: self.g3.log(), g4: self.g4.log() }
    }

    /// Absorbs the scheme's tag, then the four generators in order, into a
    /// transcript.
    pub fn hash(&self, h: &mut Vec<u8>)
        requires
            self.wf(),
        ensures
            final(h)@ == old(h)@ + scheme_tag() + params_encoding(self.logs()),
    {
        proof {
            lemma_point_log(self.g1);
            lemma_point_log(self.g2);
            lemma_point_log(self.g3);
            lemma_point_log(self.g4);
        }
        absorb_tag(h);
        absorb(h, &self.g1.bytes);
        absorb(h, &self.g2.bytes);
        absorb(h, &self.g3.bytes);
        absorb(h, &self.g4.bytes);
        assert(h@ =~= old(h)@ + scheme_tag() + params_encoding(self.logs()));
    }
}

/// Draws four generators.
pub fn setup(rng: &mut StdRng) -> (pp: PublicParams)
    ensures
        pp.wf(),
{
    let g1 = random_point(rng);
    let g2 = random_point(rng);
    let g3 = random_point(rng);
    let g4 = random_point(rng);
    PublicParams { g1, g2, g3, g4 }
}

/// A proof that `T` is `λ·(X + g3·r + g4)` for the `x` with `X = g1·x`.
#[derive(Clone, Copy, Debug)]
pub struct REP3Proof {
    pub ch: Scalar,
    pub resp1: Scalar,
    pub resp2: Scalar,
    pub resp3: Scalar,
}

/// The challenge of a representation proof, over the logarithms of the public
/// values and of the two commitments.
pub open spec fn rep3_challenge(p: ParamLogs, x: int, t: int, c1: int, c2: int) -> int {
    hash_to_scalar(scheme_tag() + params_encoding(p) + encode(x) + encode(t) + encode(c1) + encode(c2))
}

/// A representation proof is accepted: the commitments rebuilt from the
/// responses hash to the challenge.
pub open spec fn rep3_accepts(
    p: ParamLogs,
    x: int,
    t: int,
    ch: int,
    resp1: int,
    resp2: int,
    resp3: int,
) -> bool {
    ch == rep3_challenge(
        p,
        x,
        t,
        p.g1 * resp1 + x * ch,
        p.g1 * resp1 + p.g3 * resp2 + t * resp3 - p.g4 * ch,
    )
}

/// The representation proof made with the nonces `a`, `b`, `c` for the
/// witnesses `w` (the logarithm of `X` to `g1`), `lambda` and `r`.
pub open spec fn rep3_proof_is(
    pi: REP3Proof,
    p: ParamLogs,
    x: int,
    t: int,
    w: int,
    lambda: int,
    r: int,
    a: int,
    b: int,
    c: int,
) -> bool {
    let l = group_order();
    let ch = rep3_challenge(p, x, t, p.g1 * a, p.g1 * a + p.g3 * b + t * c);
    &&& pi.ch.val() == ch
    &&& pi.resp1.val() == (a - ch * w) % l
    &&& pi.resp2.val() == (b - ch * r) % l
    &&& pi.resp3.val() == (c + ch * inv_mod(lambda)) % l
}

impl REP3Proof {
    pub open spec fn wf(&self) -> bool {
        self.ch.wf() && self.resp1.wf() && self.resp2.wf() && self.resp3.wf()
    }
}

/// Proves knowledge of `x`, `r` and `1/λ` for `X = g1·x` and
/// `T = λ·(g1·x + g3·r + g4)`, with fresh nonces drawn from `rng`.
pub fn rep3_prove(
    rng: &mut StdRng,
    pp: &PublicParams,
    X: Point,
    T: Point,
    x: Scalar,
    lambda: Scalar,
    r: Scalar,
) -> (pi: REP3Proof)
    requires
        pp.wf(),
        X.wf(),
        T.wf(),
        x.wf(),
        lambda.wf(),
        r.wf(),
        lambda.val() != 0,
    ensures
        pi.wf(),
        is_inverse(lambda.val(), inv_mod(lambda.val())),
        exists|a: int, b: int, c: int|
            0 <= a < group_order() && 0 <= b < group_order() && 0 <= c < group_order()
                && #[trigger] rep3_proof_is(
                pi,
                pp.logs(),
                X.log(),
                T.log(),
                x.val(),
                lambda.val(),
                r.val(),
                a,
                b,
                c,
            ),
{
    let ghost p = pp.logs();
    let ghost l = group_order();
    let a = random_scalar(rng);
    let b = random_scalar(rng);
    let c = random_scalar(rng);

    let comm1 = point_mul(&pp.g1, &a);
    let t2 = point_mul(&pp.g3, &b);
    let t3 = point_mul(&T, &c);
    let comm2 = point_add(&point_add(&comm1, &t2), &t3);
    proof {
        lemma_point_encodes(comm1, p.g1 * a.val());
        lemma_add_mod_noop(p.g1 * a.val(), p.g3 * b.val(), l);
        lemma_add_mod_noop(p.g1 * a.val() + p.g3 * b.val(), T.log() * c.val(), l);
        lemma_point_encodes(comm2, p.g1 * a.val() + p.g3 * b.val() + T.log() * c.val());
        lemma_point_log(X);
        lemma_point_log(T);
    }

    let mut h: Vec<u8> = Vec::new();
    pp.hash(&mut h);
    absorb(&mut h, &X.bytes);
    absorb(&mut h, &T.bytes);
    absorb(&mut h, &comm1.bytes);
    absorb(&mut h, &comm2.bytes);
    let ch = challenge(&h);
    assert(h@ =~= scheme_tag() + params_encoding(p) + encode(X.log()) + encode(T.log()) + encode(
        p.g1 * a.val(),
    ) + encode(p.g1 * a.val() + p.g3 * b.val() + T.log() * c.val()));

    let resp1 = scalar_sub(&a, &scalar_mul(&ch, &x));
    let resp2 = scalar_sub(&b, &scalar_mul(&ch, &r));
    let lambda_inv = scalar_invert(&lambda);
    let resp3 = scalar_add(&c, &scalar_mul(&ch, &lambda_inv));
    proof {
        lemma_inv_mod_is(lambda.val(), lambda_inv.val());
        lemma_sub_mod_noop_right(a.val(), ch.val() * x.val(), l);
        lemma_sub_mod_noop_right(b.val(), ch.val() * r.val(), l);
        lemma_add_mod_noop(c.val(), ch.val() * lambda_inv.val(), l);
        assert(c.val() % l == c.val()) by (nonlinear_arith)
            requires 0 <= c.val() < l;
    }
    let pi = REP3Proof { ch, resp1, resp2, resp3 };
    assert(rep3_proof_is(pi, p, X.log(), T.log(), x.val(), lambda.val(), r.val(), a.val(), b.val(), c.val()));
    pi
}

/// Checks a representation proof for `X` and `T`.
pub fn rep3_verify(pp: &PublicParams, X: Point, T: Point, pi_c: &REP3Proof) -> (ok: bool)
    requires
        pp.wf(),
        X.wf(),
        T.wf(),
        pi_c.wf(),
    ensures
        ok == rep3_accepts(
            pp.logs(),
            X.log(),
            T.log(),
            pi_c.ch.val(),
            pi_c.resp1.val(),
            pi_c.resp2.val(),
            pi_c.resp3.val(),
        ),
{
    let ghost p = pp.logs();
    let ghost l = group_order();
    let ghost (ch, r1, r2, r3) = (pi_c.ch.val(), pi_c.resp1.val(), pi_c.resp2.val(), pi_c.resp3.val());
    let u1 = point_mul(&pp.g1, &pi_c.resp1);
    let comm1_ = point_add(&u1, &point_mul(&X, &pi_c.ch));
    let u2 = point_add(&u1, &point_mul(&pp.g3, &pi_c.resp2));
    let u3 = point_add(&u2, &point_mul(&T, &pi_c.resp3));
    let comm2_ = point_sub(&u3, &point_mul(&pp.g4, &pi_c.ch));
    proof {
        lemma_add_mod_noop(p.g1 * r1, X.log() * ch, l);
        lemma_point_encodes(comm1_, p.g1 * r1 + X.log() * ch);
        lemma_add_mod_noop(p.g1 * r1, p.g3 * r2, l);
        lemma_add_mod_noop(p.g1 * r1 + p.g3 * r2, T.log() * r3, l);
        lemma_sub_mod_noop(p.g1 * r1 + p.g3 * r2 + T.log() * r3, p.g4 * ch, l);
        lemma_point_encodes(comm2_, p.g1 * r1 + p.g3 * r2 + T.log() * r3 - p.g4 * ch);
        lemma_point_log(X);
        lemma_point_log(T);
    }

    let mut h: Vec<u8> = Vec::new();
    pp.hash(&mut h);
    absorb(&mut h, &X.bytes);
    absorb(&mut h, &T.bytes);
    absorb(&mut h, &comm1_.bytes);
    absorb(&mut h, &comm2_.bytes);
    assert(h@ =~= scheme_tag() + params_encoding(p) + encode(X.log()) + encode(T.log()) + encode(
        p.g1 * r1 + X.log() * ch,
    ) + encode(p.g1 * r1 + p.g3 * r2 + T.log() * r3 - p.g4 * ch));
    let ch_ = challenge(&h);
    let ok = pi_c.ch.equals(&ch_);
    proof {
        if pi_c.ch.val() == ch_.val() {
            lemma_scalar_val_injective(pi_c.ch, ch_);
        }
    }
    ok
}

/// A proof that `Y = g2·y` and `T − S·s = S·y` for one `y`.
#[derive(Clone, Copy, Debug)]
pub struct DLEQProof {
    pub ch: Scalar,
    pub resp: Scalar,
}

impl DLEQProof {
    pub open spec fn wf(&self) -> bool {
        self.ch.wf() && self.resp.wf()
    }
}

/// The challenge of a discrete-log equality proof; `i` is the logarithm of
/// `T − S·s`.
pub open spec fn dleq_challenge(p: ParamLogs, y: int, s_pt: int, i: int, c1: int, c2: int) -> int {
    hash_to_scalar(
        scheme_tag() + params_encoding(p) + encode(y) + encode(s_pt) + encode(i) + encode(c1) + encode(c2),
    )
}

/// A discrete-log equality proof is accepted: the commitments rebuilt from
/// the response hash to the challenge.
pub open spec fn dleq_accepts(
    p: ParamLogs,
    y: int,
    s_pt: int,
    t: int,
    s: int,
    ch: int,
    resp: int,
) -> bool {
    let i = t - s_pt * s;
    ch == dleq_challenge(p, y, s_pt, i, p.g2 * resp - y * ch, s_pt * resp - i * ch)
}

/// The discrete-log equality proof made with the nonce `a` for the witness `w`.
pub open spec fn dleq_proof_is(
    pi: DLEQProof,
    p: ParamLogs,
    y: int,
    s_pt: int,
    t: int,
    s: int,
    w: int,
    a: int,
) -> bool {
    let ch = dleq_challenge(p, y, s_pt, t - s_pt * s, p.g2 * a, s_pt * a);
    &&& pi.ch.val() == ch
    &&& pi.resp.val() == (a + ch * w) % group_order()
}

/// Proves that `Y = g2·y` and `T − S·s = S·y`, with a fresh nonce drawn from
/// `rng`.
pub fn dleq_prove(
    rng: &mut StdRng,
    pp: &PublicParams,
    Y: Point,
    S: Point,
    T: Point,
    s: Scalar,
    y: Scalar,
) -> (pi: DLEQProof)
    requires
        pp.wf(),
        Y.wf(),
        S.wf(),
        T.wf(),
        s.wf(),
        y.wf(),
    ensures
        pi.wf(),
        exists|a: int|
            0 <= a < group_order() && #[trigger] dleq_proof_is(
                pi,
                pp.logs(),
                Y.log(),
                S.log(),
                T.log(),
                s.val(),
                y.val(),
                a,
            ),
{
    let ghost p = pp.logs();
    let ghost l = group_order();
    let a = random_scalar(rng);
    let comm1 = point_mul(&pp.g2, &a);
    let comm2 = point_mul(&S, &a);
    let ss = point_mul(&S, &s);
    let inter = point_sub(&T, &ss);
    proof {
        lemma_point_encodes(comm1, p.g2 * a.val());
        lemma_point_encodes(comm2, S.log() * a.val());
        lemma_sub_mod_noop_right(T.log(), S.log() * s.val(), l);
        lemma_point_encodes(inter, T.log() - S.log() * s.val());
        lemma_point_log(Y);
        lemma_point_log(S);
    }

    let mut h: Vec<u8> = Vec::new();
    pp.hash(&mut h);
    absorb(&mut h, &Y.bytes);
    absorb(&mut h, &S.bytes);
    absorb(&mut h, &inter.bytes);
    absorb(&mut h, &comm1.bytes);
    absorb(&mut h, &comm2.bytes);
    assert(h@ =~= scheme_tag() + params_encoding(p) + encode(Y.log()) + encode(S.log()) + encode(
        T.log() - S.log() * s.val(),
    ) + encode(p.g2 * a.val()) + encode(S.log() * a.val()));
    let ch = challenge(&h);

    let resp = scalar_add(&a, &scalar_mul(&ch, &y));
    proof {
        lemma_add_mod_noop(a.val(), ch.val() * y.val(), l);
        assert(a.val() % l == a.val()) by (nonlinear_arith)
            requires 0 <= a.val() < l;
    }
    let pi = DLEQProof { ch, resp };
    assert(dleq_proof_is(pi, p, Y.log(), S.log(), T.log(), s.val(), y.val(), a.val()));
    pi
}

/// Checks a discrete-log equality proof for `Y`, `S`, `T` and `s`.
pub fn dleq_verify(
    pp: &PublicParams,
    Y: Point,
    S: Point,
    T: Point,
    s: Scalar,
    pi_s: &DLEQProof,
) -> (ok: bool)
    requires
        pp.wf(),
        Y.wf(),
        S.wf(),
        T.wf(),
        s.wf(),
        pi_s.wf(),
    ensures
        ok == dleq_accepts(pp.logs(), Y.log(), S.log(), T.log(), s.val(), pi_s.ch.val(), pi_s.resp.val()),
{
    let ghost p = pp.logs();
    let ghost l = group_order();
    let ghost (ch, resp) = (pi_s.ch.val(), pi_s.resp.val());
    let ghost i = T.log() - S.log() * s.val();
    let inter = point_sub(&T, &point_mul(&S, &s));
    let comm1_ = point_sub(&point_mul(&pp.g2, &pi_s.resp), &point_mul(&Y, &pi_s.ch));
    let comm2_ = point_sub(&point_mul(&S, &pi_s.resp), &point_mul(&inter, &pi_s.ch));
    proof {
        lemma_sub_mod_noop_right(T.log(), S.log() * s.val(), l);
        lemma_point_encodes(inter, i);
        lemma_sub_mod_noop(p.g2 * resp, Y.log() * ch, l);
        lemma_point_encodes(comm1_, p.g2 * resp - Y.log() * ch);
        lemma_mul_mod_noop_left(i, ch, l);
        lemma_sub_mod_noop(S.log() * resp, i * ch, l);
        lemma_point_encodes(comm2_, S.log() * resp - i * ch);
        lemma_point_log(Y);
        lemma_point_log(S);
    }

    let mut h: Vec<u8> = Vec::new();
    pp.hash(&mut h);
    absorb(&mut h, &Y.bytes);
    absorb(&mut h, &S.bytes);
    absorb(&mut h, &inter.bytes);
    absorb(&mut h, &comm1_.bytes);
    absorb(&mut h, &comm2_.bytes);
    assert(h@ =~= scheme_tag() + params_encoding(p) + encode(Y.log()) + encode(S.log()) + encode(i) + encode(
        p.g2 * resp - Y.log() * ch,
    ) + encode(S.log() * resp - i * ch));
    let ch_ = challenge(&h);
    let ok = pi_s.ch.equals(&ch_);
    proof {
        if pi_s.ch.val() == ch_.val() {
            lemma_scalar_val_injective(pi_s.ch, ch_);
        }
    }
    ok
}

/// A client's blinded query: the point `T` and a proof of its form.
#[derive(Clone, Copy, Debug)]
pub struct Query {
    pub T: Point,
    pub pi_c: REP3Proof,
}

impl Query {
    pub open spec fn wf(&self) -> bool {
        self.T.wf() && self.pi_c.wf()
    }
}

/// The server's answer to a query: the tag `s`, the signed point `S`, and a
/// proof that `S` was made with the server's key.
#[derive(Clone, Copy, Debug)]
pub struct Response {
    pub s: Scalar,
    pub S: Point,
    pub pi_s: DLEQProof,
}

impl Response {
    pub open spec fn wf(&self) -> bool {
        self.s.wf() && self.S.wf() && self.pi_s.wf()
    }
}

/// The server's answer when a pairing check takes the place of the proof.
#[derive(Clone, Copy, Debug)]
pub struct ResponsePairing {
    pub s: Scalar,
    pub S: Point,
}

/// An unblinded token: `sigma = (1/(sk_s + s))·(g1·sk_c + g3·r + g4)`.
#[derive(Clone, Copy, Debug)]
pub struct Token {
    pub sigma: Point,
    pub r: Scalar,
    pub s: Scalar,
}

impl Token {
    pub open spec fn wf(&self) -> bool {
        self.sigma.wf() && self.r.wf() && self.s.wf()
    }
}

/// The first redemption message: `sigma_ = σ·sk_s` as the client computes it,
/// and a hash commitment to the nonce point `Q`.
#[derive(Clone, Copy, Debug)]
pub struct RedemptionProof1 {
    pub sigma_: Point,
    pub comm: Scalar,
}

impl RedemptionProof1 {
    pub open spec fn wf(&self) -> bool {
        self.sigma_.wf() && self.comm.wf()
    }
}

/// The second redemption message: the three responses and the opening `rho`.
#[derive(Clone, Copy, Debug)]
pub struct RedemptionProof2 {
    pub v0: Scalar,
    pub v1: Scalar,
    pub v2: Scalar,
    pub rho: Scalar,
}

impl RedemptionProof2 {
    pub open spec fn wf(&self) -> bool {
        self.v0.wf() && self.v1.wf() && self.v2.wf() && self.rho.wf()
    }
}

/// The commitment to the nonce point of logarithm `q` under the opening whose
/// encoding is `rho`.
pub open spec fn redemption_commitment(rho: Seq<u8>, q: int) -> int {
    hash_to_scalar(rho + encode(q))
}

/// Hashes the opening `rho` and the point `Q` into a commitment.
pub fn commit(rho: &Scalar, Q: &Point) -> (comm: Scalar)
    requires
        Q.wf(),
    ensures
        comm.wf(),
        comm.val() == redemption_commitment(rho.bytes@, Q.log()),
{
    proof {
        lemma_point_log(*Q);
    }
    let mut h: Vec<u8> = Vec::new();
    absorb(&mut h, &rho.bytes);
    absorb(&mut h, &Q.bytes);
    assert(h@ =~= rho.bytes@ + encode(Q.log()));
    challenge(&h)
}

/// Draws a client key pair: `sk_c` and `pk_c = g1·sk_c`.
pub fn client_keygen(rng: &mut StdRng, pp: &PublicParams) -> (keys: (Scalar, Point))
    requires
        pp.wf(),
    ensures
        keys.0.wf(),
        keys.1.wf(),
        keys.1.log() == (pp.g1.log() * keys.0.val()) % group_order(),
{
    let sk_c = random_scalar(rng);
    (sk_c, point_mul(&pp.g1, &sk_c))
}

/// Draws a server key pair: `sk_s` and `pk_s = g2·sk_s`.
pub fn server_keygen(rng: &mut StdRng, pp: &PublicParams) -> (keys: (Scalar, Point))
    requires
        pp.wf(),
    ensures
        keys.0.wf(),
        keys.1.wf(),
        keys.1.log() == (pp.g2.log() * keys.0.val()) % group_order(),
{
    let sk_s = random_scalar(rng);
    (sk_s, point_mul(&pp.g2, &sk_s))
}

} // verus!
