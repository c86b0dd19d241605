use vstd::prelude::*;
use crate::scalar::{group_order, inv_mod, is_inverse, lemma_inv_mod_is};
use crate::congruence::{
    congm, lemma_congm_add, lemma_congm_cancel, lemma_congm_mul, lemma_congm_reduce,
    lemma_congm_sub,
};
use crate::util_dalek::{
    dleq_accepts, dleq_proof_is, redemption_commitment, rep3_accepts, rep3_proof_is, DLEQProof,
    ParamLogs, REP3Proof,
};
use crate::client_dalek::{blinded_point, nonce_point, token_image};
use crate::server_dalek::rebuilt_nonce_point;

verus! {

/// An honest query's proof is accepted. For `X = g1·x` and
/// `T = λ·(g1·x + g3·r + g4)` with `λ` invertible, the representation proof
/// made with any nonces `a`, `b`, `c` passes the check.
pub proof fn lemma_rep3_complete(
    pi: REP3Proof,
    p: ParamLogs,
    x: int,
    lambda: int,
    lambda_inv: int,
    r: int,
    a: int,
    b: int,
    c: int,
)
    requires
        is_inverse(lambda, lambda_inv),
        rep3_proof_is(
            pi,
            p,
            (p.g1 * x) % group_order(),
            blinded_point(p, x, r, lambda) % group_order(),
            x,
            lambda,
            r,
            a,
            b,
            c,
        ),
    ensures
        rep3_accepts(
            p,
            (p.g1 * x) % group_order(),
            blinded_point(p, x, r, lambda) % group_order(),
            pi.ch.val(),
            pi.resp1.val(),
            pi.resp2.val(),
            pi.resp3.val(),
        ),
{
    let l = group_order();
    let m = p.g1 * x + p.g3 * r + p.g4;
    let xx = (p.g1 * x) % l;
    let t = blinded_point(p, x, r, lambda) % l;
    let ch = pi.ch.val();
    let (r1, r2, r3) = (pi.resp1.val(), pi.resp2.val(), pi.resp3.val());
    lemma_inv_mod_is(lambda, lambda_inv);
    let li = lambda_inv;

    // The first commitment: g1·resp1 + X·ch = g1·a.
    lemma_congm_reduce(a - ch * x, l);
    lemma_congm_mul(p.g1, p.g1, r1, a - ch * x, l);
    lemma_congm_reduce(p.g1 * x, l);
    lemma_congm_mul(xx, p.g1 * x, ch, ch, l);
    lemma_congm_add(p.g1 * r1, p.g1 * (a - ch * x), xx * ch, p.g1 * x * ch, l);
    assert(p.g1 * (a - ch * x) + p.g1 * x * ch == p.g1 * a) by (nonlinear_arith);

    // The second: g1·resp1 + g3·resp2 + T·resp3 − g4·ch = g1·a + g3·b + T·c.
    lemma_congm_reduce(b - ch * r, l);
    lemma_congm_mul(p.g3, p.g3, r2, b - ch * r, l);
    lemma_congm_reduce(c + ch * li, l);
    lemma_congm_mul(t, t, r3, c + ch * li, l);
    lemma_congm_add(p.g1 * r1, p.g1 * (a - ch * x), p.g3 * r2, p.g3 * (b - ch * r), l);
    lemma_congm_add(
        p.g1 * r1 + p.g3 * r2,
        p.g1 * (a - ch * x) + p.g3 * (b - ch * r),
        t * r3,
        t * (c + ch * li), l);
    lemma_congm_sub(
        p.g1 * r1 + p.g3 * r2 + t * r3,
        p.g1 * (a - ch * x) + p.g3 * (b - ch * r) + t * (c + ch * li),
        p.g4 * ch,
        p.g4 * ch, l);
    let f = p.g1 * a + p.g3 * b + t * c;
    assert(p.g1 * (a - ch * x) == p.g1 * a - ch * (p.g1 * x)) by (nonlinear_arith);
    assert(p.g3 * (b - ch * r) == p.g3 * b - ch * (p.g3 * r)) by (nonlinear_arith);
    assert(t * (c + ch * li) == t * c + ch * (t * li)) by (nonlinear_arith);
    assert(ch * (t * li - m) == ch * (t * li) - ch * (p.g1 * x) - ch * (p.g3 * r) - p.g4 * ch)
        by (nonlinear_arith)
        requires m == p.g1 * x + p.g3 * r + p.g4;
    // T·λ⁻¹ = g1·x + g3·r + g4.
    lemma_congm_reduce(m * lambda, l);
    lemma_congm_mul(t, m * lambda, li, li, l);
    lemma_congm_cancel(m, lambda, li, l);
    lemma_congm_sub(t * li, m, m, m, l);
    lemma_congm_mul(ch, ch, t * li - m, 0, l);
    lemma_congm_add(f, f, ch * (t * li - m), 0, l);
}

/// An honest response's proof is accepted. For `Y = g2·y` and
/// `S = (1/(y + s))·T` with `y + s` invertible, the discrete-log equality proof
/// made with any nonce `a` passes the check.
pub proof fn lemma_dleq_complete(
    pi: DLEQProof,
    p: ParamLogs,
    y: int,
    t: int,
    s: int,
    e_inv: int,
    a: int,
)
    requires
        is_inverse((y + s) % group_order(), e_inv),
        dleq_proof_is(
            pi,
            p,
            (p.g2 * y) % group_order(),
            (t * inv_mod((y + s) % group_order())) % group_order(),
            t,
            s,
            y,
            a,
        ),
    ensures
        dleq_accepts(
            p,
            (p.g2 * y) % group_order(),
            (t * inv_mod((y + s) % group_order())) % group_order(),
            t,
            s,
            pi.ch.val(),
            pi.resp.val(),
        ),
{
    let l = group_order();
    let e = (y + s) % l;
    lemma_inv_mod_is(e, e_inv);
    let yy = (p.g2 * y) % l;
    let sp = (t * e_inv) % l;
    let ch = pi.ch.val();
    let resp = pi.resp.val();
    let i = t - sp * s;

    // The first commitment: g2·resp − Y·ch = g2·a.
    lemma_congm_reduce(a + ch * y, l);
    lemma_congm_mul(p.g2, p.g2, resp, a + ch * y, l);
    lemma_congm_reduce(p.g2 * y, l);
    lemma_congm_mul(yy, p.g2 * y, ch, ch, l);
    lemma_congm_sub(p.g2 * resp, p.g2 * (a + ch * y), yy * ch, p.g2 * y * ch, l);
    assert(p.g2 * (a + ch * y) == p.g2 * a + ch * (p.g2 * y)) by (nonlinear_arith);
    assert(p.g2 * y * ch == ch * (p.g2 * y)) by (nonlinear_arith);

    // The second: S·resp − (T − S·s)·ch = S·a, since S·(y + s) = T.
    lemma_congm_mul(sp, sp, resp, a + ch * y, l);
    lemma_congm_sub(sp * resp, sp * (a + ch * y), i * ch, i * ch, l);
    assert(sp * (a + ch * y) == sp * a + ch * (sp * y)) by (nonlinear_arith);
    assert(i * ch == ch * t - ch * (sp * s)) by (nonlinear_arith)
        requires i == t - sp * s;
    assert(ch * (sp * (y + s) - t) == ch * (sp * y) + ch * (sp * s) - ch * t) by (nonlinear_arith);
    lemma_congm_reduce(t * e_inv, l);
    lemma_congm_reduce(y + s, l);
    lemma_congm_mul(sp, t * e_inv, y + s, e, l);
    assert(t * e_inv * e == t * e * e_inv) by (nonlinear_arith);
    lemma_congm_cancel(t, e, e_inv, l);
    lemma_congm_sub(sp * (y + s), t, t, t, l);
    lemma_congm_mul(ch, ch, sp * (y + s) - t, 0, l);
    lemma_congm_add(sp * a, sp * a, ch * (sp * (y + s) - t), 0, l);
}

/// An issued token satisfies `σ·(sk_s + s) = g1·sk_c + g3·r + g4`, where
/// `T = λ·(g1·sk_c + g3·r + g4)`, `S = (1/(sk_s + s))·T` and `σ = (1/λ)·S`.
pub proof fn lemma_token_relation(
    p: ParamLogs,
    sk_c: int,
    r: int,
    lambda: int,
    lambda_inv: int,
    sk_s: int,
    s: int,
    e_inv: int,
)
    requires
        is_inverse(lambda, lambda_inv),
        is_inverse((sk_s + s) % group_order(), e_inv),
    ensures
        ({
            let l = group_order();
            let t = blinded_point(p, sk_c, r, lambda) % l;
            let big_s = (t * inv_mod((sk_s + s) % l)) % l;
            let sigma = (big_s * inv_mod(lambda)) % l;
            congm(sigma * (sk_s + s), p.g1 * sk_c + p.g3 * r + p.g4, group_order())
        }),
{
    let l = group_order();
    let e = (sk_s + s) % l;
    lemma_inv_mod_is(lambda, lambda_inv);
    lemma_inv_mod_is(e, e_inv);
    let m = p.g1 * sk_c + p.g3 * r + p.g4;
    let t = blinded_point(p, sk_c, r, lambda) % l;
    let big_s = (t * e_inv) % l;
    let sigma = (big_s * lambda_inv) % l;

    lemma_congm_reduce(m * lambda, l);
    lemma_congm_reduce(t * e_inv, l);
    lemma_congm_reduce(big_s * lambda_inv, l);
    lemma_congm_reduce(sk_s + s, l);
    lemma_congm_mul(t, m * lambda, e_inv, e_inv, l);
    lemma_congm_mul(big_s, m * lambda * e_inv, lambda_inv, lambda_inv, l);
    lemma_congm_mul(sigma, m * lambda * e_inv * lambda_inv, sk_s + s, e, l);
    assert(m * lambda * e_inv * lambda_inv * e == m * lambda * lambda_inv * e * e_inv)
        by (nonlinear_arith);
    lemma_congm_cancel(m, lambda, lambda_inv, l);
    lemma_congm_mul(m * lambda * lambda_inv, m, e, e, l);
    lemma_congm_mul(m * lambda * lambda_inv * e, m * e, e_inv, e_inv, l);
    lemma_congm_cancel(m, e, e_inv, l);
}

/// The two-round redemption of a token that satisfies
/// `σ·(sk_s + s) = g1·sk_c + g3·r + g4` is accepted: the first round finds
/// `σ' = σ·sk_s`, and for any nonces `α`, `β`, `γ`, challenge `c` and opening
/// `ρ`, the point that the server rebuilds from the responses opens the
/// client's commitment.
pub proof fn lemma_redemption_complete(
    p: ParamLogs,
    sk_c: int,
    r: int,
    s: int,
    sk_s: int,
    sigma: int,
    alpha: int,
    beta: int,
    gamma: int,
    c: int,
    rho: Seq<u8>,
)
    requires
        congm(sigma * (sk_s + s), p.g1 * sk_c + p.g3 * r + p.g4, group_order()),
    ensures
        token_image(p, sk_c, r, sigma, s) % group_order() == (sigma * sk_s) % group_order(),
        redemption_commitment(
            rho,
            rebuilt_nonce_point(
                p,
                sigma,
                token_image(p, sk_c, r, sigma, s) % group_order(),
                (alpha + c * sk_c) % group_order(),
                (beta + c * r) % group_order(),
                (gamma - c * s) % group_order(),
                c,
            ),
        ) == redemption_commitment(rho, nonce_point(p, sigma, alpha, beta, gamma)),
{
    let l = group_order();
    let m = p.g1 * sk_c + p.g3 * r + p.g4;
    let img = token_image(p, sk_c, r, sigma, s);
    let sp = img % l;

    // First round: g1·sk_c + g3·r + g4 − σ·s = σ·sk_s.
    assert(sigma * (sk_s + s) == sigma * sk_s + sigma * s) by (nonlinear_arith);
    lemma_congm_sub(sigma * sk_s + sigma * s, m, sigma * s, sigma * s, l);

    // Second round: the rebuilt point is Q.
    let (v0, v1, v2) = ((alpha + c * sk_c) % l, (beta + c * r) % l, (gamma - c * s) % l);
    lemma_congm_reduce(alpha + c * sk_c, l);
    lemma_congm_reduce(beta + c * r, l);
    lemma_congm_reduce(gamma - c * s, l);
    lemma_congm_reduce(img, l);
    lemma_congm_mul(p.g1, p.g1, v0, alpha + c * sk_c, l);
    lemma_congm_mul(p.g3, p.g3, v1, beta + c * r, l);
    lemma_congm_mul(sigma, sigma, v2, gamma - c * s, l);
    lemma_congm_sub(sp, img, p.g4, p.g4, l);
    lemma_congm_mul(sp - p.g4, img - p.g4, c, c, l);
    lemma_congm_add(p.g1 * v0, p.g1 * (alpha + c * sk_c), p.g3 * v1, p.g3 * (beta + c * r), l);
    lemma_congm_add(
        p.g1 * v0 + p.g3 * v1,
        p.g1 * (alpha + c * sk_c) + p.g3 * (beta + c * r),
        sigma * v2,
        sigma * (gamma - c * s), l);
    lemma_congm_sub(
        p.g1 * v0 + p.g3 * v1 + sigma * v2,
        p.g1 * (alpha + c * sk_c) + p.g3 * (beta + c * r) + sigma * (gamma - c * s),
        (sp - p.g4) * c,
        (img - p.g4) * c, l);
    assert(p.g1 * (alpha + c * sk_c) == p.g1 * alpha + c * (p.g1 * sk_c)) by (nonlinear_arith);
    assert(p.g3 * (beta + c * r) == p.g3 * beta + c * (p.g3 * r)) by (nonlinear_arith);
    assert(sigma * (gamma - c * s) == sigma * gamma - c * (sigma * s)) by (nonlinear_arith);
    assert((img - p.g4) * c == c * (p.g1 * sk_c) + c * (p.g3 * r) - c * (sigma * s))
        by (nonlinear_arith)
        requires img == p.g1 * sk_c + p.g3 * r + p.g4 - sigma * s;
}

/// A tampered token `σ + g1` fails the first redemption round against the
/// `σ' = σ·sk_s` of the untampered one, whenever `g1·sk_s` is not the identity
/// (which holds for every nonzero `g1` and `sk_s`, the group order being
/// prime).
pub proof fn lemma_tampered_token_rejected(sigma: int, g1: int, sk_s: int, sigma_: int)
    requires
        sigma_ == (sigma * sk_s) % group_order(),
        (g1 * sk_s) % group_order() != 0,
    ensures
        sigma_ != (((sigma + g1) % group_order()) * sk_s) % group_order(),
{
    let l = group_order();
    lemma_congm_reduce(sigma + g1, l);
    lemma_congm_mul((sigma + g1) % l, sigma + g1, sk_s, sk_s, l);
    assert((sigma + g1) * sk_s == sigma * sk_s + g1 * sk_s) by (nonlinear_arith);
    if sigma_ == (((sigma + g1) % l) * sk_s) % l {
        lemma_congm_sub(sigma * sk_s + g1 * sk_s, sigma * sk_s, sigma * sk_s, sigma * sk_s, l);
        assert(g1 * sk_s == sigma * sk_s + g1 * sk_s - sigma * sk_s);
        assert(congm(g1 * sk_s, 0, l));
    }
}

} // verus!
