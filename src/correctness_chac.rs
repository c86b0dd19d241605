use vstd::prelude::*;
use crate::bls::{bls_order, inv_r, BlsScalar};
use vstd::arithmetic::mul::lemma_mul_is_distributive_add_other_way;
use crate::congruence::{
    congm, lemma_congm_add, lemma_congm_cancel, lemma_congm_mul, lemma_congm_reduce,
};
use crate::util_chac::{ipk_base, nonce_base, Msg, PublicParams, Query, Response};
use crate::client_chac::{msg_is, query_is};
use crate::server_chac::{msg_accepted, query_accepted, response_is};

verus! {

/// `a·b = c·d` modulo `r` follows from `a ≡ a2`, `d ≡ d2` and `a2·b = c·d2`.
proof fn lemma_pairing_sides(a: int, a2: int, b: int, c: int, d: int, d2: int)
    requires
        congm(a, a2, bls_order()),
        congm(d, d2, bls_order()),
        a2 * b == c * d2,
    ensures
        (a * b) % bls_order() == (c * d) % bls_order(),
{
    let l = bls_order();
    lemma_congm_mul(a, a2, b, b, l);
    lemma_congm_mul(c, c, d, d2, l);
}

/// An honest query is accepted: for parameters made with `δ` and `α`, the
/// query made with any `r` passes both of the issuer's pairing equations.
pub proof fn lemma_chac_query_accepted(
    pp: PublicParams,
    nonce: BlsScalar,
    q: Query,
    r: int,
    delta: int,
    alpha: int,
)
    requires
        pp.made_with(delta, alpha),
        query_is(q, pp, nonce, r),
    ensures
        query_accepted(pp, nonce, q),
{
    let l = bls_order();
    let (g1, g2) = (pp.g1.log(), pp.g2.log());
    let h = nonce_base(pp, nonce);
    // e(s1, g2) = e(g1, s2).
    lemma_congm_reduce(g1 * r, l);
    lemma_congm_reduce(g2 * r, l);
    assert(g1 * r * g2 == g1 * (g2 * r)) by (nonlinear_arith);
    lemma_pairing_sides(q.s1.log(), g1 * r, g2, g1, q.s2.log(), g2 * r);
    // e(sig, g2) = e(pk2, y2) + e(h, s2).
    let sk = pp.sk.log();
    lemma_congm_reduce(pp.y1.log() * alpha, l);
    lemma_congm_reduce(g1 * delta, l);
    lemma_congm_mul(pp.y1.log(), g1 * delta, alpha, alpha, l);
    lemma_congm_reduce(sk + h * r, l);
    lemma_congm_add(sk, g1 * delta * alpha, h * r, h * r, l);
    lemma_congm_mul(q.sig.log(), g1 * delta * alpha + h * r, g2, g2, l);
    lemma_congm_reduce(g1 * alpha, l);
    lemma_congm_reduce(g2 * delta, l);
    lemma_congm_mul(pp.pk2.log(), g1 * alpha, pp.y2.log(), g2 * delta, l);
    lemma_congm_reduce(pp.pk2.log() * pp.y2.log(), l);
    lemma_congm_mul(h, h, q.s2.log(), g2 * r, l);
    lemma_congm_reduce(h * q.s2.log(), l);
    lemma_congm_add(
        (pp.pk2.log() * pp.y2.log()) % l,
        g1 * alpha * (g2 * delta),
        (h * q.s2.log()) % l,
        h * (g2 * r),
        l,
    );
    lemma_mul_is_distributive_add_other_way(g2, g1 * delta * alpha, h * r);
    assert(g1 * delta * alpha * g2 == g1 * alpha * (g2 * delta)) by (nonlinear_arith);
    assert(h * r * g2 == h * (g2 * r)) by (nonlinear_arith);
}

/// An honest redemption is accepted: for parameters made with `δ` and `α`,
/// a response made under any nonzero key `y` and a message re-randomised from
/// it with any `r'`, `k'` and invertible `ψ` pass all of the verifier's
/// pairing equations.
pub proof fn lemma_chac_redemption_accepted(
    pp: PublicParams,
    nonce: BlsScalar,
    resp: Response,
    m: Msg,
    y: int,
    rp: int,
    kdp: int,
    psi: int,
    delta: int,
    alpha: int,
)
    requires
        pp.made_with(delta, alpha),
        response_is(resp, pp, y),
        msg_is(m, pp, nonce, resp, rp, kdp, psi),
    ensures
        msg_accepted(pp, nonce, m),
{
    let l = bls_order();
    let (g1, g2) = (pp.g1.log(), pp.g2.log());
    let h = nonce_base(pp, nonce);
    let hi = ipk_base(pp);
    let yi = inv_r(y);
    let pi = inv_r(psi);
    let (x1, x2) = (pp.x1.val(), pp.x2.val());

    // e(s1', g2) = e(g1, s2').
    lemma_congm_reduce(g1 * kdp, l);
    lemma_congm_reduce(g2 * kdp, l);
    assert(g1 * kdp * g2 == g1 * (g2 * kdp)) by (nonlinear_arith);
    lemma_pairing_sides(m.s1p.log(), g1 * kdp, g2, g1, m.s2p.log(), g2 * kdp);

    // e(sig', g2) = e(pk2', y2) + e(h, s2').
    lemma_congm_reduce(pp.y1.log() * alpha, l);
    lemma_congm_reduce(g1 * delta, l);
    lemma_congm_mul(pp.y1.log(), g1 * delta, alpha, alpha, l);
    lemma_congm_mul(pp.sk.log(), g1 * delta * alpha, rp, rp, l);
    lemma_congm_add(pp.sk.log() * rp, g1 * delta * alpha * rp, h * kdp, h * kdp, l);
    lemma_congm_reduce(pp.sk.log() * rp + h * kdp, l);
    lemma_congm_mul(m.sigp.log(), g1 * delta * alpha * rp + h * kdp, g2, g2, l);
    lemma_congm_reduce(g1 * alpha, l);
    lemma_congm_mul(pp.pk2.log(), g1 * alpha, rp, rp, l);
    lemma_congm_reduce(pp.pk2.log() * rp, l);
    lemma_congm_reduce(g2 * delta, l);
    lemma_congm_mul(m.pkp2.log(), g1 * alpha * rp, pp.y2.log(), g2 * delta, l);
    lemma_congm_reduce(m.pkp2.log() * pp.y2.log(), l);
    lemma_congm_mul(h, h, m.s2p.log(), g2 * kdp, l);
    lemma_congm_reduce(h * m.s2p.log(), l);
    lemma_congm_add(
        (m.pkp2.log() * pp.y2.log()) % l,
        g1 * alpha * rp * (g2 * delta),
        (h * m.s2p.log()) % l,
        h * (g2 * kdp),
        l,
    );
    lemma_mul_is_distributive_add_other_way(g2, g1 * delta * alpha * rp, h * kdp);
    let ga = g1 * alpha;
    assert(g1 * delta * alpha == ga * delta) by (nonlinear_arith)
        requires ga == g1 * alpha;
    assert(ga * delta * rp * g2 == ga * rp * (g2 * delta)) by (nonlinear_arith);
    assert(h * kdp * g2 == h * (g2 * kdp)) by (nonlinear_arith);

    // e(pk1', ipk1) + e(pk2', ipk2) = e(z', w2').
    let base = g1 * x1 + g1 * alpha * x2;
    lemma_congm_reduce(g1 * rp, l);
    lemma_congm_reduce(g2 * x1, l);
    lemma_congm_reduce(g2 * x2, l);
    lemma_congm_mul(m.pkp1.log(), g1 * rp, pp.ipk1.log(), g2 * x1, l);
    lemma_congm_reduce(m.pkp1.log() * pp.ipk1.log(), l);
    lemma_congm_mul(m.pkp2.log(), g1 * alpha * rp, pp.ipk2.log(), g2 * x2, l);
    lemma_congm_reduce(m.pkp2.log() * pp.ipk2.log(), l);
    lemma_congm_add(
        (m.pkp1.log() * pp.ipk1.log()) % l,
        g1 * rp * (g2 * x1),
        (m.pkp2.log() * pp.ipk2.log()) % l,
        g1 * alpha * rp * (g2 * x2),
        l,
    );
    lemma_congm_reduce(
        (m.pkp1.log() * pp.ipk1.log()) % l + (m.pkp2.log() * pp.ipk2.log()) % l,
        l,
    );
    let rg = rp * g2;
    lemma_mul_is_distributive_add_other_way(rg, g1 * x1, g1 * alpha * x2);
    assert(base * rp * g2 == base * rg) by (nonlinear_arith)
        requires rg == rp * g2;
    assert(g1 * rp * (g2 * x1) == g1 * x1 * rg) by (nonlinear_arith)
        requires rg == rp * g2;
    assert(ga * rp * (g2 * x2) == ga * x2 * rg) by (nonlinear_arith)
        requires rg == rp * g2;
    // z' = base·y·r'·ψ and w2' = g2·y⁻¹·ψ⁻¹.
    lemma_congm_mul(pp.pk1.log(), g1, x1, x1, l);
    lemma_congm_mul(pp.pk2.log(), g1 * alpha, x2, x2, l);
    lemma_congm_add(pp.pk1.log() * x1, g1 * x1, pp.pk2.log() * x2, g1 * alpha * x2, l);
    lemma_congm_mul(pp.pk1.log() * x1 + pp.pk2.log() * x2, base, y, y, l);
    lemma_congm_reduce((pp.pk1.log() * x1 + pp.pk2.log() * x2) * y, l);
    lemma_congm_mul(resp.z.log(), base * y, rp, rp, l);
    lemma_congm_mul(resp.z.log() * rp, base * y * rp, psi, psi, l);
    lemma_congm_reduce(resp.z.log() * rp * psi, l);
    lemma_congm_reduce(g2 * yi, l);
    lemma_congm_mul(resp.w2.log(), g2 * yi, pi, pi, l);
    lemma_congm_reduce(resp.w2.log() * pi, l);
    lemma_congm_mul(m.zp.log(), base * y * rp * psi, m.w2p.log(), g2 * yi * pi, l);
    // Regroup so that y·y⁻¹ and ψ·ψ⁻¹ meet.
    let zz = base * y * rp;
    let ww = g2 * yi;
    assert(base * y * rp * psi == zz * psi) by (nonlinear_arith)
        requires zz == base * y * rp;
    assert(g2 * yi * pi == ww * pi) by (nonlinear_arith)
        requires ww == g2 * yi;
    assert(zz * psi * (ww * pi) == zz * ww * psi * pi) by (nonlinear_arith);
    lemma_congm_cancel(zz * ww, psi, pi, l);
    let br = base * rp;
    assert(zz == br * y) by (nonlinear_arith)
        requires zz == base * y * rp, br == base * rp;
    assert(br * y * (g2 * yi) == br * g2 * y * yi) by (nonlinear_arith);
    assert(zz * ww == br * g2 * y * yi) by (nonlinear_arith)
        requires zz == br * y, ww == g2 * yi, br * y * (g2 * yi) == br * g2 * y * yi;
    lemma_congm_cancel(br * g2, y, yi, l);
    assert(br * g2 == base * rp * g2) by (nonlinear_arith)
        requires br == base * rp;

    // e(w1', g2) = e(g1, w2').
    lemma_congm_reduce(g1 * yi, l);
    lemma_congm_mul(resp.w1.log(), g1 * yi, pi, pi, l);
    lemma_congm_reduce(resp.w1.log() * pi, l);
    assert(g1 * yi * pi * g2 == g1 * (g2 * yi * pi)) by (nonlinear_arith);
    lemma_pairing_sides(m.w1p.log(), g1 * yi * pi, g2, g1, m.w2p.log(), g2 * yi * pi);

    // e(w1', H(ipk1)) = e(g1, v').
    lemma_congm_reduce(hi * yi, l);
    lemma_congm_mul(resp.v.log(), hi * yi, pi, pi, l);
    lemma_congm_reduce(resp.v.log() * pi, l);
    assert(g1 * yi * pi * hi == g1 * (hi * yi * pi)) by (nonlinear_arith);
    lemma_pairing_sides(m.w1p.log(), g1 * yi * pi, hi, g1, m.vp.log(), hi * yi * pi);
}

} // verus!
