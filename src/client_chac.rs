use vstd::prelude::*;
use vstd::arithmetic::div_mod::{lemma_add_mod_noop, lemma_add_mod_noop_right, lemma_mul_mod_noop_left};
use rand::rngs::StdRng;
use crate::bls::{
    bls_order, fr_invert, fr_random, fr_random_nonzero, g1_add, g1_mul, g2_mul, inv_r,
    is_inverse_r, lemma_inv_r_is, BlsScalar,
};
use crate::util_chac::{hash_nonce, nonce_base, Msg, PublicParams, Query, Response};

verus! {

/// The query made with the randomness `r`: `s1 = g1·r`, `s2 = g2·r`,
/// `sig = sk + h·r` for the session base `h`.
pub open spec fn query_is(q: Query, pp: PublicParams, nonce: BlsScalar, r: int) -> bool {
    let l = bls_order();
    &&& q.pk2 == pp.pk2
    &&& q.s1.log() == (pp.g1.log() * r) % l
    &&& q.s2.log() == (pp.g2.log() * r) % l
    &&& q.sig.log() == (pp.sk.log() + nonce_base(pp, nonce) * r) % l
}

/// The redemption message made from `resp` with the randomness `rp`, `kdp`
/// and the invertible `psi`.
pub open spec fn msg_is(
    m: Msg,
    pp: PublicParams,
    nonce: BlsScalar,
    resp: Response,
    rp: int,
    kdp: int,
    psi: int,
) -> bool {
    let l = bls_order();
    let pi = inv_r(psi);
    &&& is_inverse_r(psi, pi)
    &&& m.s1p.log() == (pp.g1.log() * kdp) % l
    &&& m.s2p.log() == (pp.g2.log() * kdp) % l
    &&& m.sigp.log() == (pp.sk.log() * rp + nonce_base(pp, nonce) * kdp) % l
    &&& m.pkp1.log() == (pp.g1.log() * rp) % l
    &&& m.pkp2.log() == (pp.pk2.log() * rp) % l
    &&& m.zp.log() == (resp.z.log() * rp * psi) % l
    &&& m.w1p.log() == (resp.w1.log() * pi) % l
    &&& m.w2p.log() == (resp.w2.log() * pi) % l
    &&& m.vp.log() == (resp.v.log() * pi) % l
}

/// The holder of a credential.
pub struct Client {}

impl Client {
    pub fn new() -> Self {
        Client {}
    }

    /// Blinds the MAC key on the session base `h = g1·H(nonce)` with a fresh
    /// `r`: `(s1, s2, sig) = (g1·r, g2·r, sk + h·r)`.
    pub fn client_query(&mut self, rng: &mut StdRng, pp: &PublicParams, nonce: BlsScalar) -> (q: Query)
        requires
            pp.wf(),
        ensures
            q.wf(),
            exists|r: int| 0 <= r < bls_order() && #[trigger] query_is(q, *pp, nonce, r),
    {
        let h = hash_nonce(pp, &nonce);
        let r = fr_random(rng);
        let s1 = g1_mul(&pp.g1, &r);
        let s2 = g2_mul(&pp.g2, &r);
        let sig = g1_add(&pp.sk, &g1_mul(&h, &r));
        proof {
            lemma_add_mod_noop_right(pp.sk.log(), h.log() * r.val(), bls_order());
        }
        let q = Query { pk2: pp.pk2, sig, s1, s2 };
        assert(query_is(q, *pp, nonce, r.val()));
        q
    }

    /// Re-randomises the credential for one redemption with fresh `r'`, `k'`
    /// and `ψ ≠ 0`: the key part is scaled by `r'`, the session part is drawn
    /// anew with `k'`, `z` is scaled by `r'·ψ` and `(w1, w2, v)` by `1/ψ`.
    pub fn client_redeem(
        &mut self,
        rng: &mut StdRng,
        pp: &PublicParams,
        nonce: BlsScalar,
        resp: &Response,
    ) -> (m: Msg)
        requires
            pp.wf(),
            resp.wf(),
        ensures
            m.wf(),
            exists|rp: int, kdp: int, psi: int| #[trigger] msg_is(m, *pp, nonce, *resp, rp, kdp, psi),
    {
        let ghost l = bls_order();
        let h = hash_nonce(pp, &nonce);
        let rp = fr_random(rng);
        let kdp = fr_random(rng);
        let psi = fr_random_nonzero(rng);

        let s1p = g1_mul(&pp.g1, &kdp);
        let s2p = g2_mul(&pp.g2, &kdp);
        let sigp = g1_add(&g1_mul(&pp.sk, &rp), &g1_mul(&h, &kdp));
        proof {
            lemma_add_mod_noop(pp.sk.log() * rp.val(), h.log() * kdp.val(), l);
        }

        let pkp1 = g1_mul(&pp.g1, &rp);
        let pkp2 = g1_mul(&pp.pk2, &rp);
        let zp = g1_mul(&g1_mul(&resp.z, &rp), &psi);
        proof {
            lemma_mul_mod_noop_left(resp.z.log() * rp.val(), psi.val(), l);
        }

        let psi_inv = fr_invert(&psi);
        proof {
            lemma_inv_r_is(psi.val(), psi_inv.val());
        }
        let w1p = g1_mul(&resp.w1, &psi_inv);
        let w2p = g2_mul(&resp.w2, &psi_inv);
        let vp = g2_mul(&resp.v, &psi_inv);

        let m = Msg { pkp1, pkp2, sigp, s1p, s2p, zp, w1p, w2p, vp };
        assert(msg_is(m, *pp, nonce, *resp, rp.val(), kdp.val(), psi.val()));
        m
    }
}

} // verus!
