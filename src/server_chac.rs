use vstd::prelude::*;
use vstd::arithmetic::div_mod::{lemma_add_mod_noop, lemma_mul_mod_noop_left};
use rand::rngs::StdRng;
use crate::bls::{
    bls_order, fr_invert, fr_random, g1_add, g1_mul, g2_mul, gt_add, inv_r, is_inverse_r,
    lemma_inv_r_is, pairing, pairing_eq, pairing_holds, BlsScalar, MAX_FR_DRAWS,
};
use crate::transcript::{absorb, hash_to_fr};
use crate::util_chac::{hash_ipk, hash_nonce, tagged_transcript, ipk_base, nonce_base, Msg, PublicParams, Query, Response};

verus! {

/// `e(a1, b1) = e(a2, b2) + e(a3, b3)`, over logarithms.
pub open spec fn pairing_sum_holds(a1: int, b1: int, a2: int, b2: int, a3: int, b3: int) -> bool {
    let l = bls_order();
    (a1 * b1) % l == ((a2 * b2) % l + (a3 * b3) % l) % l
}

/// The two equations that an issuer checks of a query: `r` is the same in
/// both groups, `e(s1, g2) = e(g1, s2)`, and the MAC is valid,
/// `e(sig, g2) = e(pk2, y2) + e(h, s2)`.
pub open spec fn query_accepted(pp: PublicParams, nonce: BlsScalar, q: Query) -> bool {
    &&& pairing_holds(q.s1.log(), pp.g2.log(), pp.g1.log(), q.s2.log())
    &&& pairing_sum_holds(
        q.sig.log(),
        pp.g2.log(),
        pp.pk2.log(),
        pp.y2.log(),
        nonce_base(pp, nonce),
        q.s2.log(),
    )
}

/// The response made under the nonzero key `y`.
pub open spec fn response_is(resp: Response, pp: PublicParams, y: int) -> bool {
    let l = bls_order();
    let yi = inv_r(y);
    &&& is_inverse_r(y, yi)
    &&& resp.w1.log() == (pp.g1.log() * yi) % l
    &&& resp.w2.log() == (pp.g2.log() * yi) % l
    &&& resp.z.log() == ((pp.pk1.log() * pp.x1.val() + pp.pk2.log() * pp.x2.val()) * y) % l
    &&& resp.v.log() == (ipk_base(pp) * yi) % l
}

/// The equations that a verifier checks of a redemption message.
pub open spec fn msg_accepted(pp: PublicParams, nonce: BlsScalar, m: Msg) -> bool {
    let l = bls_order();
    &&& pairing_holds(m.s1p.log(), pp.g2.log(), pp.g1.log(), m.s2p.log())
    &&& pairing_sum_holds(
        m.sigp.log(),
        pp.g2.log(),
        m.pkp2.log(),
        pp.y2.log(),
        nonce_base(pp, nonce),
        m.s2p.log(),
    )
    &&& ((m.pkp1.log() * pp.ipk1.log()) % l + (m.pkp2.log() * pp.ipk2.log()) % l) % l == (
    m.zp.log() * m.w2p.log()) % l
    &&& pairing_holds(m.w1p.log(), pp.g2.log(), pp.g1.log(), m.w2p.log())
    &&& pairing_holds(m.w1p.log(), ipk_base(pp), pp.g1.log(), m.vp.log())
}

/// The issuer and verifier of credentials.
pub struct Server {}

/// Derives a nonzero issuance key `y = H(tag ‖ key ‖ pk2)` from a fresh `key`,
/// drawing again while the result is zero; after `MAX_FR_DRAWS` zero results
/// it returns one.
fn derive_key(rng: &mut StdRng, pp: &PublicParams) -> (y: BlsScalar)
    requires
        pp.wf(),
    ensures
        y.wf(),
        y.val() != 0,
{
    let mut tries: u32 = 0;
    while tries < MAX_FR_DRAWS
        decreases MAX_FR_DRAWS - tries,
    {
        let key = fr_random(rng);
        let mut t = tagged_transcript();
        absorb(&mut t, &key.bytes);
        let mut i: usize = 0;
        while i < 48
            invariant
                0 <= i <= 48,
            decreases 48 - i,
        {
            t.push(pp.pk2.bytes[i]);
            i = i + 1;
        }
        let y = hash_to_fr(&t);
        if !y.is_zero() {
            return y;
        }
        tries = tries + 1;
    }
    BlsScalar::one()
}

impl Server {
    pub fn new() -> Self {
        Server {}
    }

    /// Checks the query's two pairing equations, then answers under a fresh
    /// key `y`: `w1 = g1/y`, `w2 = g2/y`, `z = (pk1·x1 + pk2·x2)·y`,
    /// `v = H(ipk1)/y`. `None` when either equation fails.
    pub fn server_issue(
        &self,
        rng: &mut StdRng,
        pp: &PublicParams,
        nonce: BlsScalar,
        query: &Query,
    ) -> (resp: Option<Response>)
        requires
            pp.wf(),
            query.wf(),
        ensures
            resp.is_some() == query_accepted(*pp, nonce, *query),
            resp matches Some(rs) ==> {
                &&& rs.wf()
                &&& exists|y: int| 0 < y < bls_order() && #[trigger] response_is(rs, *pp, y)
            },
    {
        let ghost l = bls_order();
        let h = hash_nonce(pp, &nonce);
        if !pairing_eq(&query.s1, &pp.g2, &pp.g1, &query.s2) {
            return None;
        }
        let lhs = pairing(&query.sig, &pp.g2);
        let rhs = gt_add(&pairing(&pp.pk2, &pp.y2), &pairing(&h, &query.s2));
        if !lhs.equals(&rhs) {
            return None;
        }

        let y = derive_key(rng, pp);
        let yinv = fr_invert(&y);
        proof {
            lemma_inv_r_is(y.val(), yinv.val());
        }
        let base = g1_add(&g1_mul(&pp.pk1, &pp.x1), &g1_mul(&pp.pk2, &pp.x2));
        let z = g1_mul(&base, &y);
        proof {
            lemma_add_mod_noop(pp.pk1.log() * pp.x1.val(), pp.pk2.log() * pp.x2.val(), l);
            lemma_mul_mod_noop_left(pp.pk1.log() * pp.x1.val() + pp.pk2.log() * pp.x2.val(), y.val(), l);
        }
        let w1 = g1_mul(&pp.g1, &yinv);
        let w2 = g2_mul(&pp.g2, &yinv);
        let h_ipk = hash_ipk(pp);
        let v = g2_mul(&h_ipk, &yinv);
        let rs = Response { w1, w2, z, v };
        assert(response_is(rs, *pp, y.val()));
        Some(rs)
    }

    /// Checks a redemption message: `e(s1', g2) = e(g1, s2')`,
    /// `e(sig', g2) = e(pk2', y2) + e(h, s2')`,
    /// `e(pk1', ipk1) + e(pk2', ipk2) = e(z', w2')`, `e(w1', g2) = e(g1, w2')`
    /// and `e(w1', H(ipk1)) = e(g1, v')`.
    pub fn server_redeem(&self, rng: &mut StdRng, pp: &PublicParams, nonce: BlsScalar, msg: &Msg) -> (ok: bool)
        requires
            pp.wf(),
            msg.wf(),
        ensures
            *final(rng) == *old(rng),
            ok == msg_accepted(*pp, nonce, *msg),
    {
        let h = hash_nonce(pp, &nonce);
        if !pairing_eq(&msg.s1p, &pp.g2, &pp.g1, &msg.s2p) {
            return false;
        }
        let lhs = pairing(&msg.sigp, &pp.g2);
        let rhs = gt_add(&pairing(&msg.pkp2, &pp.y2), &pairing(&h, &msg.s2p));
        if !lhs.equals(&rhs) {
            return false;
        }
        let lhs = gt_add(&pairing(&msg.pkp1, &pp.ipk1), &pairing(&msg.pkp2, &pp.ipk2));
        let rhs = pairing(&msg.zp, &msg.w2p);
        if !lhs.equals(&rhs) {
            return false;
        }
        if !pairing_eq(&msg.w1p, &pp.g2, &pp.g1, &msg.w2p) {
            return false;
        }
        let h_ipk = hash_ipk(pp);
        pairing_eq(&msg.w1p, &h_ipk, &pp.g1, &msg.vp)
    }
}

} // verus!
