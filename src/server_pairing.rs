use vstd::prelude::*;
use vstd::arithmetic::div_mod::{
    lemma_add_mod_noop, lemma_mul_mod_noop_left, lemma_sub_mod_noop,
};
use rand::rngs::StdRng;
use crate::bls::{
    bls_order, fr_add, fr_invert, fr_random, fr_random_avoiding, g1_add, g1_mul, g1_sub,
    inv_r, is_inverse_r, lemma_g1_encodes, lemma_g1_log, lemma_inv_r_is, pairing_eq,
    pairing_holds, BlsScalar, G1Point, G2Point,
};
use crate::server_dalek::rebuilt_nonce_point;
use crate::util_pairing::{
    commit, redemption_commitment, rep3_accepts, rep3_verify, PublicParams, Query,
    RedemptionProof1, RedemptionProof2, ResponsePairing, Token,
};

verus! {

/// The server's side of one session: what the first redemption round leaves
/// for the second.
pub struct Server {
    pub pp: PublicParams,
    pub pk_c: G1Point,
    pub sigma_: G1Point,
    pub comm: BlsScalar,
    pub c: BlsScalar,
}

impl Server {
    pub open spec fn wf(&self) -> bool {
        &&& self.pp.wf()
        &&& self.pk_c.wf()
        &&& self.sigma_.wf()
        &&& self.comm.wf()
        &&& self.c.wf()
    }

    /// A session for the parameters `pp` and the client key `pk_c`; `st` and
    /// `g1` fill the redemption state until the first round sets it.
    pub fn new(pp: &PublicParams, pk_c: G1Point, st: BlsScalar) -> (s: Self)
        requires
            pp.wf(),
            pk_c.wf(),
            st.wf(),
        ensures
            s.wf(),
            s.pp == *pp,
            s.pk_c == pk_c,
            s.sigma_ == pp.g1,
            s.comm == st && s.c == st,
    {
        let server_pp = PublicParams { g1: pp.g1, g2: pp.g2, g3: pp.g3, g4: pp.g4 };
        Server { pp: server_pp, pk_c, sigma_: pp.g1, comm: st, c: st }
    }

    /// Checks the query's proof against `pk_c`, then signs the blinded point:
    /// `S = (1/(sk_s + s))·T` for a fresh tag `s` with `sk_s + s ≠ 0`. `None`
    /// when the query's proof fails.
    pub fn server_issue(
        &self,
        rng: &mut StdRng,
        pp: &PublicParams,
        sk_s: BlsScalar,
        pk_c: G1Point,
        query: &Query,
    ) -> (resp: Option<ResponsePairing>)
        requires
            pp.wf(),
            sk_s.wf(),
            pk_c.wf(),
            query.wf(),
        ensures
            resp.is_some() == rep3_accepts(
                pp.logs(),
                pk_c.log(),
                query.T.log(),
                query.pi_c.ch.val(),
                query.pi_c.resp1.val(),
                query.pi_c.resp2.val(),
                query.pi_c.resp3.val(),
            ),
            resp matches Some(rs) ==> {
                &&& rs.wf()
                &&& (sk_s.val() + rs.s.val()) % bls_order() != 0
                &&& is_inverse_r(
                    (sk_s.val() + rs.s.val()) % bls_order(),
                    inv_r((sk_s.val() + rs.s.val()) % bls_order()),
                )
                &&& rs.S.log() == (query.T.log() * inv_r(
                    (sk_s.val() + rs.s.val()) % bls_order(),
                )) % bls_order()
            },
    {
        let verified = rep3_verify(pp, pk_c, query.T, &query.pi_c);
        if !verified {
            return None;
        }
        let s = fr_random_avoiding(rng, &sk_s);
        let e = fr_add(&sk_s, &s);
        let e_inv = fr_invert(&e);
        proof {
            lemma_inv_r_is(e.val(), e_inv.val());
        }
        let S = g1_mul(&query.T, &e_inv);
        Some(ResponsePairing { s, S })
    }

    /// First redemption round: accepts when `e(σ, pk_s) = e(σ', g2)`, and then
    /// keeps `σ'`, the commitment and a fresh challenge `c` for the second
    /// round and answers with `c`. `None`, with the session left as it was,
    /// when the pairing check fails.
    pub fn server_verify_redemption1(
        &mut self,
        rng: &mut StdRng,
        token: &Token,
        pk_s: G2Point,
        proof: &RedemptionProof1,
    ) -> (ch: Option<BlsScalar>)
        requires
            old(self).wf(),
            token.wf(),
            pk_s.wf(),
            proof.wf(),
        ensures
            final(self).wf(),
            final(self).pp == old(self).pp,
            final(self).pk_c == old(self).pk_c,
            ch.is_some() == pairing_holds(
                token.sigma.log(),
                pk_s.log(),
                proof.sigma_.log(),
                old(self).pp.g2.log(),
            ),
            ch matches Some(c) ==> {
                &&& c.wf()
                &&& final(self).c == c
                &&& final(self).sigma_ == proof.sigma_
                &&& final(self).comm == proof.comm
            },
            ch is None ==> *final(self) == *old(self),
    {
        if !pairing_eq(&token.sigma, &pk_s, &proof.sigma_, &self.pp.g2) {
            None
        } else {
            let c = fr_random(rng);
            self.sigma_ = proof.sigma_;
            self.comm = proof.comm;
            self.c = c;
            Some(c)
        }
    }

    /// Second redemption round: rebuilds the nonce point from the responses
    /// and accepts when it opens the commitment of the first round.
    pub fn server_verify_redemption2(&self, token: &Token, proof: &RedemptionProof2) -> (ok: bool)
        requires
            self.wf(),
            token.wf(),
            proof.wf(),
        ensures
            ok == (self.comm.val() == redemption_commitment(
                proof.rho.bytes@,
                rebuilt_nonce_point(
                    self.pp.logs(),
                    token.sigma.log(),
                    self.sigma_.log(),
                    proof.v0.val(),
                    proof.v1.val(),
                    proof.v2.val(),
                    self.c.val(),
                ),
            )),
    {
        let ghost p = self.pp.logs();
        let ghost l = bls_order();
        let ghost sg = token.sigma.log();
        let ghost sp = self.sigma_.log();
        let ghost (v0, v1, v2, c) = (proof.v0.val(), proof.v1.val(), proof.v2.val(), self.c.val());
        let q1 = g1_add(&g1_mul(&self.pp.g1, &proof.v0), &g1_mul(&self.pp.g3, &proof.v1));
        let q2 = g1_add(&q1, &g1_mul(&token.sigma, &proof.v2));
        let d = g1_sub(&self.sigma_, &self.pp.g4);
        let Q_s = g1_sub(&q2, &g1_mul(&d, &self.c));
        proof {
            lemma_add_mod_noop(p.g1 * v0, p.g3 * v1, l);
            lemma_add_mod_noop(p.g1 * v0 + p.g3 * v1, sg * v2, l);
            lemma_mul_mod_noop_left(sp - p.g4, c, l);
            lemma_sub_mod_noop(p.g1 * v0 + p.g3 * v1 + sg * v2, (sp - p.g4) * c, l);
            lemma_g1_encodes(Q_s, rebuilt_nonce_point(p, sg, sp, v0, v1, v2, c));
            lemma_g1_log(Q_s);
        }
        let comm_s = commit(&proof.rho, &Q_s);
        let ok = comm_s.equals(&self.comm);
        proof {
            if comm_s.val() == self.comm.val() {
                crate::scalar::lemma_le_value_injective(comm_s.bytes@, self.comm.bytes@);
            }
        }
        ok
    }
}

} // verus!
