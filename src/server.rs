use vstd::prelude::*;
use vstd::arithmetic::div_mod::{
    lemma_add_mod_noop, lemma_mul_mod_noop_left, lemma_sub_mod_noop,
};
use rand::rngs::StdRng;
use crate::secp::{
    group_order, inv_mod, is_inverse, lemma_scalar_val_injective, random_scalar,
    Scalar,
};
use crate::secp::{lemma_point_log_eq, point_add, point_mul, point_sub, Point};
use crate::server_dalek::rebuilt_nonce_point;
use crate::util::{
    commit, dleq_proof_is, server_issue, lemma_point_encodes, redemption_commitment, rep3_accepts,
    PublicParams, Query, RedemptionProof1, RedemptionProof2, Response,
    Token,
};

verus! {

/// The server's side of one session: what the first redemption round leaves
/// for the second.
pub struct Server {
    pub pp: PublicParams,
    pub pk_c: Point,
    pub sigma_: Point,
    pub comm: Scalar,
    pub c: Scalar,
}

impl Server {
    pub open spec fn wf(&self) -> bool {
        &&& self.pp.wf()
        &&& self.pk_c.wf()
        &&& self.sigma_.wf()
        &&& self.comm.wf()
        &&& self.c.wf()
    }

    /// A session for the parameters `pp` and the client key `pk_c`; `st` and
    /// `g1` fill the redemption state until the first round sets it.
    pub fn new(pp: &PublicParams, pk_c: Point, st: Scalar) -> (s: Self)
        requires
            pp.wf(),
            pk_c.wf(),
            st.wf(),
        ensures
            s.wf(),
            s.pp == *pp,
            s.pk_c == pk_c,
            s.sigma_ == pp.g1,
            s.comm == st && s.c == st,
    {
        let server_pp = PublicParams { g1: pp.g1, g2: pp.g2, g3: pp.g3, g4: pp.g4 };
        Server { pp: server_pp, pk_c, sigma_: pp.g1, comm: st, c: st }
    }

    /// Checks the query's proof against `pk_c`, then signs the blinded point:
    /// `S = (1/(sk_s + s))·T` for a fresh tag `s` with `sk_s + s ≠ 0`, with a
    /// proof that `S` was made with the key behind `g2·sk_s`. `None` when the
    /// query's proof fails.
    pub fn server_issue(
        &self,
        rng: &mut StdRng,
        pp: &PublicParams,
        sk_s: Scalar,
        pk_c: Point,
        query: &Query,
    ) -> (resp: Option<Response>)
        requires
            pp.wf(),
            sk_s.wf(),
            pk_c.wf(),
            query.wf(),
        ensures
            resp.is_some() == rep3_accepts(
                pp.logs(),
                pk_c.log(),
                query.T.log(),
                query.pi_c.ch.val(),
                query.pi_c.resp1.val(),
                query.pi_c.resp2.val(),
                query.pi_c.resp3.val(),
            ),
            resp matches Some(rs) ==> {
                &&& rs.wf()
                &&& (sk_s.val() + rs.s.val()) % group_order() != 0
                &&& is_inverse(
                    (sk_s.val() + rs.s.val()) % group_order(),
                    inv_mod((sk_s.val() + rs.s.val()) % group_order()),
                )
                &&& rs.S.log() == (query.T.log() * inv_mod(
                    (sk_s.val() + rs.s.val()) % group_order(),
                )) % group_order()
                &&& exists|a: int|
                    0 <= a < group_order() && #[trigger] dleq_proof_is(
                        rs.pi_s,
                        pp.logs(),
                        (pp.g2.log() * sk_s.val()) % group_order(),
                        rs.S.log(),
                        query.T.log(),
                        rs.s.val(),
                        sk_s.val(),
                        a,
                    )
            },
    {
        server_issue(rng, pp, sk_s, pk_c, query)
    }

    /// First redemption round: accepts when `σ' = σ·sk_s`, and then keeps
    /// `σ'`, the commitment and a fresh challenge `c` for the second round and
    /// answers with `c`. `None`, with the session left as it was, when the
    /// token does not match the key.
    pub fn server_verify_redemption1(
        &mut self,
        rng: &mut StdRng,
        token: &Token,
        sk_s: Scalar,
        proof: &RedemptionProof1,
    ) -> (ch: Option<Scalar>)
        requires
            old(self).wf(),
            token.wf(),
            sk_s.wf(),
            proof.wf(),
        ensures
            final(self).wf(),
            final(self).pp == old(self).pp,
            final(self).pk_c == old(self).pk_c,
            ch.is_some() == (proof.sigma_.log() == (token.sigma.log() * sk_s.val())
                % group_order()),
            ch matches Some(c) ==> {
                &&& c.wf()
                &&& final(self).c == c
                &&& final(self).sigma_ == proof.sigma_
                &&& final(self).comm == proof.comm
            },
            ch is None ==> *final(self) == *old(self),
    {
        let expected = point_mul(&token.sigma, &sk_s);
        proof {
            lemma_point_log_eq(proof.sigma_, expected);
        }
        if !proof.sigma_.equals(&expected) {
            None
        } else {
            let c = random_scalar(rng);
            self.sigma_ = proof.sigma_;
            self.comm = proof.comm;
            self.c = c;
            Some(c)
        }
    }

    /// Second redemption round: rebuilds the nonce point from the responses
    /// and accepts when it opens the commitment of the first round.
    pub fn server_verify_redemption2(&self, token: &Token, proof: &RedemptionProof2) -> (ok: bool)
        requires
            self.wf(),
            token.wf(),
            proof.wf(),
        ensures
            ok == (self.comm.val() == redemption_commitment(
                proof.rho.bytes@,
                rebuilt_nonce_point(
                    self.pp.logs(),
                    token.sigma.log(),
                    self.sigma_.log(),
                    proof.v0.val(),
                    proof.v1.val(),
                    proof.v2.val(),
                    self.c.val(),
                ),
            )),
    {
        let ghost p = self.pp.logs();
        let ghost l = group_order();
        let ghost sg = token.sigma.log();
        let ghost sp = self.sigma_.log();
        let ghost (v0, v1, v2, c) = (proof.v0.val(), proof.v1.val(), proof.v2.val(), self.c.val());
        let q1 = point_add(&point_mul(&self.pp.g1, &proof.v0), &point_mul(&self.pp.g3, &proof.v1));
        let q2 = point_add(&q1, &point_mul(&token.sigma, &proof.v2));
        let d = point_sub(&self.sigma_, &self.pp.g4);
        let Q_s = point_sub(&q2, &point_mul(&d, &self.c));
        proof {
            lemma_add_mod_noop(p.g1 * v0, p.g3 * v1, l);
            lemma_add_mod_noop(p.g1 * v0 + p.g3 * v1, sg * v2, l);
            lemma_mul_mod_noop_left(sp - p.g4, c, l);
            lemma_sub_mod_noop(p.g1 * v0 + p.g3 * v1 + sg * v2, (sp - p.g4) * c, l);
            lemma_point_encodes(Q_s, rebuilt_nonce_point(p, sg, sp, v0, v1, v2, c));
            crate::secp::lemma_point_log(Q_s);
        }
        let comm_s = commit(&proof.rho, &Q_s);
        let ok = comm_s.equals(&self.comm);
        proof {
            if comm_s.val() == self.comm.val() {
                lemma_scalar_val_injective(comm_s, self.comm);
            }
        }
        ok
    }
}

} // verus!
