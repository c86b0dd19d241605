use vstd::prelude::*;
use vstd::arithmetic::div_mod::{
    lemma_add_mod_noop, lemma_mul_mod_noop_left, lemma_sub_mod_noop, lemma_sub_mod_noop_right,
};
use rand::rngs::StdRng;
use crate::bls::{
    bls_order, fr_add, fr_invert, fr_mul, fr_random, fr_random_nonzero, fr_sub, g1_add,
    g1_mul, g1_sub, g2_add, g2_mul, inv_r, is_inverse_r, lemma_g1_encodes, lemma_g1_log,
    lemma_inv_r_is, pairing_eq, pairing_holds, BlsScalar, G1Point, G2Point,
};
use crate::client_dalek::{blinded_point, nonce_point, token_image};
use crate::util_pairing::{
    commit, redemption_commitment, rep3_proof_is, rep3_prove, PublicParams, Query,
    RedemptionProof1, RedemptionProof2, ResponsePairing, Token,
};

verus! {

/// The client's side of one session: the blinding of its query, then the
/// nonces of its redemption proof.
pub struct Client {
    pub pp: PublicParams,
    pub pk_s: G2Point,
    pub r: BlsScalar,
    pub lambda: BlsScalar,
    pub T: G1Point,
    pub alpha: BlsScalar,
    pub beta: BlsScalar,
    pub gamma: BlsScalar,
    pub rho: BlsScalar,
}

impl Client {
    pub open spec fn wf(&self) -> bool {
        &&& self.pp.wf()
        &&& self.pk_s.wf()
        &&& self.r.wf()
        &&& self.lambda.wf()
        &&& self.T.wf()
        &&& self.alpha.wf()
        &&& self.beta.wf()
        &&& self.gamma.wf()
        &&& self.rho.wf()
    }

    /// A session for the parameters `pp` and the server key `pk_s`; `st`
    /// fills the scalars and `g1` the point until the query sets them.
    pub fn new(pp: &PublicParams, pk_s: G2Point, st: BlsScalar) -> (c: Self)
        requires
            pp.wf(),
            pk_s.wf(),
            st.wf(),
        ensures
            c.wf(),
            c.pp == *pp,
            c.pk_s == pk_s,
            c.T == pp.g1,
            c.r == st && c.lambda == st,
            c.alpha == st && c.beta == st && c.gamma == st && c.rho == st,
    {
        let client_pp = PublicParams { g1: pp.g1, g2: pp.g2, g3: pp.g3, g4: pp.g4 };
        Client {
            pp: client_pp,
            pk_s,
            r: st,
            lambda: st,
            T: pp.g1,
            alpha: st,
            beta: st,
            gamma: st,
            rho: st,
        }
    }

    /// Blinds `g1·sk_c + g3·r + g4` with fresh nonzero `r` and `λ`, proves the
    /// form of the blinded point, and keeps `(r, λ, T)` for the last step of
    /// issuance.
    pub fn client_query(&mut self, rng: &mut StdRng, pp: &PublicParams, sk_c: BlsScalar, pk_s: G2Point) -> (q: Query)
        requires
            old(self).wf(),
            pp.wf(),
            sk_c.wf(),
        ensures
            final(self).wf(),
            q.wf(),
            final(self).pp == old(self).pp,
            final(self).pk_s == old(self).pk_s,
            final(self).alpha == old(self).alpha && final(self).beta == old(self).beta,
            final(self).gamma == old(self).gamma && final(self).rho == old(self).rho,
            final(self).T == q.T,
            final(self).r.val() != 0,
            final(self).lambda.val() != 0,
            is_inverse_r(final(self).lambda.val(), inv_r(final(self).lambda.val())),
            q.T.log() == blinded_point(
                pp.logs(),
                sk_c.val(),
                final(self).r.val(),
                final(self).lambda.val(),
            ) % bls_order(),
            exists|a: int, b: int, c: int|
                0 <= a < bls_order() && 0 <= b < bls_order() && 0 <= c < bls_order()
                    && #[trigger] rep3_proof_is(
                    q.pi_c,
                    pp.logs(),
                    (pp.g1.log() * sk_c.val()) % bls_order(),
                    q.T.log(),
                    sk_c.val(),
                    final(self).lambda.val(),
                    final(self).r.val(),
                    a,
                    b,
                    c,
                ),
    {
        let ghost p = pp.logs();
        let ghost l = bls_order();
        let X = g1_mul(&pp.g1, &sk_c);
        let r = fr_random_nonzero(rng);
        let lambda = fr_random_nonzero(rng);
        let base = g1_add(&g1_add(&X, &g1_mul(&pp.g3, &r)), &pp.g4);
        let T = g1_mul(&base, &lambda);
        proof {
            lemma_add_mod_noop(p.g1 * sk_c.val(), p.g3 * r.val(), l);
            lemma_add_mod_noop(p.g1 * sk_c.val() + p.g3 * r.val(), p.g4, l);
            assert(p.g4 % l == p.g4) by (nonlinear_arith)
                requires 0 <= p.g4 < l;
            lemma_mul_mod_noop_left(p.g1 * sk_c.val() + p.g3 * r.val() + p.g4, lambda.val(), l);
            assert(lambda.val() % l == lambda.val()) by (nonlinear_arith)
                requires 0 <= lambda.val() < l;
        }
        let pi_c = rep3_prove(rng, pp, X, T, sk_c, lambda, r);
        self.update_state(r, lambda, T);
        Query { T, pi_c }
    }

    /// Keeps the randomness and the blinded point of the query.
    pub fn update_state(&mut self, r: BlsScalar, lambda: BlsScalar, T: G1Point)
        ensures
            final(self).r == r,
            final(self).lambda == lambda,
            final(self).T == T,
            final(self).pp == old(self).pp,
            final(self).pk_s == old(self).pk_s,
            final(self).alpha == old(self).alpha && final(self).beta == old(self).beta,
            final(self).gamma == old(self).gamma && final(self).rho == old(self).rho,
    {
        self.r = r;
        self.lambda = lambda;
        self.T = T;
    }

    /// Checks `e(S, pk_s + g2·s) = e(T, g2)` and unblinds `S` into the token
    /// `σ = (1/λ)·S`; `None` when the check fails (or no query was made,
    /// `λ = 0`).
    pub fn client_final(&self, resp: &ResponsePairing) -> (tok: Option<Token>)
        requires
            self.wf(),
            resp.wf(),
        ensures
            tok.is_some() == (self.lambda.val() != 0 && pairing_holds(
                resp.S.log(),
                (self.pk_s.log() + self.pp.g2.log() * resp.s.val()) % bls_order(),
                self.T.log(),
                self.pp.g2.log(),
            )),
            tok matches Some(t) ==> {
                &&& t.wf()
                &&& t.sigma.log() == (resp.S.log() * inv_r(self.lambda.val())) % bls_order()
                &&& t.r == self.r
                &&& t.s == resp.s
            },
    {
        if self.lambda.is_zero() {
            return None;
        }
        let key = g2_add(&self.pk_s, &g2_mul(&self.pp.g2, &resp.s));
        proof {
            vstd::arithmetic::div_mod::lemma_add_mod_noop_right(
                self.pk_s.log(),
                self.pp.g2.log() * resp.s.val(),
                bls_order(),
            );
        }
        if !pairing_eq(&resp.S, &key, &self.T, &self.pp.g2) {
            return None;
        }
        let lambda_inv = fr_invert(&self.lambda);
        proof {
            lemma_inv_r_is(self.lambda.val(), lambda_inv.val());
        }
        let sigma = g1_mul(&resp.S, &lambda_inv);
        Some(Token { sigma, r: self.r, s: resp.s })
    }

    /// First redemption round: sends `σ' = g1·sk_c + g3·r + g4 − σ·s` and a
    /// commitment to `Q = g1·α + g3·β + σ·γ` under a fresh opening `ρ`, and
    /// keeps `(α, β, γ, ρ)` for the second round.
    #[verifier::rlimit(40)]
    pub fn client_prove_redemption1(
        &mut self,
        rng: &mut StdRng,
        token: &Token,
        sk_c: BlsScalar,
        pk_s: G2Point,
    ) -> (pr: RedemptionProof1)
        requires
            old(self).wf(),
            token.wf(),
            sk_c.wf(),
        ensures
            final(self).wf(),
            pr.wf(),
            final(self).pp == old(self).pp,
            final(self).pk_s == old(self).pk_s,
            final(self).r == old(self).r && final(self).lambda == old(self).lambda,
            final(self).T == old(self).T,
            pr.sigma_.log() == token_image(
                old(self).pp.logs(),
                sk_c.val(),
                token.r.val(),
                token.sigma.log(),
                token.s.val(),
            ) % bls_order(),
            pr.comm.val() == redemption_commitment(
                final(self).rho.bytes@,
                nonce_point(
                    old(self).pp.logs(),
                    token.sigma.log(),
                    final(self).alpha.val(),
                    final(self).beta.val(),
                    final(self).gamma.val(),
                ),
            ),
    {
        let ghost p = self.pp.logs();
        let ghost l = bls_order();
        let ghost sg = token.sigma.log();
        let u = g1_add(&g1_mul(&self.pp.g1, &sk_c), &g1_mul(&self.pp.g3, &token.r));
        let w = g1_add(&u, &self.pp.g4);
        let sigma_ = g1_sub(&w, &g1_mul(&token.sigma, &token.s));
        proof {
            lemma_add_mod_noop(p.g1 * sk_c.val(), p.g3 * token.r.val(), l);
            lemma_add_mod_noop(p.g1 * sk_c.val() + p.g3 * token.r.val(), p.g4, l);
            assert(p.g4 % l == p.g4) by (nonlinear_arith)
                requires 0 <= p.g4 < l;
            lemma_sub_mod_noop(p.g1 * sk_c.val() + p.g3 * token.r.val() + p.g4, sg * token.s.val(), l);
        }

        let alpha = fr_random(rng);
        let beta = fr_random(rng);
        let gamma = fr_random(rng);
        let q1 = g1_add(&g1_mul(&self.pp.g1, &alpha), &g1_mul(&self.pp.g3, &beta));
        let Q = g1_add(&q1, &g1_mul(&token.sigma, &gamma));
        let rho = fr_random(rng);
        proof {
            lemma_add_mod_noop(p.g1 * alpha.val(), p.g3 * beta.val(), l);
            lemma_add_mod_noop(p.g1 * alpha.val() + p.g3 * beta.val(), sg * gamma.val(), l);
            lemma_g1_encodes(Q, nonce_point(p, sg, alpha.val(), beta.val(), gamma.val()));
        }
        let comm = commit(&rho, &Q);
        proof {
            lemma_g1_log(Q);
        }

        self.alpha = alpha;
        self.beta = beta;
        self.gamma = gamma;
        self.rho = rho;
        RedemptionProof1 { sigma_, comm }
    }

    /// Second redemption round: the responses `v0 = α + c·sk_c`,
    /// `v1 = β + c·r`, `v2 = γ − c·s` to the server's challenge `c`, with the
    /// opening `ρ`.
    pub fn client_prove_redemption2(
        &self,
        rng: &mut StdRng,
        token: &Token,
        sk_c: BlsScalar,
        c: BlsScalar,
    ) -> (pr: RedemptionProof2)
        requires
            self.wf(),
            token.wf(),
            sk_c.wf(),
            c.wf(),
        ensures
            *final(rng) == *old(rng),
            pr.wf(),
            pr.v0.val() == (self.alpha.val() + c.val() * sk_c.val()) % bls_order(),
            pr.v1.val() == (self.beta.val() + c.val() * token.r.val()) % bls_order(),
            pr.v2.val() == (self.gamma.val() - c.val() * token.s.val()) % bls_order(),
            pr.rho == self.rho,
    {
        let ghost l = bls_order();
        let v0 = fr_add(&self.alpha, &fr_mul(&c, &sk_c));
        let v1 = fr_add(&self.beta, &fr_mul(&c, &token.r));
        let v2 = fr_sub(&self.gamma, &fr_mul(&c, &token.s));
        proof {
            vstd::arithmetic::div_mod::lemma_add_mod_noop_right(self.alpha.val(), c.val() * sk_c.val(), l);
            vstd::arithmetic::div_mod::lemma_add_mod_noop_right(self.beta.val(), c.val() * token.r.val(), l);
            lemma_sub_mod_noop_right(self.gamma.val(), c.val() * token.s.val(), l);
        }
        RedemptionProof2 { v0, v1, v2, rho: self.rho }
    }
}

} // verus!
