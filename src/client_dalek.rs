use vstd::prelude::*;
use vstd::arithmetic::div_mod::{
    lemma_add_mod_noop, lemma_mul_mod_noop_left, lemma_sub_mod_noop, lemma_sub_mod_noop_right,
};
use rand::rngs::StdRng;
use crate::scalar::{
    group_order, inv_mod, is_inverse, lemma_inv_mod_is, random_scalar, random_scalar_avoiding, scalar_add,
    scalar_invert, scalar_mul, scalar_sub, Scalar,
};
use crate::ristretto::{point_add, point_mul, point_sub, Point};
use crate::util_dalek::{
    commit, dleq_accepts, dleq_verify, lemma_point_encodes, redemption_commitment, rep3_proof_is,
    rep3_prove, ParamLogs, PublicParams, Query, RedemptionProof1, RedemptionProof2, Response,
    Token,
};

verus! {

/// The logarithm of the blinded point `T = λ·(g1·sk_c + g3·r + g4)`, unreduced.
pub open spec fn blinded_point(p: ParamLogs, sk_c: int, r: int, lambda: int) -> int {
    (p.g1 * sk_c + p.g3 * r + p.g4) * lambda
}

/// The logarithm of `g1·sk_c + g3·r + g4 − σ·s`, unreduced: for an honest token
/// this is `σ·sk_s`.
pub open spec fn token_image(p: ParamLogs, sk_c: int, r: int, sigma: int, s: int) -> int {
    p.g1 * sk_c + p.g3 * r + p.g4 - sigma * s
}

/// The logarithm of the redemption nonce point `Q = g1·α + g3·β + σ·γ`,
/// unreduced.
pub open spec fn nonce_point(p: ParamLogs, sigma: int, alpha: int, beta: int, gamma: int) -> int {
    p.g1 * alpha + p.g3 * beta + sigma * gamma
}

/// The client's side of one session: the blinding of its query, then the
/// nonces of its redemption proof.
pub struct Client {
    pub pp: PublicParams,
    pub pk_s: Point,
    pub r: Scalar,
    pub lambda: Scalar,
    pub T: Point,
    pub alpha: Scalar,
    pub beta: Scalar,
    pub gamma: Scalar,
    pub rho: Scalar,
}

impl Client {
    pub open spec fn wf(&self) -> bool {
        &&& self.pp.wf()
        &&& self.pk_s.wf()
        &&& self.r.wf()
        &&& self.lambda.wf()
        &&& self.T.wf()
        &&& self.alpha.wf()
        &&& self.beta.wf()
        &&& self.gamma.wf()
        &&& self.rho.wf()
    }

    /// A session for the parameters `pp` and the server key `pk_s`; `st`
    /// fills the scalars and `g1` the point until the query sets them.
    pub fn new(pp: &PublicParams, pk_s: Point, st: Scalar) -> (c: Self)
        requires
            pp.wf(),
            pk_s.wf(),
            st.wf(),
        ensures
            c.wf(),
            c.pp == *pp,
            c.pk_s == pk_s,
            c.T == pp.g1,
            c.r == st && c.lambda == st,
            c.alpha == st && c.beta == st && c.gamma == st && c.rho == st,
    {
        let client_pp = PublicParams { g1: pp.g1, g2: pp.g2, g3: pp.g3, g4: pp.g4 };
        Client {
            pp: client_pp,
            pk_s,
            r: st,
            lambda: st,
            T: pp.g1,
            alpha: st,
            beta: st,
            gamma: st,
            rho: st,
        }
    }

    /// Blinds `g1·sk_c + g3·r + g4` with fresh nonzero `r` and `λ`, proves the
    /// form of the blinded point, and keeps `(r, λ, T)` for the last step of
    /// issuance.
    pub fn client_query(&mut self, rng: &mut StdRng, pp: &PublicParams, sk_c: Scalar, pk_s: Point) -> (q: Query)
        requires
            old(self).wf(),
            pp.wf(),
            sk_c.wf(),
        ensures
            final(self).wf(),
            q.wf(),
            final(self).pp == old(self).pp,
            final(self).pk_s == old(self).pk_s,
            final(self).alpha == old(self).alpha && final(self).beta == old(self).beta,
            final(self).gamma == old(self).gamma && final(self).rho == old(self).rho,
            final(self).T == q.T,
            final(self).r.val() != 0,
            final(self).lambda.val() != 0,
            is_inverse(final(self).lambda.val(), inv_mod(final(self).lambda.val())),
            q.T.log() == blinded_point(
                pp.logs(),
                sk_c.val(),
                final(self).r.val(),
                final(self).lambda.val(),
            ) % group_order(),
            exists|a: int, b: int, c: int|
                0 <= a < group_order() && 0 <= b < group_order() && 0 <= c < group_order()
                    && #[trigger] rep3_proof_is(
                    q.pi_c,
                    pp.logs(),
                    (pp.g1.log() * sk_c.val()) % group_order(),
                    q.T.log(),
                    sk_c.val(),
                    final(self).lambda.val(),
                    final(self).r.val(),
                    a,
                    b,
                    c,
                ),
    {
        let ghost p = pp.logs();
        let ghost l = group_order();
        let X = point_mul(&pp.g1, &sk_c);
        let r = random_scalar_avoiding(rng, &Scalar::zero());
        let lambda = random_scalar_avoiding(rng, &Scalar::zero());
        let base = point_add(&point_add(&X, &point_mul(&pp.g3, &r)), &pp.g4);
        let T = point_mul(&base, &lambda);
        proof {
            lemma_add_mod_noop(p.g1 * sk_c.val(), p.g3 * r.val(), l);
            lemma_add_mod_noop(p.g1 * sk_c.val() + p.g3 * r.val(), p.g4, l);
            assert(p.g4 % l == p.g4) by (nonlinear_arith)
                requires 0 <= p.g4 < l;
            lemma_mul_mod_noop_left(p.g1 * sk_c.val() + p.g3 * r.val() + p.g4, lambda.val(), l);
            assert(lambda.val() % l == lambda.val()) by (nonlinear_arith)
                requires 0 <= lambda.val() < l;
        }
        let pi_c = rep3_prove(rng, pp, X, T, sk_c, lambda, r);
        self.update_state(r, lambda, T);
        Query { T, pi_c }
    }

    /// Keeps the randomness and the blinded point of the query.
    pub fn update_state(&mut self, r: Scalar, lambda: Scalar, T: Point)
        ensures
            final(self).r == r,
            final(self).lambda == lambda,
            final(self).T == T,
            final(self).pp == old(self).pp,
            final(self).pk_s == old(self).pk_s,
            final(self).alpha == old(self).alpha && final(self).beta == old(self).beta,
            final(self).gamma == old(self).gamma && final(self).rho == old(self).rho,
    {
        self.r = r;
        self.lambda = lambda;
        self.T = T;
    }

    /// Checks the server's proof and unblinds `S` into the token
    /// `σ = (1/λ)·S`; `None` when the proof fails (or no query was made,
    /// `λ = 0`).
    pub fn client_final(&self, resp: &Response) -> (tok: Option<Token>)
        requires
            self.wf(),
            resp.wf(),
        ensures
            tok.is_some() == (self.lambda.val() != 0 && dleq_accepts(
                self.pp.logs(),
                self.pk_s.log(),
                resp.S.log(),
                self.T.log(),
                resp.s.val(),
                resp.pi_s.ch.val(),
                resp.pi_s.resp.val(),
            )),
            tok matches Some(t) ==> {
                &&& t.wf()
                &&& t.sigma.log() == (resp.S.log() * inv_mod(self.lambda.val())) % group_order()
                &&& t.r == self.r
                &&& t.s == resp.s
            },
    {
        if self.lambda.is_zero() {
            return None;
        }
        let verified = dleq_verify(&self.pp, self.pk_s, resp.S, self.T, resp.s, &resp.pi_s);
        if !verified {
            return None;
        }
        let lambda_inv = scalar_invert(&self.lambda);
        proof {
            lemma_inv_mod_is(self.lambda.val(), lambda_inv.val());
        }
        let sigma = point_mul(&resp.S, &lambda_inv);
        Some(Token { sigma, r: self.r, s: resp.s })
    }

    /// First redemption round: sends `σ' = g1·sk_c + g3·r + g4 − σ·s` and a
    /// commitment to `Q = g1·α + g3·β + σ·γ` under a fresh opening `ρ`, and
    /// keeps `(α, β, γ, ρ)` for the second round.
    #[verifier::rlimit(40)]
    pub fn client_prove_redemption1(
        &mut self,
        rng: &mut StdRng,
        token: &Token,
        sk_c: Scalar,
        pk_s: Point,
    ) -> (pr: RedemptionProof1)
        requires
            old(self).wf(),
            token.wf(),
            sk_c.wf(),
        ensures
            final(self).wf(),
            pr.wf(),
            final(self).pp == old(self).pp,
            final(self).pk_s == old(self).pk_s,
            final(self).r == old(self).r && final(self).lambda == old(self).lambda,
            final(self).T == old(self).T,
            pr.sigma_.log() == token_image(
                old(self).pp.logs(),
                sk_c.val(),
                token.r.val(),
                token.sigma.log(),
                token.s.val(),
            ) % group_order(),
            pr.comm.val() == redemption_commitment(
                final(self).rho.bytes@,
                nonce_point(
                    old(self).pp.logs(),
                    token.sigma.log(),
                    final(self).alpha.val(),
                    final(self).beta.val(),
                    final(self).gamma.val(),
                ),
            ),
    {
        let ghost p = self.pp.logs();
        let ghost l = group_order();
        let ghost sg = token.sigma.log();
        let u = point_add(&point_mul(&self.pp.g1, &sk_c), &point_mul(&self.pp.g3, &token.r));
        let w = point_add(&u, &self.pp.g4);
        let sigma_ = point_sub(&w, &point_mul(&token.sigma, &token.s));
        proof {
            lemma_add_mod_noop(p.g1 * sk_c.val(), p.g3 * token.r.val(), l);
            lemma_add_mod_noop(p.g1 * sk_c.val() + p.g3 * token.r.val(), p.g4, l);
            assert(p.g4 % l == p.g4) by (nonlinear_arith)
                requires 0 <= p.g4 < l;
            lemma_sub_mod_noop(p.g1 * sk_c.val() + p.g3 * token.r.val() + p.g4, sg * token.s.val(), l);
        }

        let alpha = random_scalar(rng);
        let beta = random_scalar(rng);
        let gamma = random_scalar(rng);
        let q1 = point_add(&point_mul(&self.pp.g1, &alpha), &point_mul(&self.pp.g3, &beta));
        let Q = point_add(&q1, &point_mul(&token.sigma, &gamma));
        let rho = random_scalar(rng);
        proof {
            lemma_add_mod_noop(p.g1 * alpha.val(), p.g3 * beta.val(), l);
            lemma_add_mod_noop(p.g1 * alpha.val() + p.g3 * beta.val(), sg * gamma.val(), l);
            lemma_point_encodes(Q, nonce_point(p, sg, alpha.val(), beta.val(), gamma.val()));
        }
        let comm = commit(&rho, &Q);
        proof {
            crate::ristretto::lemma_point_log(Q);
        }

        self.alpha = alpha;
        self.beta = beta;
        self.gamma = gamma;
        self.rho = rho;
        RedemptionProof1 { sigma_, comm }
    }

    /// Second redemption round: the responses `v0 = α + c·sk_c`,
    /// `v1 = β + c·r`, `v2 = γ − c·s` to the server's challenge `c`, with the
    /// opening `ρ`.
    pub fn client_prove_redemption2(
        &self,
        rng: &mut StdRng,
        token: &Token,
        sk_c: Scalar,
        c: Scalar,
    ) -> (pr: RedemptionProof2)
        requires
            self.wf(),
            token.wf(),
            sk_c.wf(),
            c.wf(),
        ensures
            *final(rng) == *old(rng),
            pr.wf(),
            pr.v0.val() == (self.alpha.val() + c.val() * sk_c.val()) % group_order(),
            pr.v1.val() == (self.beta.val() + c.val() * token.r.val()) % group_order(),
            pr.v2.val() == (self.gamma.val() - c.val() * token.s.val()) % group_order(),
            pr.rho == self.rho,
    {
        let ghost l = group_order();
        let v0 = scalar_add(&self.alpha, &scalar_mul(&c, &sk_c));
        let v1 = scalar_add(&self.beta, &scalar_mul(&c, &token.r));
        let v2 = scalar_sub(&self.gamma, &scalar_mul(&c, &token.s));
        proof {
            vstd::arithmetic::div_mod::lemma_add_mod_noop_right(self.alpha.val(), c.val() * sk_c.val(), l);
            vstd::arithmetic::div_mod::lemma_add_mod_noop_right(self.beta.val(), c.val() * token.r.val(), l);
            lemma_sub_mod_noop_right(self.gamma.val(), c.val() * token.s.val(), l);
        }
        RedemptionProof2 { v0, v1, v2, rho: self.rho }
    }
}

} // verus!
