use vstd::prelude::*;
use rand::rngs::StdRng;
use crate::scalar::{group_order, inv_mod, Scalar};
use crate::ristretto::point_mul;
use crate::util_dalek::PublicParams;
use crate::client_dalek::Client;
use crate::server_dalek::Server;
use crate::correctness::{
    lemma_dleq_complete, lemma_redemption_complete, lemma_rep3_complete, lemma_token_relation,
};

verus! {

/// Runs one whole session between an honest client with key `sk_c` and an
/// honest server with key `sk_s`: issuance of a token, then its two-round
/// redemption. Every check along the way passes, so the session ends with the
/// token accepted.
pub fn issue_and_redeem(
    rng: &mut StdRng,
    pp: &PublicParams,
    sk_c: Scalar,
    sk_s: Scalar,
) -> (verified: bool)
    requires
        pp.wf(),
        sk_c.wf(),
        sk_s.wf(),
    ensures
        verified,
{
    let ghost p = pp.logs();
    let ghost l = group_order();
    let pk_c = point_mul(&pp.g1, &sk_c);
    let pk_s = point_mul(&pp.g2, &sk_s);
    let st = Scalar::zero();
    let mut client = Client::new(pp, pk_s, st);
    let mut server = Server::new(pp, pk_c, st);

    // Issuance.
    let query = client.client_query(rng, pp, sk_c, pk_s);
    proof {
        let (a, b, c) = choose|a: int, b: int, c: int|
            0 <= a < l && 0 <= b < l && 0 <= c < l && #[trigger] crate::util_dalek::rep3_proof_is(
                query.pi_c,
                p,
                (p.g1 * sk_c.val()) % l,
                query.T.log(),
                sk_c.val(),
                client.lambda.val(),
                client.r.val(),
                a,
                b,
                c,
            );
        let lambda = client.lambda.val();
        lemma_rep3_complete(query.pi_c, p, sk_c.val(), lambda, inv_mod(lambda), client.r.val(), a, b, c);
    }
    let response = server.server_issue(rng, pp, sk_s, pk_c, &query);
    let response = response.unwrap();
    proof {
        let e = (sk_s.val() + response.s.val()) % l;
        let a = choose|a: int|
            0 <= a < l && #[trigger] crate::util_dalek::dleq_proof_is(
                response.pi_s,
                p,
                (p.g2 * sk_s.val()) % l,
                response.S.log(),
                query.T.log(),
                response.s.val(),
                sk_s.val(),
                a,
            );
        lemma_dleq_complete(response.pi_s, p, sk_s.val(), query.T.log(), response.s.val(), inv_mod(e), a);
    }
    let token = client.client_final(&response);
    let token = token.unwrap();
    proof {
        let lambda = client.lambda.val();
        let e = (sk_s.val() + response.s.val()) % l;
        lemma_token_relation(
            p,
            sk_c.val(),
            client.r.val(),
            lambda,
            inv_mod(lambda),
            sk_s.val(),
            response.s.val(),
            inv_mod(e),
        );
    }

    // Redemption.
    let proof1 = client.client_prove_redemption1(rng, &token, sk_c, pk_s);
    proof {
        lemma_redemption_complete(
            p,
            sk_c.val(),
            token.r.val(),
            token.s.val(),
            sk_s.val(),
            token.sigma.log(),
            client.alpha.val(),
            client.beta.val(),
            client.gamma.val(),
            0,
            client.rho.bytes@,
        );
    }
    let c = server.server_verify_redemption1(rng, &token, sk_s, &proof1);
    let c = c.unwrap();
    let proof2 = client.client_prove_redemption2(rng, &token, sk_c, c);
    proof {
        lemma_redemption_complete(
            p,
            sk_c.val(),
            token.r.val(),
            token.s.val(),
            sk_s.val(),
            token.sigma.log(),
            client.alpha.val(),
            client.beta.val(),
            client.gamma.val(),
            c.val(),
            client.rho.bytes@,
        );
    }
    server.server_verify_redemption2(&token, &proof2)
}

/// Runs one whole secp256k1 session between an honest client with key `sk_c` and an
/// honest server with key `sk_s`: issuance of a token, then its two-round
/// redemption. Every check along the way passes, so the session ends with the
/// token accepted.
pub fn issue_and_redeem_secp256k1(
    rng: &mut StdRng,
    pp: &crate::util::PublicParams,
    sk_c: crate::secp::Scalar,
    sk_s: crate::secp::Scalar,
) -> (verified: bool)
    requires
        pp.wf(),
        sk_c.wf(),
        sk_s.wf(),
    ensures
        verified,
{
    let ghost p = pp.logs();
    let ghost l = crate::secp::group_order();
    let pk_c = crate::secp::point_mul(&pp.g1, &sk_c);
    let pk_s = crate::secp::point_mul(&pp.g2, &sk_s);
    let st = crate::secp::Scalar::zero();
    let mut client = crate::client::Client::new(pp, pk_s, st);
    let mut server = crate::server::Server::new(pp, pk_c, st);

    // Issuance.
    let query = client.client_query(rng, pp, sk_c, pk_s);
    proof {
        let (a, b, c) = choose|a: int, b: int, c: int|
            0 <= a < l && 0 <= b < l && 0 <= c < l && #[trigger] crate::util::rep3_proof_is(
                query.pi_c,
                p,
                (p.g1 * sk_c.val()) % l,
                query.T.log(),
                sk_c.val(),
                client.lambda.val(),
                client.r.val(),
                a,
                b,
                c,
            );
        let lambda = client.lambda.val();
        crate::correctness_secp::lemma_rep3_complete(query.pi_c, p, sk_c.val(), lambda, crate::secp::inv_mod(lambda), client.r.val(), a, b, c);
    }
    let response = server.server_issue(rng, pp, sk_s, pk_c, &query);
    let response = response.unwrap();
    proof {
        let e = (sk_s.val() + response.s.val()) % l;
        let a = choose|a: int|
            0 <= a < l && #[trigger] crate::util::dleq_proof_is(
                response.pi_s,
                p,
                (p.g2 * sk_s.val()) % l,
                response.S.log(),
                query.T.log(),
                response.s.val(),
                sk_s.val(),
                a,
            );
        crate::correctness_secp::lemma_dleq_complete(response.pi_s, p, sk_s.val(), query.T.log(), response.s.val(), crate::secp::inv_mod(e), a);
    }
    let token = client.client_final(&response);
    let token = token.unwrap();
    proof {
        let lambda = client.lambda.val();
        let e = (sk_s.val() + response.s.val()) % l;
        crate::correctness_secp::lemma_token_relation(
            p,
            sk_c.val(),
            client.r.val(),
            lambda,
            crate::secp::inv_mod(lambda),
            sk_s.val(),
            response.s.val(),
            crate::secp::inv_mod(e),
        );
    }

    // Redemption.
    let proof1 = client.client_prove_redemption1(rng, &token, sk_c, pk_s);
    proof {
        crate::correctness_secp::lemma_redemption_complete(
            p,
            sk_c.val(),
            token.r.val(),
            token.s.val(),
            sk_s.val(),
            token.sigma.log(),
            client.alpha.val(),
            client.beta.val(),
            client.gamma.val(),
            0,
            client.rho.bytes@,
        );
    }
    let c = server.server_verify_redemption1(rng, &token, sk_s, &proof1);
    let c = c.unwrap();
    let proof2 = client.client_prove_redemption2(rng, &token, sk_c, c);
    proof {
        crate::correctness_secp::lemma_redemption_complete(
            p,
            sk_c.val(),
            token.r.val(),
            token.s.val(),
            sk_s.val(),
            token.sigma.log(),
            client.alpha.val(),
            client.beta.val(),
            client.gamma.val(),
            c.val(),
            client.rho.bytes@,
        );
    }
    server.server_verify_redemption2(&token, &proof2)
}

/// Runs one whole BLS12-381 pairing session between an honest client with key `sk_c` and an
/// honest server with key `sk_s`: issuance of a token, then its two-round
/// redemption. Every check along the way passes, so the session ends with the
/// token accepted.
pub fn issue_and_redeem_pairing(
    rng: &mut StdRng,
    pp: &crate::util_pairing::PublicParams,
    sk_c: crate::bls::BlsScalar,
    sk_s: crate::bls::BlsScalar,
) -> (verified: bool)
    requires
        pp.wf(),
        sk_c.wf(),
        sk_s.wf(),
    ensures
        verified,
{
    let ghost p = pp.logs();
    let ghost l = crate::bls::bls_order();
    let pk_c = crate::bls::g1_mul(&pp.g1, &sk_c);
    let pk_s = crate::bls::g2_mul(&pp.g2, &sk_s);
    let st = crate::bls::BlsScalar::one();
    let mut client = crate::client_pairing::Client::new(pp, pk_s, st);
    let mut server = crate::server_pairing::Server::new(pp, pk_c, st);

    // Issuance.
    let query = client.client_query(rng, pp, sk_c, pk_s);
    proof {
        let (a, b, c) = choose|a: int, b: int, c: int|
            0 <= a < l && 0 <= b < l && 0 <= c < l && #[trigger] crate::util_pairing::rep3_proof_is(
                query.pi_c,
                p,
                (p.g1 * sk_c.val()) % l,
                query.T.log(),
                sk_c.val(),
                client.lambda.val(),
                client.r.val(),
                a,
                b,
                c,
            );
        let lambda = client.lambda.val();
        crate::correctness_pairing::lemma_rep3_complete(query.pi_c, p, sk_c.val(), lambda, crate::bls::inv_r(lambda), client.r.val(), a, b, c);
    }
    let response = server.server_issue(rng, pp, sk_s, pk_c, &query);
    let response = response.unwrap();
    proof {
        let e = (sk_s.val() + response.s.val()) % l;
        crate::correctness_pairing::lemma_final_check_complete(
            p,
            sk_s.val(),
            query.T.log(),
            response.s.val(),
            crate::bls::inv_r(e),
        );
    }
    let token = client.client_final(&response);
    let token = token.unwrap();
    proof {
        let lambda = client.lambda.val();
        let e = (sk_s.val() + response.s.val()) % l;
        crate::correctness_pairing::lemma_token_relation(
            p,
            sk_c.val(),
            client.r.val(),
            lambda,
            crate::bls::inv_r(lambda),
            sk_s.val(),
            response.s.val(),
            crate::bls::inv_r(e),
        );
    }

    // Redemption.
    let proof1 = client.client_prove_redemption1(rng, &token, sk_c, pk_s);
    proof {
        crate::correctness_pairing::lemma_redemption_complete(
            p,
            sk_c.val(),
            token.r.val(),
            token.s.val(),
            sk_s.val(),
            token.sigma.log(),
            client.alpha.val(),
            client.beta.val(),
            client.gamma.val(),
            0,
            client.rho.bytes@,
        );
    }
    let c = server.server_verify_redemption1(rng, &token, pk_s, &proof1);
    let c = c.unwrap();
    let proof2 = client.client_prove_redemption2(rng, &token, sk_c, c);
    proof {
        crate::correctness_pairing::lemma_redemption_complete(
            p,
            sk_c.val(),
            token.r.val(),
            token.s.val(),
            sk_s.val(),
            token.sigma.log(),
            client.alpha.val(),
            client.beta.val(),
            client.gamma.val(),
            c.val(),
            client.rho.bytes@,
        );
    }
    server.server_verify_redemption2(&token, &proof2)
}

/// Runs one whole credential session on the parameters that `setup` made:
/// the query, its issuance, and one redemption. Every pairing equation holds,
/// so the session ends with the credential accepted.
pub fn issue_and_redeem_chac(
    rng: &mut StdRng,
    pp: &crate::util_chac::PublicParams,
    nonce: crate::bls::BlsScalar,
) -> (verified: bool)
    requires
        pp.wf(),
        exists|delta: int, alpha: int| #[trigger] pp.made_with(delta, alpha),
    ensures
        verified,
{
    let ghost (delta, alpha) = choose|delta: int, alpha: int|
        #[trigger] pp.made_with(delta, alpha);
    let mut client = crate::client_chac::Client::new();
    let server = crate::server_chac::Server::new();
    let query = client.client_query(rng, pp, nonce);
    proof {
        let r = choose|r: int|
            0 <= r < crate::bls::bls_order() && #[trigger] crate::client_chac::query_is(
                query,
                *pp,
                nonce,
                r,
            );
        crate::correctness_chac::lemma_chac_query_accepted(*pp, nonce, query, r, delta, alpha);
    }
    let resp = server.server_issue(rng, pp, nonce, &query);
    let resp = resp.unwrap();
    let msg = client.client_redeem(rng, pp, nonce, &resp);
    proof {
        let y = choose|y: int|
            0 < y < crate::bls::bls_order() && #[trigger] crate::server_chac::response_is(
                resp,
                *pp,
                y,
            );
        let (rp, kdp, psi) = choose|rp: int, kdp: int, psi: int|
            #[trigger] crate::client_chac::msg_is(msg, *pp, nonce, resp, rp, kdp, psi);
        crate::correctness_chac::lemma_chac_redemption_accepted(
            *pp,
            nonce,
            resp,
            msg,
            y,
            rp,
            kdp,
            psi,
            delta,
            alpha,
        );
    }
    server.server_redeem(rng, pp, nonce, &msg)
}

} // verus!
