use curve25519_dalek_ng::ristretto::CompressedRistretto;
use ntat::client_dalek::Client;
use ntat::ristretto::Point;
use ntat::scalar::Scalar;
use ntat::server_dalek::Server;
use ntat::session::issue_and_redeem;
use ntat::util_dalek::{
    client_keygen, rep3_prove, rep3_verify, server_keygen, setup, PublicParams, Token,
};
use rand::rngs::StdRng;
use rand::SeedableRng;

struct Parties {
    pp: PublicParams,
    sk_c: Scalar,
    pk_c: Point,
    sk_s: Scalar,
    pk_s: Point,
    client: Client,
    server: Server,
}

fn parties(rng: &mut StdRng) -> Parties {
    let pp = setup(rng);
    let (sk_c, pk_c) = client_keygen(rng, &pp);
    let (sk_s, pk_s) = server_keygen(rng, &pp);
    let client = Client::new(&pp, pk_s, Scalar::random(rng));
    let server = Server::new(&pp, pk_c, Scalar::random(rng));
    Parties { pp, sk_c, pk_c, sk_s, pk_s, client, server }
}

fn issue(rng: &mut StdRng, p: &mut Parties) -> Token {
    let query = p.client.client_query(rng, &p.pp, p.sk_c, p.pk_s);
    let resp = p.server.server_issue(rng, &p.pp, p.sk_s, p.pk_c, &query).expect("issue");
    p.client.client_final(&resp).expect("final")
}

fn redeem(rng: &mut StdRng, p: &mut Parties, token: &Token) -> bool {
    let proof1 = p.client.client_prove_redemption1(rng, token, p.sk_c, p.pk_s);
    let c = match p.server.server_verify_redemption1(rng, token, p.sk_s, &proof1) {
        Some(c) => c,
        None => return false,
    };
    let proof2 = p.client.client_prove_redemption2(rng, token, p.sk_c, c);
    p.server.server_verify_redemption2(token, &proof2)
}

fn add_points(a: &Point, b: &Point) -> Point {
    let x = CompressedRistretto(a.bytes).decompress().unwrap();
    let y = CompressedRistretto(b.bytes).decompress().unwrap();
    Point { bytes: (x + y).compress().to_bytes() }
}

fn flip_low_bit(s: &Scalar) -> Scalar {
    let mut bytes = s.bytes;
    bytes[0] ^= 1;
    Scalar { bytes }
}

#[test]
fn ristretto_full_session_seed_2() {
    let mut rng = StdRng::seed_from_u64(2);
    let mut p = parties(&mut rng);
    let token = issue(&mut rng, &mut p);
    let verified = redeem(&mut rng, &mut p, &token);
    assert!(verified);
}

#[test]
fn ristretto_verified_driver_accepts() {
    let mut rng = StdRng::seed_from_u64(2);
    let pp = setup(&mut rng);
    let sk_c = Scalar::random(&mut rng);
    let sk_s = Scalar::random(&mut rng);
    assert!(issue_and_redeem(&mut rng, &pp, sk_c, sk_s));
}

#[test]
fn ristretto_token_relation_holds() {
    // sigma * (sk_s + s) == g1*sk_c + g3*r + g4, checked with the group library.
    let mut rng = StdRng::seed_from_u64(11);
    let mut p = parties(&mut rng);
    let token = issue(&mut rng, &mut p);
    let d = |b: [u8; 32]| CompressedRistretto(b).decompress().unwrap();
    let sc = |s: &Scalar| curve25519_dalek_ng::scalar::Scalar::from_bytes_mod_order(s.bytes);
    let lhs = d(token.sigma.bytes) * (sc(&p.sk_s) + sc(&token.s));
    let rhs = d(p.pp.g1.bytes) * sc(&p.sk_c) + d(p.pp.g3.bytes) * sc(&token.r) + d(p.pp.g4.bytes);
    assert_eq!(lhs.compress().to_bytes(), rhs.compress().to_bytes());
}

#[test]
fn ristretto_two_sessions_give_unlinked_tokens() {
    let mut rng = StdRng::seed_from_u64(12);
    let mut p = parties(&mut rng);
    let t1 = issue(&mut rng, &mut p);
    let t2 = issue(&mut rng, &mut p);
    assert_ne!(t1.sigma.bytes, t2.sigma.bytes);
    assert_ne!(t1.r.bytes, t2.r.bytes);
    assert_ne!(t1.s.bytes, t2.s.bytes);
}

#[test]
fn ristretto_tampered_challenge_rejects_query() {
    let mut rng = StdRng::seed_from_u64(13);
    let mut p = parties(&mut rng);
    let mut query = p.client.client_query(&mut rng, &p.pp, p.sk_c, p.pk_s);
    assert!(rep3_verify(&p.pp, p.pk_c, query.T, &query.pi_c));
    query.pi_c.ch = flip_low_bit(&query.pi_c.ch);
    assert!(p.server.server_issue(&mut rng, &p.pp, p.sk_s, p.pk_c, &query).is_none());
}

#[test]
fn ristretto_substituted_point_rejects_query() {
    let mut rng = StdRng::seed_from_u64(14);
    let mut p = parties(&mut rng);
    let mut query = p.client.client_query(&mut rng, &p.pp, p.sk_c, p.pk_s);
    query.T = add_points(&query.T, &p.pp.g1);
    assert!(p.server.server_issue(&mut rng, &p.pp, p.sk_s, p.pk_c, &query).is_none());
}

#[test]
fn ristretto_altered_rep3_responses_fail() {
    let mut rng = StdRng::seed_from_u64(15);
    let p = parties(&mut rng);
    let r = Scalar::random(&mut rng);
    let lambda = Scalar::random(&mut rng);
    let query_t = {
        let d = |b: [u8; 32]| CompressedRistretto(b).decompress().unwrap();
        let sc = |s: &Scalar| curve25519_dalek_ng::scalar::Scalar::from_bytes_mod_order(s.bytes);
        let t = (d(p.pp.g1.bytes) * sc(&p.sk_c) + d(p.pp.g3.bytes) * sc(&r) + d(p.pp.g4.bytes))
            * sc(&lambda);
        Point { bytes: t.compress().to_bytes() }
    };
    let pi = rep3_prove(&mut rng, &p.pp, p.pk_c, query_t, p.sk_c, lambda, r);
    assert!(rep3_verify(&p.pp, p.pk_c, query_t, &pi));
    let mut bad = pi;
    bad.resp1 = flip_low_bit(&pi.resp1);
    assert!(!rep3_verify(&p.pp, p.pk_c, query_t, &bad));
    let mut bad = pi;
    bad.resp2 = flip_low_bit(&pi.resp2);
    assert!(!rep3_verify(&p.pp, p.pk_c, query_t, &bad));
    let mut bad = pi;
    bad.resp3 = flip_low_bit(&pi.resp3);
    assert!(!rep3_verify(&p.pp, p.pk_c, query_t, &bad));
}

#[test]
fn ristretto_altered_redemption_responses_fail() {
    let mut rng = StdRng::seed_from_u64(16);
    let mut p = parties(&mut rng);
    let token = issue(&mut rng, &mut p);
    let proof1 = p.client.client_prove_redemption1(&mut rng, &token, p.sk_c, p.pk_s);
    let c = p.server.server_verify_redemption1(&mut rng, &token, p.sk_s, &proof1).unwrap();
    let proof2 = p.client.client_prove_redemption2(&mut rng, &token, p.sk_c, c);
    assert!(p.server.server_verify_redemption2(&token, &proof2));
    let mut bad = proof2;
    bad.v0 = flip_low_bit(&proof2.v0);
    assert!(!p.server.server_verify_redemption2(&token, &bad));
    let mut bad = proof2;
    bad.v1 = flip_low_bit(&proof2.v1);
    assert!(!p.server.server_verify_redemption2(&token, &bad));
    let mut bad = proof2;
    bad.v2 = flip_low_bit(&proof2.v2);
    assert!(!p.server.server_verify_redemption2(&token, &bad));
}

#[test]
fn ristretto_replayed_challenge_fails() {
    let mut rng = StdRng::seed_from_u64(17);
    let mut p = parties(&mut rng);
    let token = issue(&mut rng, &mut p);
    // Session A: the server hands out challenge c_a.
    let proof1_a = p.client.client_prove_redemption1(&mut rng, &token, p.sk_c, p.pk_s);
    let c_a = p.server.server_verify_redemption1(&mut rng, &token, p.sk_s, &proof1_a).unwrap();
    // Session B: a fresh first round, answered with session A's challenge.
    let proof1_b = p.client.client_prove_redemption1(&mut rng, &token, p.sk_c, p.pk_s);
    let c_b = p.server.server_verify_redemption1(&mut rng, &token, p.sk_s, &proof1_b).unwrap();
    assert_ne!(c_a.bytes, c_b.bytes);
    let replayed = p.client.client_prove_redemption2(&mut rng, &token, p.sk_c, c_a);
    assert!(!p.server.server_verify_redemption2(&token, &replayed));
}

#[test]
fn ristretto_tampered_token_rejected_in_first_round() {
    let mut rng = StdRng::seed_from_u64(18);
    let mut p = parties(&mut rng);
    let token = issue(&mut rng, &mut p);
    let proof1 = p.client.client_prove_redemption1(&mut rng, &token, p.sk_c, p.pk_s);
    let mut bad = token;
    bad.sigma = add_points(&token.sigma, &p.pp.g1);
    assert!(p.server.server_verify_redemption1(&mut rng, &bad, p.sk_s, &proof1).is_none());
}

#[test]
fn ristretto_corrupted_tag_rejected_by_client() {
    let mut rng = StdRng::seed_from_u64(19);
    let mut p = parties(&mut rng);
    let query = p.client.client_query(&mut rng, &p.pp, p.sk_c, p.pk_s);
    let mut resp = p.server.server_issue(&mut rng, &p.pp, p.sk_s, p.pk_c, &query).unwrap();
    resp.s = flip_low_bit(&resp.s);
    assert!(p.client.client_final(&resp).is_none());
}

#[test]
fn ristretto_final_before_query_gives_none() {
    let mut rng = StdRng::seed_from_u64(20);
    let mut p = parties(&mut rng);
    let query = p.client.client_query(&mut rng, &p.pp, p.sk_c, p.pk_s);
    let resp = p.server.server_issue(&mut rng, &p.pp, p.sk_s, p.pk_c, &query).unwrap();
    let fresh = Client::new(&p.pp, p.pk_s, Scalar::zero());
    assert!(fresh.client_final(&resp).is_none());
}

#[test]
fn ristretto_rejected_first_round_leaves_session_unchanged() {
    let mut rng = StdRng::seed_from_u64(25);
    let mut p = parties(&mut rng);
    let token = issue(&mut rng, &mut p);
    let proof1 = p.client.client_prove_redemption1(&mut rng, &token, p.sk_c, p.pk_s);
    let (sigma_, comm, c) = (p.server.sigma_.bytes, p.server.comm.bytes, p.server.c.bytes);
    let mut bad = token;
    bad.sigma = add_points(&token.sigma, &p.pp.g1);
    assert!(p.server.server_verify_redemption1(&mut rng, &bad, p.sk_s, &proof1).is_none());
    assert_eq!(p.server.sigma_.bytes, sigma_);
    assert_eq!(p.server.comm.bytes, comm);
    assert_eq!(p.server.c.bytes, c);
    let c = p.server.server_verify_redemption1(&mut rng, &token, p.sk_s, &proof1).unwrap();
    assert_eq!(p.server.sigma_.bytes, proof1.sigma_.bytes);
    assert_eq!(p.server.comm.bytes, proof1.comm.bytes);
    let proof2 = p.client.client_prove_redemption2(&mut rng, &token, p.sk_c, c);
    assert!(p.server.server_verify_redemption2(&token, &proof2));
}
