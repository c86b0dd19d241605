use ntat::bls::{BlsScalar, G1Point, G2Point};
use ntat::client_pairing::Client;
use ntat::server_pairing::Server;
use ntat::session::issue_and_redeem_pairing;
use ntat::util_pairing::{client_keygen, server_keygen, setup, PublicParams, Token};
use rand::rngs::StdRng;
use rand::SeedableRng;

struct Parties {
    pp: PublicParams,
    sk_c: BlsScalar,
    pk_c: G1Point,
    sk_s: BlsScalar,
    pk_s: G2Point,
    client: Client,
    server: Server,
}

fn parties(rng: &mut StdRng) -> Parties {
    let pp = setup(rng);
    let (sk_c, pk_c) = client_keygen(rng, &pp);
    let (sk_s, pk_s) = server_keygen(rng, &pp);
    let client = Client::new(&pp, pk_s, BlsScalar::random(rng));
    let server = Server::new(&pp, pk_c, BlsScalar::random(rng));
    Parties { pp, sk_c, pk_c, sk_s, pk_s, client, server }
}

fn issue(rng: &mut StdRng, p: &mut Parties) -> Token {
    let query = p.client.client_query(rng, &p.pp, p.sk_c, p.pk_s);
    let resp = p.server.server_issue(rng, &p.pp, p.sk_s, p.pk_c, &query).expect("issue");
    p.client.client_final(&resp).expect("final")
}

#[test]
fn pairing_full_session_seed_3() {
    let mut rng = StdRng::seed_from_u64(3);
    let mut p = parties(&mut rng);
    let token = issue(&mut rng, &mut p);
    let proof1 = p.client.client_prove_redemption1(&mut rng, &token, p.sk_c, p.pk_s);
    let c = p.server.server_verify_redemption1(&mut rng, &token, p.pk_s, &proof1).unwrap();
    let proof2 = p.client.client_prove_redemption2(&mut rng, &token, p.sk_c, c);
    let verified = p.server.server_verify_redemption2(&token, &proof2);
    assert!(verified);
}

#[test]
fn pairing_verified_driver_accepts() {
    let mut rng = StdRng::seed_from_u64(3);
    let pp = setup(&mut rng);
    let sk_c = BlsScalar::random(&mut rng);
    let sk_s = BlsScalar::random(&mut rng);
    assert!(issue_and_redeem_pairing(&mut rng, &pp, sk_c, sk_s));
}

#[test]
fn pairing_corrupted_tag_rejected_by_client() {
    let mut rng = StdRng::seed_from_u64(31);
    let mut p = parties(&mut rng);
    let query = p.client.client_query(&mut rng, &p.pp, p.sk_c, p.pk_s);
    let mut resp = p.server.server_issue(&mut rng, &p.pp, p.sk_s, p.pk_c, &query).unwrap();
    resp.s.bytes[0] ^= 1;
    assert!(p.client.client_final(&resp).is_none());
}

#[test]
fn pairing_wrong_key_rejected_in_first_round() {
    let mut rng = StdRng::seed_from_u64(32);
    let mut p = parties(&mut rng);
    let token = issue(&mut rng, &mut p);
    let proof1 = p.client.client_prove_redemption1(&mut rng, &token, p.sk_c, p.pk_s);
    let (_, other_pk) = server_keygen(&mut rng, &p.pp);
    assert!(p.server.server_verify_redemption1(&mut rng, &token, other_pk, &proof1).is_none());
}

#[test]
fn pairing_altered_response_fails_second_round() {
    let mut rng = StdRng::seed_from_u64(33);
    let mut p = parties(&mut rng);
    let token = issue(&mut rng, &mut p);
    let proof1 = p.client.client_prove_redemption1(&mut rng, &token, p.sk_c, p.pk_s);
    let c = p.server.server_verify_redemption1(&mut rng, &token, p.pk_s, &proof1).unwrap();
    let mut proof2 = p.client.client_prove_redemption2(&mut rng, &token, p.sk_c, c);
    proof2.v2.bytes[0] ^= 1;
    assert!(!p.server.server_verify_redemption2(&token, &proof2));
}
