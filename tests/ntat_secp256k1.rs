use ntat::client::Client;
use ntat::secp::{Point, Scalar};
use ntat::server::Server;
use ntat::session::issue_and_redeem_secp256k1;
use ntat::util::{client_keygen, hash, server_issue, server_keygen, setup, PublicParams, Token};
use rand::rngs::StdRng;
use rand::SeedableRng;

struct Parties {
    pp: PublicParams,
    sk_c: Scalar,
    pk_c: Point,
    sk_s: Scalar,
    pk_s: Point,
    client: Client,
    server: Server,
}

fn parties(rng: &mut StdRng) -> Parties {
    let pp = setup(rng);
    let (sk_c, pk_c) = client_keygen(rng, &pp);
    let (sk_s, pk_s) = server_keygen(rng, &pp);
    let client = Client::new(&pp, pk_s, Scalar::random(rng));
    let server = Server::new(&pp, pk_c, Scalar::random(rng));
    Parties { pp, sk_c, pk_c, sk_s, pk_s, client, server }
}

fn redeem(rng: &mut StdRng, p: &mut Parties, token: &Token) -> bool {
    let proof1 = p.client.client_prove_redemption1(rng, token, p.sk_c, p.pk_s);
    let c = match p.server.server_verify_redemption1(rng, token, p.sk_s, &proof1) {
        Some(c) => c,
        None => return false,
    };
    let proof2 = p.client.client_prove_redemption2(rng, token, p.sk_c, c);
    p.server.server_verify_redemption2(token, &proof2)
}

#[test]
fn secp256k1_full_session_seed_1() {
    let mut rng = StdRng::seed_from_u64(1);
    let mut p = parties(&mut rng);
    let query = p.client.client_query(&mut rng, &p.pp, p.sk_c, p.pk_s);
    let resp = p.server.server_issue(&mut rng, &p.pp, p.sk_s, p.pk_c, &query).unwrap();
    let token = p.client.client_final(&resp).unwrap();
    let verified = redeem(&mut rng, &mut p, &token);
    assert!(verified);
}

#[test]
fn secp256k1_corrupted_tag_seed_1() {
    let mut rng = StdRng::seed_from_u64(1);
    let mut p = parties(&mut rng);
    let query = p.client.client_query(&mut rng, &p.pp, p.sk_c, p.pk_s);
    let mut resp = p.server.server_issue(&mut rng, &p.pp, p.sk_s, p.pk_c, &query).unwrap();
    resp.s.bytes[0] ^= 1;
    assert!(p.client.client_final(&resp).is_none());
}

#[test]
fn secp256k1_verified_driver_accepts() {
    let mut rng = StdRng::seed_from_u64(1);
    let pp = setup(&mut rng);
    let sk_c = Scalar::random(&mut rng);
    let sk_s = Scalar::random(&mut rng);
    assert!(issue_and_redeem_secp256k1(&mut rng, &pp, sk_c, sk_s));
}

#[test]
fn secp256k1_wrong_client_key_rejects_query() {
    let mut rng = StdRng::seed_from_u64(21);
    let mut p = parties(&mut rng);
    let query = p.client.client_query(&mut rng, &p.pp, p.sk_c, p.pk_s);
    let (_, other_pk) = client_keygen(&mut rng, &p.pp);
    assert!(p.server.server_issue(&mut rng, &p.pp, p.sk_s, other_pk, &query).is_none());
}

#[test]
fn secp256k1_wrong_server_key_rejects_token() {
    let mut rng = StdRng::seed_from_u64(22);
    let mut p = parties(&mut rng);
    let query = p.client.client_query(&mut rng, &p.pp, p.sk_c, p.pk_s);
    let resp = p.server.server_issue(&mut rng, &p.pp, p.sk_s, p.pk_c, &query).unwrap();
    let token = p.client.client_final(&resp).unwrap();
    let proof1 = p.client.client_prove_redemption1(&mut rng, &token, p.sk_c, p.pk_s);
    let other_sk = Scalar::random(&mut rng);
    assert!(p.server.server_verify_redemption1(&mut rng, &token, other_sk, &proof1).is_none());
}

const ABC_MOD_N: [u8; 32] = [
    173, 21, 0, 242, 97, 255, 16, 180, 156, 122, 23, 150, 163, 97, 3, 176, 35, 34, 174, 93, 222,
    64, 65, 65, 234, 207, 1, 143, 191, 22, 120, 186,
];

#[test]
fn secp256k1_hash_is_domain_separated() {
    let h = hash(&b"abc".to_vec(), &Vec::new());
    assert_eq!(h.bytes, ABC_MOD_N);
    let split = hash(&b"bc".to_vec(), &b"a".to_vec());
    assert_eq!(split.bytes, ABC_MOD_N);
    let other = hash(&b"abc".to_vec(), &b"x".to_vec());
    assert_ne!(other.bytes, ABC_MOD_N);
}

#[test]
fn secp256k1_free_issue_matches_session_issue() {
    let mut rng = StdRng::seed_from_u64(23);
    let mut p = parties(&mut rng);
    let query = p.client.client_query(&mut rng, &p.pp, p.sk_c, p.pk_s);
    let resp = server_issue(&mut rng, &p.pp, p.sk_s, p.pk_c, &query).unwrap();
    assert!(p.client.client_final(&resp).is_some());
    let (_, other_pk) = client_keygen(&mut rng, &p.pp);
    assert!(server_issue(&mut rng, &p.pp, p.sk_s, other_pk, &query).is_none());
}

#[test]
fn secp256k1_params_as_hex_text() {
    let mut rng = StdRng::seed_from_u64(24);
    let pp = setup(&mut rng);
    let text = pp.to_string();
    assert_eq!(text.len(), 2 * 4 * 33);
    let mut expected = String::new();
    for p in [&pp.g1, &pp.g2, &pp.g3, &pp.g4] {
        for b in p.bytes.iter() {
            expected.push_str(&format!("{:02x}", b));
        }
    }
    assert_eq!(text, expected);
}
