use ntat::bls::BlsScalar;
use ntat::client_chac::Client;
use ntat::server_chac::Server;
use ntat::session::issue_and_redeem_chac;
use ntat::util_chac::setup;
use rand::rngs::StdRng;
use rand::SeedableRng;

#[test]
fn chac_full_session_seed_5() {
    let mut rng = StdRng::seed_from_u64(5);
    let pp = setup(&mut rng);
    let nonce = BlsScalar::random(&mut rng);
    let mut client = Client::new();
    let server = Server::new();
    let query = client.client_query(&mut rng, &pp, nonce);
    let resp = server.server_issue(&mut rng, &pp, nonce, &query).unwrap();
    let msg = client.client_redeem(&mut rng, &pp, nonce, &resp);
    let verified = server.server_redeem(&mut rng, &pp, nonce, &msg);
    assert!(verified);
}

#[test]
fn chac_forged_mac_rejected_at_issue() {
    let mut rng = StdRng::seed_from_u64(51);
    let pp = setup(&mut rng);
    let nonce = BlsScalar::random(&mut rng);
    let mut client = Client::new();
    let server = Server::new();
    let mut query = client.client_query(&mut rng, &pp, nonce);
    query.sig = query.s1;
    assert!(server.server_issue(&mut rng, &pp, nonce, &query).is_none());
}

#[test]
fn chac_other_nonce_rejected_at_issue() {
    let mut rng = StdRng::seed_from_u64(52);
    let pp = setup(&mut rng);
    let nonce = BlsScalar::random(&mut rng);
    let other = BlsScalar::random(&mut rng);
    let mut client = Client::new();
    let server = Server::new();
    let query = client.client_query(&mut rng, &pp, nonce);
    assert!(server.server_issue(&mut rng, &pp, other, &query).is_none());
}

#[test]
fn chac_tampered_message_rejected_at_redeem() {
    let mut rng = StdRng::seed_from_u64(53);
    let pp = setup(&mut rng);
    let nonce = BlsScalar::random(&mut rng);
    let mut client = Client::new();
    let server = Server::new();
    let query = client.client_query(&mut rng, &pp, nonce);
    let resp = server.server_issue(&mut rng, &pp, nonce, &query).unwrap();
    let msg = client.client_redeem(&mut rng, &pp, nonce, &resp);
    let mut bad = msg;
    bad.zp = msg.pkp1;
    assert!(!server.server_redeem(&mut rng, &pp, nonce, &bad));
    let mut bad = msg;
    bad.vp = msg.w2p;
    assert!(!server.server_redeem(&mut rng, &pp, nonce, &bad));
    let mut bad = msg;
    bad.sigp = msg.s1p;
    assert!(!server.server_redeem(&mut rng, &pp, nonce, &bad));
}

#[test]
fn chac_two_redemptions_are_rerandomised() {
    let mut rng = StdRng::seed_from_u64(54);
    let pp = setup(&mut rng);
    let nonce = BlsScalar::random(&mut rng);
    let mut client = Client::new();
    let server = Server::new();
    let query = client.client_query(&mut rng, &pp, nonce);
    let resp = server.server_issue(&mut rng, &pp, nonce, &query).unwrap();
    let m1 = client.client_redeem(&mut rng, &pp, nonce, &resp);
    let m2 = client.client_redeem(&mut rng, &pp, nonce, &resp);
    assert!(server.server_redeem(&mut rng, &pp, nonce, &m1));
    assert!(server.server_redeem(&mut rng, &pp, nonce, &m2));
    assert_ne!(m1.zp.bytes, m2.zp.bytes);
    assert_ne!(m1.w1p.bytes, m2.w1p.bytes);
}

#[test]
fn chac_verified_driver_accepts() {
    let mut rng = StdRng::seed_from_u64(5);
    let pp = setup(&mut rng);
    let nonce = BlsScalar::random(&mut rng);
    assert!(issue_and_redeem_chac(&mut rng, &pp, nonce));
}

#[test]
fn chac_params_as_hex_text() {
    let mut rng = StdRng::seed_from_u64(55);
    let pp = setup(&mut rng);
    let text = pp.to_string();
    assert_eq!(text.len(), 2 * (48 + 96));
    assert_eq!(&text[0..2], &format!("{:02x}", pp.g1.bytes[0]));
    assert_eq!(&text[96..98], &format!("{:02x}", pp.g2.bytes[0]));
}
