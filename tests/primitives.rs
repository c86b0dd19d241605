use ntat::bls::BlsScalar;
use ntat::scalar::Scalar;
use ntat::transcript::{absorb, absorb_slice, challenge, hash_to_fr};
use ntat::util_dalek::{commit, setup};
use rand::rngs::StdRng;
use rand::SeedableRng;

const EMPTY_MOD_L: [u8; 32] = [
    66, 141, 247, 113, 20, 13, 193, 91, 106, 235, 30, 154, 64, 142, 94, 188, 38, 174, 65, 228,
    100, 155, 147, 76, 164, 149, 153, 27, 120, 82, 184, 5,
];

const EMPTY_MOD_R: [u8; 32] = [
    84, 184, 82, 120, 28, 153, 149, 164, 77, 55, 157, 100, 225, 157, 240, 211, 30, 225, 205, 143,
    192, 28, 194, 103, 204, 158, 94, 111, 239, 28, 195, 111,
];

const ABC_MOD_L: [u8; 32] = [
    120, 49, 124, 29, 136, 34, 23, 122, 226, 32, 148, 128, 171, 235, 108, 82, 175, 3, 97, 163,
    150, 23, 122, 156, 180, 16, 255, 97, 242, 0, 21, 13,
];

#[test]
fn challenge_of_empty_transcript() {
    let c = challenge(&Vec::new());
    assert_eq!(c.bytes, EMPTY_MOD_L);
}

#[test]
fn challenge_of_abc() {
    let c = challenge(&b"abc".to_vec());
    assert_eq!(c.bytes, ABC_MOD_L);
}

#[test]
fn hash_to_bls_scalar_of_empty() {
    let c = hash_to_fr(&Vec::new());
    assert_eq!(c.bytes, EMPTY_MOD_R);
}

#[test]
fn absorb_appends_in_order() {
    let mut t: Vec<u8> = vec![9];
    let mut b = [0u8; 32];
    b[0] = 1;
    b[31] = 2;
    absorb(&mut t, &b);
    assert_eq!(t.len(), 33);
    assert_eq!(t[0], 9);
    assert_eq!(t[1], 1);
    assert_eq!(t[32], 2);
    absorb_slice(&mut t, &[7, 8]);
    assert_eq!(&t[33..], &[7, 8]);
}

#[test]
fn scalar_constants() {
    assert!(Scalar::zero().is_zero());
    assert!(!Scalar::one().is_zero());
    assert_eq!(Scalar::one().bytes[0], 1);
    assert!(Scalar::one().equals(&Scalar::one()));
    assert!(!Scalar::one().equals(&Scalar::zero()));
    assert!(!BlsScalar::one().is_zero());
}

#[test]
fn params_hash_absorbs_tag_then_four_generators() {
    let mut rng = StdRng::seed_from_u64(7);
    let pp = setup(&mut rng);
    let mut t: Vec<u8> = Vec::new();
    pp.hash(&mut t);
    assert_eq!(t.len(), 14 + 128);
    assert_eq!(&t[0..14], b"ntat-ristretto");
    assert_eq!(&t[14..46], &pp.g1.bytes);
    assert_eq!(&t[110..142], &pp.g4.bytes);
}

#[test]
fn commitment_depends_on_opening() {
    let mut rng = StdRng::seed_from_u64(8);
    let pp = setup(&mut rng);
    let a = commit(&Scalar::zero(), &pp.g1);
    let b = commit(&Scalar::one(), &pp.g1);
    let c = commit(&Scalar::zero(), &pp.g2);
    assert!(!a.equals(&b));
    assert!(!a.equals(&c));
    assert!(a.equals(&commit(&Scalar::zero(), &pp.g1)));
}

