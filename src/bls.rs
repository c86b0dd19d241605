use vstd::prelude::*;
use vstd::arithmetic::div_mod::{lemma_mul_mod_noop_left, lemma_mul_mod_noop_right};
use vstd::arithmetic::mul::lemma_mul_is_associative;
use ark_bls12_381::{Bls12_381, Fr, G1Affine, G2Affine};
use ark_ec::pairing::{Pairing, PairingOutput};
use ark_ec::CurveGroup;
use ark_ff::{BigInteger, Field, PrimeField, UniformRand};
use ark_serialize::{CanonicalDeserialize, CanonicalSerialize};
use rand::rngs::StdRng;
use crate::scalar::{be_value, le_value, lemma_le_value_zero};

verus! {

/// The order `r` of the BLS12-381 groups G1, G2 and GT.
pub open spec fn bls_order() -> int {
    52435875175126190479447740508185965837690552500527637822603658699938581184513int
}

/// An element of the BLS12-381 scalar field, held as the little-endian
/// encoding of its canonical representative.
#[derive(Clone, Copy, Debug)]
pub struct BlsScalar {
    pub bytes: [u8; 32],
}

impl BlsScalar {
    pub open spec fn val(&self) -> int {
        le_value(self.bytes@) as int
    }

    pub open spec fn wf(&self) -> bool {
        self.val() < bls_order()
    }
}

/// `v` is a reduced inverse of `a` modulo `r`.
pub open spec fn is_inverse_r(a: int, v: int) -> bool {
    0 <= v < bls_order() && (a * v) % bls_order() == 1
}

/// The inverse of `a` modulo `r`.
pub open spec fn inv_r(a: int) -> int {
    choose|v: int| is_inverse_r(a, v)
}

/// A reduced inverse modulo `r` is the one that `inv_r` names.
pub proof fn lemma_inv_r_is(a: int, v: int)
    requires
        is_inverse_r(a, v),
    ensures
        inv_r(a) == v,
{
    let l = bls_order();
    let w = inv_r(a);
    assert(is_inverse_r(a, w));
    lemma_mul_mod_noop_right(v, a * w, l);
    lemma_mul_mod_noop_left(a * v, w, l);
    lemma_mul_is_associative(v, a, w);
    lemma_mul_is_associative(a, v, w);
    assert(v * a == a * v) by (nonlinear_arith);
    assert(v % l == v) by (nonlinear_arith) requires 0 <= v < l;
    assert(w % l == w) by (nonlinear_arith) requires 0 <= w < l;
}

/// The compressed encoding of `k·P1`, where `P1` is the standard generator of
/// G1 and `0 <= k < bls_order()`.
pub uninterp spec fn bls_g1_multiple(k: int) -> Seq<u8>;

/// The compressed encoding of `k·P2`, where `P2` is the standard generator of
/// G2 and `0 <= k < bls_order()`.
pub uninterp spec fn bls_g2_multiple(k: int) -> Seq<u8>;

/// The compressed encoding of `k·e(P1, P2)` in GT, written additively, for
/// `0 <= k < bls_order()`.
pub uninterp spec fn bls_gt_multiple(k: int) -> Seq<u8>;

/// A point of G1, held as its compressed encoding.
#[derive(Clone, Copy, Debug)]
pub struct G1Point {
    pub bytes: [u8; 48],
}

/// A point of G2, held as its compressed encoding.
#[derive(Clone, Copy, Debug)]
pub struct G2Point {
    pub bytes: [u8; 96],
}

/// An element of the target group GT, held as its compressed encoding.
#[derive(Clone, Copy, Debug)]
pub struct GtElem {
    pub bytes: [u8; 576],
}

impl G1Point {
    pub open spec fn has_log(&self, k: int) -> bool {
        0 <= k < bls_order() && self.bytes@ == bls_g1_multiple(k)
    }

    pub open spec fn wf(&self) -> bool {
        &&& exists|k: int| #[trigger] self.has_log(k)
        &&& forall|i: int, j: int|
            #[trigger] self.has_log(i) && #[trigger] self.has_log(j) ==> i == j
    }

    pub open spec fn log(&self) -> int {
        choose|k: int| self.has_log(k)
    }
}

impl G2Point {
    pub open spec fn has_log(&self, k: int) -> bool {
        0 <= k < bls_order() && self.bytes@ == bls_g2_multiple(k)
    }

    pub open spec fn wf(&self) -> bool {
        &&& exists|k: int| #[trigger] self.has_log(k)
        &&& forall|i: int, j: int|
            #[trigger] self.has_log(i) && #[trigger] self.has_log(j) ==> i == j
    }

    pub open spec fn log(&self) -> int {
        choose|k: int| self.has_log(k)
    }
}

impl GtElem {
    pub open spec fn has_log(&self, k: int) -> bool {
        0 <= k < bls_order() && self.bytes@ == bls_gt_multiple(k)
    }

    pub open spec fn wf(&self) -> bool {
        &&& exists|k: int| #[trigger] self.has_log(k)
        &&& forall|i: int, j: int|
            #[trigger] self.has_log(i) && #[trigger] self.has_log(j) ==> i == j
    }

    pub open spec fn log(&self) -> int {
        choose|k: int| self.has_log(k)
    }

    /// Whether two elements of GT are equal.
    pub fn equals(&self, other: &GtElem) -> (r: bool)
        requires
            self.wf(),
            other.wf(),
        ensures
            r == (self.log() == other.log()),
    {
        let mut same = true;
        let mut i: usize = 0;
        while i < 576
            invariant
                0 <= i <= 576,
                same == (forall|j: int| 0 <= j < i ==> self.bytes@[j] == other.bytes@[j]),
            decreases 576 - i,
        {
            if self.bytes[i] != other.bytes[i] {
                same = false;
            }
            i = i + 1;
        }
        proof {
            let a = choose|k: int| self.has_log(k);
            let b = choose|k: int| other.has_log(k);
            assert(self.has_log(a) && other.has_log(b));
            if same {
                assert(self.bytes@ =~= other.bytes@);
                assert(self.has_log(b));
            } else {
                if self.log() == other.log() {
                    assert(self.bytes@ == other.bytes@);
                }
            }
        }
        same
    }
}

/// The encoding of the G1 point whose logarithm is `k`, for any integer `k`.
pub open spec fn encode_g1(k: int) -> Seq<u8> {
    bls_g1_multiple(k % bls_order())
}

/// The encoding of the G2 point whose logarithm is `k`, for any integer `k`.
pub open spec fn encode_g2(k: int) -> Seq<u8> {
    bls_g2_multiple(k % bls_order())
}

/// A well-formed G1 point whose logarithm is `k` reduced is encoded by `k`.
pub proof fn lemma_g1_encodes(p: G1Point, k: int)
    requires
        p.wf(),
        p.log() == k % bls_order(),
    ensures
        p.bytes@ == encode_g1(k),
{
    lemma_g1_log(p);
}

/// A well-formed G2 point whose logarithm is `k` reduced is encoded by `k`.
pub proof fn lemma_g2_encodes(p: G2Point, k: int)
    requires
        p.wf(),
        p.log() == k % bls_order(),
    ensures
        p.bytes@ == encode_g2(k),
{
    lemma_g2_log(p);
}

/// Two well-formed G1 points with the same encoding have the same logarithm,
/// and conversely.
pub proof fn lemma_g1_log_eq(p: G1Point, q: G1Point)
    requires
        p.wf(),
        q.wf(),
    ensures
        (p.bytes@ == q.bytes@) == (p.log() == q.log()),
{
    lemma_g1_log(p);
    lemma_g1_log(q);
    if p.bytes@ == q.bytes@ {
        assert(p.has_log(q.log()));
    }
}

/// A well-formed G1 point is encoded by its logarithm, which is reduced.
pub proof fn lemma_g1_log(p: G1Point)
    requires
        p.wf(),
    ensures
        p.has_log(p.log()),
        p.bytes@ == bls_g1_multiple(p.log() % bls_order()),
{
    let k = choose|k: int| p.has_log(k);
    assert(p.has_log(k));
    assert(k % bls_order() == k) by (nonlinear_arith)
        requires 0 <= k < bls_order();
}

/// A well-formed G2 point is encoded by its logarithm, which is reduced.
pub proof fn lemma_g2_log(p: G2Point)
    requires
        p.wf(),
    ensures
        p.has_log(p.log()),
        p.bytes@ == bls_g2_multiple(p.log() % bls_order()),
{
    let k = choose|k: int| p.has_log(k);
    assert(p.has_log(k));
    assert(k % bls_order() == k) by (nonlinear_arith)
        requires 0 <= k < bls_order();
}

/// Relies on ark_ff's `PrimeField::from_be_bytes_mod_order` for the BLS12-381
/// scalar field: the big-endian integer reduced modulo `r`.
#[verifier::external_body]
pub(crate) fn fr_from_be_bytes_mod_order(bytes: [u8; 32]) -> (r: BlsScalar)
    ensures
        r.wf(),
        r.val() == be_value(bytes@) as int % bls_order(),
{
    let x = Fr::from_be_bytes_mod_order(&bytes);
    BlsScalar { bytes: x.into_bigint().to_bytes_le().try_into().unwrap() }
}

/// Relies on ark_ff's multiplication in the BLS12-381 scalar field.
#[verifier::external_body]
pub(crate) fn fr_mul(a: &BlsScalar, b: &BlsScalar) -> (r: BlsScalar)
    requires
        a.wf(),
        b.wf(),
    ensures
        r.wf(),
        r.val() == (a.val() * b.val()) % bls_order(),
{
    let x = Fr::from_le_bytes_mod_order(&a.bytes) * Fr::from_le_bytes_mod_order(&b.bytes);
    BlsScalar { bytes: x.into_bigint().to_bytes_le().try_into().unwrap() }
}

/// Relies on ark_ff's addition in the BLS12-381 scalar field.
#[verifier::external_body]
pub(crate) fn fr_add(a: &BlsScalar, b: &BlsScalar) -> (r: BlsScalar)
    requires
        a.wf(),
        b.wf(),
    ensures
        r.wf(),
        r.val() == (a.val() + b.val()) % bls_order(),
{
    let x = Fr::from_le_bytes_mod_order(&a.bytes) + Fr::from_le_bytes_mod_order(&b.bytes);
    BlsScalar { bytes: x.into_bigint().to_bytes_le().try_into().unwrap() }
}

/// Relies on ark_ff's subtraction in the BLS12-381 scalar field.
#[verifier::external_body]
pub(crate) fn fr_sub(a: &BlsScalar, b: &BlsScalar) -> (r: BlsScalar)
    requires
        a.wf(),
        b.wf(),
    ensures
        r.wf(),
        r.val() == (a.val() - b.val()) % bls_order(),
{
    let x = Fr::from_le_bytes_mod_order(&a.bytes) - Fr::from_le_bytes_mod_order(&b.bytes);
    BlsScalar { bytes: x.into_bigint().to_bytes_le().try_into().unwrap() }
}

/// Relies on ark_ff's `Field::inverse` in the BLS12-381 scalar field, which is
/// `Some` for every nonzero element.
#[verifier::external_body]
pub(crate) fn fr_invert(a: &BlsScalar) -> (r: BlsScalar)
    requires
        a.wf(),
        a.val() != 0,
    ensures
        r.wf(),
        is_inverse_r(a.val(), r.val()),
{
    let x = Fr::from_le_bytes_mod_order(&a.bytes).inverse().unwrap();
    BlsScalar { bytes: x.into_bigint().to_bytes_le().try_into().unwrap() }
}

/// Relies on ark_std's `UniformRand` for the BLS12-381 scalar field.
#[verifier::external_body]
pub(crate) fn fr_random(rng: &mut StdRng) -> (r: BlsScalar)
    ensures
        r.wf(),
{
    let x = Fr::rand(rng);
    BlsScalar { bytes: x.into_bigint().to_bytes_le().try_into().unwrap() }
}

/// Relies on ark_ec's addition of G1 points: logarithms add.
#[verifier::external_body]
pub(crate) fn g1_add(a: &G1Point, b: &G1Point) -> (r: G1Point)
    requires
        a.wf(),
        b.wf(),
    ensures
        r.wf(),
        r.bytes@ == bls_g1_multiple((a.log() + b.log()) % bls_order()),
        r.log() == (a.log() + b.log()) % bls_order(),
{
    let x = G1Affine::deserialize_compressed(&a.bytes[..]).unwrap();
    let y = G1Affine::deserialize_compressed(&b.bytes[..]).unwrap();
    let mut out = [0u8; 48];
    (x + y).into_affine().serialize_compressed(&mut out[..]).unwrap();
    G1Point { bytes: out }
}

/// Relies on ark_ec's subtraction of G1 points: logarithms subtract.
#[verifier::external_body]
pub(crate) fn g1_sub(a: &G1Point, b: &G1Point) -> (r: G1Point)
    requires
        a.wf(),
        b.wf(),
    ensures
        r.wf(),
        r.bytes@ == bls_g1_multiple((a.log() - b.log()) % bls_order()),
        r.log() == (a.log() - b.log()) % bls_order(),
{
    let x = G1Affine::deserialize_compressed(&a.bytes[..]).unwrap();
    let y = G1Affine::deserialize_compressed(&b.bytes[..]).unwrap();
    let mut out = [0u8; 48];
    (x - y).into_affine().serialize_compressed(&mut out[..]).unwrap();
    G1Point { bytes: out }
}

/// Relies on ark_ec's multiplication of a G1 point by a scalar: the logarithm
/// is multiplied by the scalar.
#[verifier::external_body]
pub(crate) fn g1_mul(p: &G1Point, k: &BlsScalar) -> (r: G1Point)
    requires
        p.wf(),
        k.wf(),
    ensures
        r.wf(),
        r.bytes@ == bls_g1_multiple((p.log() * k.val()) % bls_order()),
        r.log() == (p.log() * k.val()) % bls_order(),
{
    let x = G1Affine::deserialize_compressed(&p.bytes[..]).unwrap();
    let mut out = [0u8; 48];
    (x * Fr::from_le_bytes_mod_order(&k.bytes)).into_affine().serialize_compressed(&mut out[..]).unwrap();
    G1Point { bytes: out }
}

/// Relies on ark_std's `UniformRand` for G1 points.
#[verifier::external_body]
pub(crate) fn g1_random(rng: &mut StdRng) -> (r: G1Point)
    ensures
        r.wf(),
{
    let mut out = [0u8; 48];
    G1Affine::rand(rng).serialize_compressed(&mut out[..]).unwrap();
    G1Point { bytes: out }
}

/// Relies on ark_ec's addition of G2 points: logarithms add.
#[verifier::external_body]
pub(crate) fn g2_add(a: &G2Point, b: &G2Point) -> (r: G2Point)
    requires
        a.wf(),
        b.wf(),
    ensures
        r.wf(),
        r.bytes@ == bls_g2_multiple((a.log() + b.log()) % bls_order()),
        r.log() == (a.log() + b.log()) % bls_order(),
{
    let x = G2Affine::deserialize_compressed(&a.bytes[..]).unwrap();
    let y = G2Affine::deserialize_compressed(&b.bytes[..]).unwrap();
    let mut out = [0u8; 96];
    (x + y).into_affine().serialize_compressed(&mut out[..]).unwrap();
    G2Point { bytes: out }
}

/// Relies on ark_ec's multiplication of a G2 point by a scalar: the logarithm
/// is multiplied by the scalar.
#[verifier::external_body]
pub(crate) fn g2_mul(p: &G2Point, k: &BlsScalar) -> (r: G2Point)
    requires
        p.wf(),
        k.wf(),
    ensures
        r.wf(),
        r.bytes@ == bls_g2_multiple((p.log() * k.val()) % bls_order()),
        r.log() == (p.log() * k.val()) % bls_order(),
{
    let x = G2Affine::deserialize_compressed(&p.bytes[..]).unwrap();
    let mut out = [0u8; 96];
    (x * Fr::from_le_bytes_mod_order(&k.bytes)).into_affine().serialize_compressed(&mut out[..]).unwrap();
    G2Point { bytes: out }
}

/// Relies on ark_std's `UniformRand` for G2 points.
#[verifier::external_body]
pub(crate) fn g2_random(rng: &mut StdRng) -> (r: G2Point)
    ensures
        r.wf(),
{
    let mut out = [0u8; 96];
    G2Affine::rand(rng).serialize_compressed(&mut out[..]).unwrap();
    G2Point { bytes: out }
}

/// Relies on ark_ec's `Pairing::pairing` for BLS12-381, which is bilinear and
/// non-degenerate: the logarithms multiply.
#[verifier::external_body]
pub(crate) fn pairing(p: &G1Point, q: &G2Point) -> (r: GtElem)
    requires
        p.wf(),
        q.wf(),
    ensures
        r.wf(),
        r.bytes@ == bls_gt_multiple((p.log() * q.log()) % bls_order()),
        r.log() == (p.log() * q.log()) % bls_order(),
{
    let x = G1Affine::deserialize_compressed(&p.bytes[..]).unwrap();
    let y = G2Affine::deserialize_compressed(&q.bytes[..]).unwrap();
    let mut out = [0u8; 576];
    Bls12_381::pairing(x, y).serialize_compressed(&mut out[..]).unwrap();
    GtElem { bytes: out }
}

/// Relies on ark_ec's group operation on `PairingOutput`, written additively:
/// logarithms add.
#[verifier::external_body]
pub(crate) fn gt_add(a: &GtElem, b: &GtElem) -> (r: GtElem)
    requires
        a.wf(),
        b.wf(),
    ensures
        r.wf(),
        r.bytes@ == bls_gt_multiple((a.log() + b.log()) % bls_order()),
        r.log() == (a.log() + b.log()) % bls_order(),
{
    let x = PairingOutput::<Bls12_381>::deserialize_compressed(&a.bytes[..]).unwrap();
    let y = PairingOutput::<Bls12_381>::deserialize_compressed(&b.bytes[..]).unwrap();
    let mut out = [0u8; 576];
    (x + y).serialize_compressed(&mut out[..]).unwrap();
    GtElem { bytes: out }
}

impl BlsScalar {
    /// A uniformly drawn scalar.
    pub fn random(rng: &mut StdRng) -> (r: BlsScalar)
        ensures
            r.wf(),
    {
        fr_random(rng)
    }

    /// Whether two scalars have the same encoding.
    pub fn equals(&self, other: &BlsScalar) -> (r: bool)
        ensures
            r == (self.bytes@ == other.bytes@),
    {
        let mut same = true;
        let mut i: usize = 0;
        while i < 32
            invariant
                0 <= i <= 32,
                same == (forall|j: int| 0 <= j < i ==> self.bytes@[j] == other.bytes@[j]),
            decreases 32 - i,
        {
            if self.bytes[i] != other.bytes[i] {
                same = false;
            }
            i = i + 1;
        }
        proof {
            if same {
                assert(self.bytes@ =~= other.bytes@);
            }
        }
        same
    }

    /// Whether two G1 points are equal.
    pub fn g1_equals(a: &G1Point, b: &G1Point) -> (r: bool)
        requires
            a.wf(),
            b.wf(),
        ensures
            r == (a.log() == b.log()),
    {
        let mut same = true;
        let mut i: usize = 0;
        while i < 48
            invariant
                0 <= i <= 48,
                same == (forall|j: int| 0 <= j < i ==> a.bytes@[j] == b.bytes@[j]),
            decreases 48 - i,
        {
            if a.bytes[i] != b.bytes[i] {
                same = false;
            }
            i = i + 1;
        }
        proof {
            if same {
                assert(a.bytes@ =~= b.bytes@);
            }
            lemma_g1_log_eq(*a, *b);
        }
        same
    }

    /// The scalar one.
    pub fn one() -> (r: BlsScalar)
        ensures
            r.wf(),
            r.val() == 1,
    {
        let mut bytes = [0u8; 32];
        bytes[0] = 1;
        let r = BlsScalar { bytes };
        proof {
            let b = r.bytes@;
            lemma_le_value_zero(b.drop_first());
            assert(forall|i: int| 0 <= i < b.drop_first().len() ==> b.drop_first()[i] == 0);
        }
        r
    }

    /// Whether the scalar is zero.
    pub fn is_zero(&self) -> (r: bool)
        ensures
            r == (self.val() == 0),
    {
        let mut zero = true;
        let mut i: usize = 0;
        while i < 32
            invariant
                0 <= i <= 32,
                zero == (forall|j: int| 0 <= j < i ==> self.bytes@[j] == 0),
            decreases 32 - i,
        {
            if self.bytes[i] != 0 {
                zero = false;
            }
            i = i + 1;
        }
        proof {
            lemma_le_value_zero(self.bytes@);
        }
        zero
    }
}

/// How many draws `fr_random_nonzero` makes before it gives up on chance.
pub const MAX_FR_DRAWS: u32 = 64;

/// Draws a nonzero scalar, drawing again while the draw is zero. Each draw is
/// zero with probability `1/r`; after `MAX_FR_DRAWS` zero draws it returns one.
pub fn fr_random_nonzero(rng: &mut StdRng) -> (s: BlsScalar)
    ensures
        s.wf(),
        s.val() != 0,
{
    let mut tries: u32 = 0;
    while tries < MAX_FR_DRAWS
        decreases MAX_FR_DRAWS - tries,
    {
        let s = fr_random(rng);
        if !s.is_zero() {
            return s;
        }
        tries = tries + 1;
    }
    BlsScalar::one()
}

/// Draws a scalar `s` such that `base + s` is not zero modulo `r`, drawing
/// again while the sum is zero; after `MAX_FR_DRAWS` failed draws it returns
/// `1 − base`.
pub fn fr_random_avoiding(rng: &mut StdRng, base: &BlsScalar) -> (s: BlsScalar)
    requires
        base.wf(),
    ensures
        s.wf(),
        (base.val() + s.val()) % bls_order() != 0,
{
    let mut tries: u32 = 0;
    while tries < MAX_FR_DRAWS
        invariant
            base.wf(),
        decreases MAX_FR_DRAWS - tries,
    {
        let s = fr_random(rng);
        if !fr_add(base, &s).is_zero() {
            return s;
        }
        tries = tries + 1;
    }
    let s = fr_sub(&BlsScalar::one(), base);
    proof {
        vstd::arithmetic::div_mod::lemma_add_mod_noop_right(base.val(), 1 - base.val(), bls_order());
    }
    s
}

/// `e(a1, b1) = e(a2, b2)`, over logarithms.
pub open spec fn pairing_holds(a1: int, b1: int, a2: int, b2: int) -> bool {
    (a1 * b1) % bls_order() == (a2 * b2) % bls_order()
}

/// Whether `e(a, b) = e(c, d)`.
pub fn pairing_eq(a: &G1Point, b: &G2Point, c: &G1Point, d: &G2Point) -> (r: bool)
    requires
        a.wf(),
        b.wf(),
        c.wf(),
        d.wf(),
    ensures
        r == pairing_holds(a.log(), b.log(), c.log(), d.log()),
{
    pairing(a, b).equals(&pairing(c, d))
}

} // verus!
