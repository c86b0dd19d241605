use vstd::prelude::*;
use vstd::arithmetic::div_mod::{
    lemma_add_mod_noop_right, lemma_mul_mod_noop_left,
    lemma_mul_mod_noop_right,
};
use vstd::arithmetic::mul::lemma_mul_is_associative;
use ark_ec::CurveGroup;
use ark_ff::{BigInteger, Field, PrimeField, UniformRand};
use ark_secp256k1::{Affine, Fr};
use ark_serialize::{CanonicalDeserialize, CanonicalSerialize};
use rand::rngs::StdRng;
use crate::scalar::{be_value, le_value, lemma_le_value_injective, lemma_le_value_zero};
use crate::transcript::{sha256, sha256_digest};

verus! {

/// The order `n` of the secp256k1 group.
pub open spec fn group_order() -> int {
    115792089237316195423570985008687907852837564279074904382605163141518161494337int
}

/// An element of the scalar field of secp256k1, held as the
/// little-endian encoding of its canonical representative.
#[derive(Clone, Copy, Debug)]
pub struct Scalar {
    pub bytes: [u8; 32],
}

impl Scalar {
    /// The integer that the scalar stands for.
    pub open spec fn val(&self) -> int {
        le_value(self.bytes@) as int
    }

    /// The encoding is canonical: the integer is reduced modulo the group order.
    pub open spec fn wf(&self) -> bool {
        self.val() < group_order()
    }

    /// Whether two scalars have the same encoding.
    pub fn equals(&self, other: &Scalar) -> (r: bool)
        ensures
            r == (self.bytes@ == other.bytes@),
    {
        let mut i: usize = 0;
        while i < 32
            invariant
                0 <= i <= 32,
                forall|j: int| 0 <= j < i ==> self.bytes@[j] == other.bytes@[j],
            decreases 32 - i,
        {
            if self.bytes[i] != other.bytes[i] {
                return false;
            }
            i = i + 1;
        }
        assert(self.bytes@ =~= other.bytes@);
        true
    }
}

/// Two canonical scalars with the same value have the same encoding.
pub proof fn lemma_scalar_val_injective(a: Scalar, b: Scalar)
    requires
        a.val() == b.val(),
    ensures
        a.bytes@ == b.bytes@,
{
    lemma_le_value_injective(a.bytes@, b.bytes@);
}

/// Relies on ark_ff's `PrimeField::from_be_bytes_mod_order` for the secp256k1
/// scalar field: the big-endian integer reduced modulo the group order.
#[verifier::external_body]
pub(crate) fn scalar_from_be_bytes_mod_order(bytes: [u8; 32]) -> (r: Scalar)
    ensures
        r.val() == be_value(bytes@) as int % group_order(),
{
    let x = Fr::from_be_bytes_mod_order(&bytes);
    Scalar { bytes: x.into_bigint().to_bytes_le().try_into().unwrap() }
}

/// `v` is a reduced inverse of `a` modulo the group order.
pub open spec fn is_inverse(a: int, v: int) -> bool {
    0 <= v < group_order() && (a * v) % group_order() == 1
}

/// The inverse of `a` modulo the group order.
pub open spec fn inv_mod(a: int) -> int {
    choose|v: int| is_inverse(a, v)
}

/// The inverse modulo the group order is unique among reduced integers.
pub proof fn lemma_inverse_unique(a: int, v: int, w: int)
    requires
        0 <= v < group_order(),
        0 <= w < group_order(),
        (a * v) % group_order() == 1,
        (a * w) % group_order() == 1,
    ensures
        v == w,
{
    let l = group_order();
    // v == v * (a * w) == (v * a) * w == w   (mod l)
    lemma_mul_mod_noop_right(v, a * w, l);
    lemma_mul_mod_noop_left(a * v, w, l);
    lemma_mul_is_associative(v, a, w);
    lemma_mul_is_associative(a, v, w);
    assert(v * a == a * v) by (nonlinear_arith);
    assert(v % l == v) by (nonlinear_arith) requires 0 <= v < l;
    assert(w % l == w) by (nonlinear_arith) requires 0 <= w < l;
}

/// A reduced inverse is the one that `inv_mod` names.
pub proof fn lemma_inv_mod_is(a: int, v: int)
    requires
        0 <= v < group_order(),
        (a * v) % group_order() == 1,
    ensures
        inv_mod(a) == v,
{
    let w = inv_mod(a);
    assert(is_inverse(a, v));
    assert(is_inverse(a, w));
    lemma_inverse_unique(a, v, w);
}

/// Relies on ark_ff's addition in the secp256k1 scalar field.
#[verifier::external_body]
pub(crate) fn scalar_add(a: &Scalar, b: &Scalar) -> (r: Scalar)
    ensures
        r.wf(),
        r.val() == (a.val() + b.val()) % group_order(),
{
    let x = Fr::from_le_bytes_mod_order(&a.bytes) + Fr::from_le_bytes_mod_order(&b.bytes);
    Scalar { bytes: x.into_bigint().to_bytes_le().try_into().unwrap() }
}

/// Relies on ark_ff's subtraction in the secp256k1 scalar field.
#[verifier::external_body]
pub(crate) fn scalar_sub(a: &Scalar, b: &Scalar) -> (r: Scalar)
    requires
        a.wf(),
        b.wf(),
    ensures
        r.wf(),
        r.val() == (a.val() - b.val()) % group_order(),
{
    let x = Fr::from_le_bytes_mod_order(&a.bytes) - Fr::from_le_bytes_mod_order(&b.bytes);
    Scalar { bytes: x.into_bigint().to_bytes_le().try_into().unwrap() }
}

/// Relies on ark_ff's multiplication in the secp256k1 scalar field.
#[verifier::external_body]
pub(crate) fn scalar_mul(a: &Scalar, b: &Scalar) -> (r: Scalar)
    requires
        a.wf(),
        b.wf(),
    ensures
        r.wf(),
        r.val() == (a.val() * b.val()) % group_order(),
{
    let x = Fr::from_le_bytes_mod_order(&a.bytes) * Fr::from_le_bytes_mod_order(&b.bytes);
    Scalar { bytes: x.into_bigint().to_bytes_le().try_into().unwrap() }
}

/// Relies on ark_ff's `Field::inverse` in the secp256k1 scalar field, which is
/// `Some` for every nonzero element.
#[verifier::external_body]
pub(crate) fn scalar_invert(a: &Scalar) -> (r: Scalar)
    requires
        a.wf(),
        a.val() != 0,
    ensures
        r.wf(),
        (a.val() * r.val()) % group_order() == 1,
{
    let x = Fr::from_le_bytes_mod_order(&a.bytes).inverse().unwrap();
    Scalar { bytes: x.into_bigint().to_bytes_le().try_into().unwrap() }
}

/// Relies on ark_std's `UniformRand` for the secp256k1 scalar field.
#[verifier::external_body]
pub(crate) fn random_scalar(rng: &mut StdRng) -> (r: Scalar)
    ensures
        r.wf(),
{
    let x = Fr::rand(rng);
    Scalar { bytes: x.into_bigint().to_bytes_le().try_into().unwrap() }
}

impl Scalar {
    /// A uniformly drawn scalar.
    pub fn random(rng: &mut StdRng) -> (r: Scalar)
        ensures
            r.wf(),
    {
        random_scalar(rng)
    }

    /// The scalar zero.
    pub fn zero() -> (r: Scalar)
        ensures
            r.wf(),
            r.val() == 0,
    {
        let r = Scalar { bytes: [0u8; 32] };
        proof {
            lemma_le_value_zero(r.bytes@);
        }
        r
    }

    /// The scalar one.
    pub fn one() -> (r: Scalar)
        ensures
            r.wf(),
            r.val() == 1,
    {
        let mut bytes = [0u8; 32];
        bytes[0] = 1;
        let r = Scalar { bytes };
        proof {
            let b = r.bytes@;
            lemma_le_value_zero(b.drop_first());
            assert(forall|i: int| 0 <= i < b.drop_first().len() ==> b.drop_first()[i] == 0);
        }
        r
    }

    /// Whether the scalar is zero.
    pub fn is_zero(&self) -> (r: bool)
        ensures
            r == (self.val() == 0),
    {
        proof {
            lemma_le_value_zero(self.bytes@);
        }
        let mut i: usize = 0;
        while i < 32
            invariant
                0 <= i <= 32,
                forall|j: int| 0 <= j < i ==> self.bytes@[j] == 0,
            decreases 32 - i,
        {
            if self.bytes[i] != 0 {
                proof {
                    lemma_le_value_zero(self.bytes@);
                    if self.val() == 0 {
                        assert(forall|j: int|
                            0 <= j < self.bytes@.len() ==> self.bytes@[j] == 0);
                        assert(self.bytes@[i as int] == 0);
                    }
                }
                return false;
            }
            i = i + 1;
        }
        true
    }
}

/// How many draws `random_scalar_avoiding` makes before it gives up on chance.
pub const MAX_DRAWS: u32 = 64;

/// Draws a scalar `s` such that `base + s` is not zero modulo the group order,
/// drawing again while the sum is zero. Each draw fails with probability
/// `1/group_order()`; after `MAX_DRAWS` failed draws it returns `1 − base`.
pub fn random_scalar_avoiding(rng: &mut StdRng, base: &Scalar) -> (s: Scalar)
    requires
        base.wf(),
    ensures
        s.wf(),
        (base.val() + s.val()) % group_order() != 0,
{
    let mut tries: u32 = 0;
    while tries < MAX_DRAWS
        decreases MAX_DRAWS - tries,
    {
        let s = random_scalar(rng);
        if !scalar_add(base, &s).is_zero() {
            return s;
        }
        tries = tries + 1;
    }
    let s = scalar_sub(&Scalar::one(), base);
    proof {
        lemma_add_mod_noop_right(base.val(), 1 - base.val(), group_order());
    }
    s
}



/// The compressed encoding of `k·G`, where `G` is the standard generator of
/// secp256k1 and `0 <= k < group_order()`. The group has prime order and `G`
/// generates it, so every point is such a multiple.
pub uninterp spec fn secp_multiple(k: int) -> Seq<u8>;

/// The encoding of the group element whose discrete logarithm is `k`, for any
/// integer `k`.
pub open spec fn encode(k: int) -> Seq<u8> {
    secp_multiple(k % group_order())
}

/// A point of secp256k1, held as its compressed encoding.
#[derive(Clone, Copy, Debug)]
pub struct Point {
    pub bytes: [u8; 33],
}

impl Point {
    /// `k` is the discrete logarithm of the point with respect to the generator.
    pub open spec fn has_log(&self, k: int) -> bool {
        0 <= k < group_order() && self.bytes@ == secp_multiple(k)
    }

    /// The bytes encode a group element, and its logarithm is unique.
    pub open spec fn wf(&self) -> bool {
        &&& exists|k: int| #[trigger] self.has_log(k)
        &&& forall|i: int, j: int|
            #[trigger] self.has_log(i) && #[trigger] self.has_log(j) ==> i == j
    }

    /// The discrete logarithm of the point with respect to the generator.
    pub open spec fn log(&self) -> int {
        choose|k: int| self.has_log(k)
    }

    /// Whether two points have the same encoding.
    pub fn equals(&self, other: &Point) -> (r: bool)
        ensures
            r == (self.bytes@ == other.bytes@),
    {
        let mut i: usize = 0;
        while i < 33
            invariant
                0 <= i <= 33,
                forall|j: int| 0 <= j < i ==> self.bytes@[j] == other.bytes@[j],
            decreases 33 - i,
        {
            if self.bytes[i] != other.bytes[i] {
                return false;
            }
            i = i + 1;
        }
        assert(self.bytes@ =~= other.bytes@);
        true
    }
}

/// A well-formed point is encoded by its logarithm, which is reduced.
pub proof fn lemma_point_log(p: Point)
    requires
        p.wf(),
    ensures
        p.has_log(p.log()),
        0 <= p.log() < group_order(),
        p.bytes@ == encode(p.log()),
{
    let k = choose|k: int| p.has_log(k);
    assert(p.has_log(k));
    assert(k % group_order() == k) by (nonlinear_arith)
        requires 0 <= k < group_order();
}

/// Two well-formed points with the same logarithm have the same encoding, and
/// two with the same encoding have the same logarithm.
pub proof fn lemma_point_log_eq(p: Point, q: Point)
    requires
        p.wf(),
        q.wf(),
    ensures
        (p.bytes@ == q.bytes@) == (p.log() == q.log()),
{
    lemma_point_log(p);
    lemma_point_log(q);
    if p.bytes@ == q.bytes@ {
        assert(p.has_log(q.log()));
    }
}

/// Relies on ark_ec's addition of secp256k1 points: logarithms add.
#[verifier::external_body]
pub(crate) fn point_add(a: &Point, b: &Point) -> (r: Point)
    requires
        a.wf(),
        b.wf(),
    ensures
        r.wf(),
        r.bytes@ == secp_multiple((a.log() + b.log()) % group_order()),
        r.log() == (a.log() + b.log()) % group_order(),
{
    let x = Affine::deserialize_compressed(&a.bytes[..]).unwrap();
    let y = Affine::deserialize_compressed(&b.bytes[..]).unwrap();
    let mut out = [0u8; 33];
    (x + y).into_affine().serialize_compressed(&mut out[..]).unwrap();
    Point { bytes: out }
}

/// Relies on ark_ec's subtraction of secp256k1 points: logarithms subtract.
#[verifier::external_body]
pub(crate) fn point_sub(a: &Point, b: &Point) -> (r: Point)
    requires
        a.wf(),
        b.wf(),
    ensures
        r.wf(),
        r.bytes@ == secp_multiple((a.log() - b.log()) % group_order()),
        r.log() == (a.log() - b.log()) % group_order(),
{
    let x = Affine::deserialize_compressed(&a.bytes[..]).unwrap();
    let y = Affine::deserialize_compressed(&b.bytes[..]).unwrap();
    let mut out = [0u8; 33];
    (x - y).into_affine().serialize_compressed(&mut out[..]).unwrap();
    Point { bytes: out }
}

/// Relies on ark_ec's multiplication of a secp256k1 point by a scalar: the
/// logarithm is multiplied by the scalar.
#[verifier::external_body]
pub(crate) fn point_mul(p: &Point, k: &Scalar) -> (r: Point)
    requires
        p.wf(),
        k.wf(),
    ensures
        r.wf(),
        r.bytes@ == secp_multiple((p.log() * k.val()) % group_order()),
        r.log() == (p.log() * k.val()) % group_order(),
{
    let x = Affine::deserialize_compressed(&p.bytes[..]).unwrap();
    let mut out = [0u8; 33];
    (x * Fr::from_le_bytes_mod_order(&k.bytes)).into_affine().serialize_compressed(&mut out[..]).unwrap();
    Point { bytes: out }
}

/// Relies on ark_std's `UniformRand` for secp256k1 points.
#[verifier::external_body]
pub(crate) fn random_point(rng: &mut StdRng) -> (r: Point)
    ensures
        r.wf(),
{
    let mut out = [0u8; 33];
    Affine::rand(rng).serialize_compressed(&mut out[..]).unwrap();
    Point { bytes: out }
}


/// The challenge that a transcript yields in the secp256k1 scalar field: its
/// SHA-256 digest read as a big-endian integer and reduced modulo `n`.
pub open spec fn hash_to_scalar(t: Seq<u8>) -> int {
    be_value(sha256_digest(t)) as int % group_order()
}

/// Hashes a transcript into a challenge scalar.
pub fn challenge(t: &Vec<u8>) -> (r: Scalar)
    ensures
        r.wf(),
        r.val() == hash_to_scalar(t@),
{
    let d = sha256(t);
    scalar_from_be_bytes_mod_order(d)
}
} // verus!
