use vstd::prelude::*;
use curve25519_dalek_ng::ristretto::{CompressedRistretto, RistrettoPoint};
use curve25519_dalek_ng::scalar::Scalar as DalekScalar;
use rand::rngs::StdRng;
use crate::scalar::{group_order, Scalar};

verus! {

/// The compressed encoding of `k·B`, where `B` is the Ristretto basepoint and
/// `0 <= k < group_order()`. The Ristretto group has prime order and `B`
/// generates it, so every element is such a multiple.
pub uninterp spec fn ristretto_multiple(k: int) -> Seq<u8>;

/// The encoding of the group element whose discrete logarithm is `k`, for any
/// integer `k`.
pub open spec fn encode(k: int) -> Seq<u8> {
    ristretto_multiple(k % group_order())
}

/// An element of the Ristretto group, held as its canonical compressed
/// encoding.
#[derive(Clone, Copy, Debug)]
pub struct Point {
    pub bytes: [u8; 32],
}

impl Point {
    /// `k` is the discrete logarithm of the point with respect to the basepoint.
    pub open spec fn has_log(&self, k: int) -> bool {
        0 <= k < group_order() && self.bytes@ == ristretto_multiple(k)
    }

    /// The bytes encode a group element, and its logarithm is unique.
    pub open spec fn wf(&self) -> bool {
        &&& exists|k: int| #[trigger] self.has_log(k)
        &&& forall|i: int, j: int|
            #[trigger] self.has_log(i) && #[trigger] self.has_log(j) ==> i == j
    }

    /// The discrete logarithm of the point with respect to the basepoint.
    pub open spec fn log(&self) -> int {
        choose|k: int| self.has_log(k)
    }

    /// Whether two points have the same encoding.
    pub fn equals(&self, other: &Point) -> (r: bool)
        ensures
            r == (self.bytes@ == other.bytes@),
    {
        let mut i: usize = 0;
        while i < 32
            invariant
                0 <= i <= 32,
                forall|j: int| 0 <= j < i ==> self.bytes@[j] == other.bytes@[j],
            decreases 32 - i,
        {
            if self.bytes[i] != other.bytes[i] {
                return false;
            }
            i = i + 1;
        }
        assert(self.bytes@ =~= other.bytes@);
        true
    }
}

/// A well-formed point is encoded by its logarithm, which is reduced.
pub proof fn lemma_point_log(p: Point)
    requires
        p.wf(),
    ensures
        p.has_log(p.log()),
        0 <= p.log() < group_order(),
        p.bytes@ == encode(p.log()),
{
    let k = choose|k: int| p.has_log(k);
    assert(p.has_log(k));
    assert(k % group_order() == k) by (nonlinear_arith)
        requires 0 <= k < group_order();
}

/// Two well-formed points with the same logarithm have the same encoding, and
/// two with the same encoding have the same logarithm.
pub proof fn lemma_point_log_eq(p: Point, q: Point)
    requires
        p.wf(),
        q.wf(),
    ensures
        (p.bytes@ == q.bytes@) == (p.log() == q.log()),
{
    lemma_point_log(p);
    lemma_point_log(q);
    if p.bytes@ == q.bytes@ {
        assert(p.has_log(q.log()));
    }
}

/// Relies on curve25519_dalek_ng's `RistrettoPoint` addition: logarithms add.
#[verifier::external_body]
pub(crate) fn point_add(a: &Point, b: &Point) -> (r: Point)
    requires
        a.wf(),
        b.wf(),
    ensures
        r.wf(),
        r.bytes@ == ristretto_multiple((a.log() + b.log()) % group_order()),
        r.log() == (a.log() + b.log()) % group_order(),
{
    let x = CompressedRistretto(a.bytes).decompress().unwrap();
    let y = CompressedRistretto(b.bytes).decompress().unwrap();
    Point { bytes: (x + y).compress().to_bytes() }
}

/// Relies on curve25519_dalek_ng's `RistrettoPoint` subtraction: logarithms
/// subtract.
#[verifier::external_body]
pub(crate) fn point_sub(a: &Point, b: &Point) -> (r: Point)
    requires
        a.wf(),
        b.wf(),
    ensures
        r.wf(),
        r.bytes@ == ristretto_multiple((a.log() - b.log()) % group_order()),
        r.log() == (a.log() - b.log()) % group_order(),
{
    let x = CompressedRistretto(a.bytes).decompress().unwrap();
    let y = CompressedRistretto(b.bytes).decompress().unwrap();
    Point { bytes: (x - y).compress().to_bytes() }
}

/// Relies on curve25519_dalek_ng's multiplication of a `RistrettoPoint` by a
/// `Scalar`: the logarithm is multiplied by the scalar.
#[verifier::external_body]
pub(crate) fn point_mul(p: &Point, k: &Scalar) -> (r: Point)
    requires
        p.wf(),
        k.wf(),
    ensures
        r.wf(),
        r.bytes@ == ristretto_multiple((p.log() * k.val()) % group_order()),
        r.log() == (p.log() * k.val()) % group_order(),
{
    let x = CompressedRistretto(p.bytes).decompress().unwrap();
    let s = DalekScalar::from_bytes_mod_order(k.bytes);
    Point { bytes: (x * s).compress().to_bytes() }
}

/// Relies on curve25519_dalek_ng's `RistrettoPoint::random`: a group element
/// drawn from the generator.
#[verifier::external_body]
pub(crate) fn random_point(rng: &mut StdRng) -> (r: Point)
    ensures
        r.wf(),
{
    Point { bytes: RistrettoPoint::random(rng).compress().to_bytes() }
}

} // verus!
