use vstd::prelude::*;
use vstd::arithmetic::div_mod::{
    lemma_add_mod_noop_right, lemma_fundamental_div_mod_converse, lemma_mul_mod_noop_left,
    lemma_mul_mod_noop_right,
};
use vstd::arithmetic::mul::lemma_mul_is_associative;
use curve25519_dalek_ng::scalar::Scalar as DalekScalar;
use rand::rngs::StdRng;

verus! {

/// The order of the Ristretto group, `2^252 + 27742317777372353535851937790883648493`.
pub open spec fn group_order() -> int {
    7237005577332262213973186563042994240857116359379907606001950938285454250989int
}

/// The integer that a little-endian byte string encodes.
pub open spec fn le_value(b: Seq<u8>) -> nat
    decreases b.len(),
{
    if b.len() == 0 {
        0
    } else {
        b[0] as nat + 256 * le_value(b.drop_first())
    }
}

/// The integer that a big-endian byte string encodes.
pub open spec fn be_value(b: Seq<u8>) -> nat
    decreases b.len(),
{
    if b.len() == 0 {
        0
    } else {
        be_value(b.drop_last()) * 256 + b.last() as nat
    }
}

/// Two byte strings of one length that encode the same integer are equal.
pub proof fn lemma_le_value_injective(a: Seq<u8>, b: Seq<u8>)
    requires
        a.len() == b.len(),
        le_value(a) == le_value(b),
    ensures
        a == b,
    decreases a.len(),
{
    if a.len() > 0 {
        let ra = le_value(a.drop_first()) as int;
        let rb = le_value(b.drop_first()) as int;
        lemma_fundamental_div_mod_converse(le_value(a) as int, 256, ra, a[0] as int);
        lemma_fundamental_div_mod_converse(le_value(b) as int, 256, rb, b[0] as int);
        lemma_le_value_injective(a.drop_first(), b.drop_first());
        assert(a =~= seq![a[0]] + a.drop_first());
        assert(b =~= seq![b[0]] + b.drop_first());
    } else {
        assert(a =~= b);
    }
}

/// An element of the scalar field of the Ristretto group, held as the
/// little-endian encoding of its canonical representative.
#[derive(Clone, Copy, Debug)]
pub struct Scalar {
    pub bytes: [u8; 32],
}

impl Scalar {
    /// The integer that the scalar stands for.
    pub open spec fn val(&self) -> int {
        le_value(self.bytes@) as int
    }

    /// The encoding is canonical: the integer is reduced modulo the group order.
    pub open spec fn wf(&self) -> bool {
        self.val() < group_order()
    }

    /// Whether two scalars have the same encoding.
    pub fn equals(&self, other: &Scalar) -> (r: bool)
        ensures
            r == (self.bytes@ == other.bytes@),
    {
        let mut i: usize = 0;
        while i < 32
            invariant
                0 <= i <= 32,
                forall|j: int| 0 <= j < i ==> self.bytes@[j] == other.bytes@[j],
            decreases 32 - i,
        {
            if self.bytes[i] != other.bytes[i] {
                return false;
            }
            i = i + 1;
        }
        assert(self.bytes@ =~= other.bytes@);
        true
    }
}

/// Two canonical scalars with the same value have the same encoding.
pub proof fn lemma_scalar_val_injective(a: Scalar, b: Scalar)
    requires
        a.val() == b.val(),
    ensures
        a.bytes@ == b.bytes@,
{
    lemma_le_value_injective(a.bytes@, b.bytes@);
}

/// Relies on curve25519_dalek_ng's `Scalar::from_bytes_mod_order`: the
/// little-endian integer reduced modulo the group order.
#[verifier::external_body]
pub(crate) fn scalar_from_bytes_mod_order(bytes: [u8; 32]) -> (r: Scalar)
    ensures
        r.val() == le_value(bytes@) as int % group_order(),
{
    Scalar { bytes: DalekScalar::from_bytes_mod_order(bytes).to_bytes() }
}

/// `v` is a reduced inverse of `a` modulo the group order.
pub open spec fn is_inverse(a: int, v: int) -> bool {
    0 <= v < group_order() && (a * v) % group_order() == 1
}

/// The inverse of `a` modulo the group order.
pub open spec fn inv_mod(a: int) -> int {
    choose|v: int| is_inverse(a, v)
}

/// The inverse modulo the group order is unique among reduced integers.
pub proof fn lemma_inverse_unique(a: int, v: int, w: int)
    requires
        0 <= v < group_order(),
        0 <= w < group_order(),
        (a * v) % group_order() == 1,
        (a * w) % group_order() == 1,
    ensures
        v == w,
{
    let l = group_order();
    // v == v * (a * w) == (v * a) * w == w   (mod l)
    lemma_mul_mod_noop_right(v, a * w, l);
    lemma_mul_mod_noop_left(a * v, w, l);
    lemma_mul_is_associative(v, a, w);
    lemma_mul_is_associative(a, v, w);
    assert(v * a == a * v) by (nonlinear_arith);
    assert(v % l == v) by (nonlinear_arith) requires 0 <= v < l;
    assert(w % l == w) by (nonlinear_arith) requires 0 <= w < l;
}

/// A reduced inverse is the one that `inv_mod` names.
pub proof fn lemma_inv_mod_is(a: int, v: int)
    requires
        0 <= v < group_order(),
        (a * v) % group_order() == 1,
    ensures
        inv_mod(a) == v,
{
    let w = inv_mod(a);
    assert(is_inverse(a, v));
    assert(is_inverse(a, w));
    lemma_inverse_unique(a, v, w);
}

/// Relies on curve25519_dalek_ng's `Scalar` addition, which reduces modulo the
/// group order.
#[verifier::external_body]
pub(crate) fn scalar_add(a: &Scalar, b: &Scalar) -> (r: Scalar)
    ensures
        r.wf(),
        r.val() == (a.val() + b.val()) % group_order(),
{
    let x = DalekScalar::from_bytes_mod_order(a.bytes);
    let y = DalekScalar::from_bytes_mod_order(b.bytes);
    Scalar { bytes: (x + y).to_bytes() }
}

/// Relies on curve25519_dalek_ng's `Scalar` subtraction, which reduces modulo
/// the group order.
#[verifier::external_body]
pub(crate) fn scalar_sub(a: &Scalar, b: &Scalar) -> (r: Scalar)
    requires
        a.wf(),
        b.wf(),
    ensures
        r.wf(),
        r.val() == (a.val() - b.val()) % group_order(),
{
    let x = DalekScalar::from_bytes_mod_order(a.bytes);
    let y = DalekScalar::from_bytes_mod_order(b.bytes);
    Scalar { bytes: (x - y).to_bytes() }
}

/// Relies on curve25519_dalek_ng's `Scalar` multiplication, which reduces
/// modulo the group order.
#[verifier::external_body]
pub(crate) fn scalar_mul(a: &Scalar, b: &Scalar) -> (r: Scalar)
    requires
        a.wf(),
        b.wf(),
    ensures
        r.wf(),
        r.val() == (a.val() * b.val()) % group_order(),
{
    let x = DalekScalar::from_bytes_mod_order(a.bytes);
    let y = DalekScalar::from_bytes_mod_order(b.bytes);
    Scalar { bytes: (x * y).to_bytes() }
}

/// Relies on curve25519_dalek_ng's `Scalar::invert`: the multiplicative inverse
/// of a nonzero scalar.
#[verifier::external_body]
pub(crate) fn scalar_invert(a: &Scalar) -> (r: Scalar)
    requires
        a.wf(),
        a.val() != 0,
    ensures
        r.wf(),
        (a.val() * r.val()) % group_order() == 1,
{
    Scalar { bytes: DalekScalar::from_bytes_mod_order(a.bytes).invert().to_bytes() }
}

/// The random number generator that callers hand to the protocol operations.
#[verifier::external_type_specification]
#[verifier::external_body]
pub struct ExStdRng(StdRng);

/// Relies on curve25519_dalek_ng's `Scalar::random`: a canonical scalar drawn
/// from the generator.
#[verifier::external_body]
pub(crate) fn random_scalar(rng: &mut StdRng) -> (r: Scalar)
    ensures
        r.wf(),
{
    Scalar { bytes: DalekScalar::random(rng).to_bytes() }
}

/// A byte string encodes zero exactly when all its bytes are zero.
pub proof fn lemma_le_value_zero(b: Seq<u8>)
    ensures
        (le_value(b) == 0) == (forall|i: int| 0 <= i < b.len() ==> b[i] == 0),
    decreases b.len(),
{
    if b.len() > 0 {
        lemma_le_value_zero(b.drop_first());
        if forall|i: int| 0 <= i < b.len() ==> b[i] == 0 {
            assert forall|i: int| 0 <= i < b.drop_first().len() implies b.drop_first()[i] == 0 by {
                assert(b.drop_first()[i] == b[i + 1]);
            }
        }
        if le_value(b) == 0 {
            assert forall|i: int| 0 <= i < b.len() implies b[i] == 0 by {
                if i > 0 {
                    assert(b[i] == b.drop_first()[i - 1]);
                }
            }
        }
    }
}

impl Scalar {
    /// A uniformly drawn scalar.
    pub fn random(rng: &mut StdRng) -> (r: Scalar)
        ensures
            r.wf(),
    {
        random_scalar(rng)
    }

    /// The scalar zero.
    pub fn zero() -> (r: Scalar)
        ensures
            r.wf(),
            r.val() == 0,
    {
        let r = Scalar { bytes: [0u8; 32] };
        proof {
            lemma_le_value_zero(r.bytes@);
        }
        r
    }

    /// The scalar one.
    pub fn one() -> (r: Scalar)
        ensures
            r.wf(),
            r.val() == 1,
    {
        let mut bytes = [0u8; 32];
        bytes[0] = 1;
        let r = Scalar { bytes };
        proof {
            let b = r.bytes@;
            lemma_le_value_zero(b.drop_first());
            assert(forall|i: int| 0 <= i < b.drop_first().len() ==> b.drop_first()[i] == 0);
        }
        r
    }

    /// Whether the scalar is zero.
    pub fn is_zero(&self) -> (r: bool)
        ensures
            r == (self.val() == 0),
    {
        proof {
            lemma_le_value_zero(self.bytes@);
        }
        let mut i: usize = 0;
        while i < 32
            invariant
                0 <= i <= 32,
                forall|j: int| 0 <= j < i ==> self.bytes@[j] == 0,
            decreases 32 - i,
        {
            if self.bytes[i] != 0 {
                proof {
                    lemma_le_value_zero(self.bytes@);
                    if self.val() == 0 {
                        assert(forall|j: int|
                            0 <= j < self.bytes@.len() ==> self.bytes@[j] == 0);
                        assert(self.bytes@[i as int] == 0);
                    }
                }
                return false;
            }
            i = i + 1;
        }
        true
    }
}

/// How many draws `random_scalar_avoiding` makes before it gives up on chance.
pub const MAX_DRAWS: u32 = 64;

/// Draws a scalar `s` such that `base + s` is not zero modulo the group order,
/// drawing again while the sum is zero. Each draw fails with probability
/// `1/group_order()`; after `MAX_DRAWS` failed draws it returns `1 − base`.
pub fn random_scalar_avoiding(rng: &mut StdRng, base: &Scalar) -> (s: Scalar)
    requires
        base.wf(),
    ensures
        s.wf(),
        (base.val() + s.val()) % group_order() != 0,
{
    let mut tries: u32 = 0;
    while tries < MAX_DRAWS
        decreases MAX_DRAWS - tries,
    {
        let s = random_scalar(rng);
        if !scalar_add(base, &s).is_zero() {
            return s;
        }
        tries = tries + 1;
    }
    let s = scalar_sub(&Scalar::one(), base);
    proof {
        lemma_add_mod_noop_right(base.val(), 1 - base.val(), group_order());
    }
    s
}

} // verus!
