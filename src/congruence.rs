use vstd::prelude::*;
use vstd::arithmetic::div_mod::{
    lemma_add_mod_noop, lemma_fundamental_div_mod, lemma_mod_multiples_vanish, lemma_mod_twice,
    lemma_mul_mod_noop, lemma_sub_mod_noop,
};

verus! {

/// `u` and `v` are congruent modulo `m`.
pub open spec fn congm(u: int, v: int, m: int) -> bool {
    u % m == v % m
}

pub proof fn lemma_congm_add(u: int, u2: int, v: int, v2: int, m: int)
    requires
        m > 0,
        congm(u, u2, m),
        congm(v, v2, m),
    ensures
        congm(u + v, u2 + v2, m),
{
    lemma_add_mod_noop(u, v, m);
    lemma_add_mod_noop(u2, v2, m);
}

pub proof fn lemma_congm_sub(u: int, u2: int, v: int, v2: int, m: int)
    requires
        m > 0,
        congm(u, u2, m),
        congm(v, v2, m),
    ensures
        congm(u - v, u2 - v2, m),
{
    lemma_sub_mod_noop(u, v, m);
    lemma_sub_mod_noop(u2, v2, m);
}

pub proof fn lemma_congm_mul(u: int, u2: int, v: int, v2: int, m: int)
    requires
        m > 0,
        congm(u, u2, m),
        congm(v, v2, m),
    ensures
        congm(u * v, u2 * v2, m),
{
    lemma_mul_mod_noop(u, v, m);
    lemma_mul_mod_noop(u2, v2, m);
}

pub proof fn lemma_congm_reduce(u: int, m: int)
    requires
        m > 0,
    ensures
        congm(u % m, u, m),
{
    lemma_mod_twice(u, m);
}

/// Multiplying by `a` and by `a_inv`, with `a·a_inv = 1 (mod m)`, cancels.
pub proof fn lemma_congm_cancel(x: int, a: int, a_inv: int, m: int)
    requires
        m > 0,
        (a * a_inv) % m == 1,
    ensures
        congm(x * a * a_inv, x, m),
{
    lemma_fundamental_div_mod(a * a_inv, m);
    let k = (a * a_inv) / m;
    assert(a * a_inv == m * k + 1);
    assert(x * a * a_inv == x + m * (x * k)) by (nonlinear_arith)
        requires a * a_inv == m * k + 1;
    lemma_mod_multiples_vanish(x * k, x, m);
    assert(m * (x * k) + x == x + m * (x * k));
}

} // verus!
