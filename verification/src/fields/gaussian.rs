//! Gaussian integers modulo `m`: pairs `(re, im)` of residues.
//!
//! The circle over a prime field is the set of Gaussian residues of norm one, and the group
//! law on the circle is the multiplication defined here.

use vstd::arithmetic::div_mod::{
    lemma_fundamental_div_mod, lemma_mod_mod, lemma_mod_multiples_vanish, lemma_mod_twice,
    lemma_small_mod,
};
use vstd::arithmetic::mul::{
    lemma_mul_is_associative, lemma_mul_is_commutative, lemma_mul_is_distributive_add,
    lemma_mul_is_distributive_add_other_way, lemma_mul_is_distributive_sub,
    lemma_mul_is_distributive_sub_other_way,
};
use vstd::prelude::*;

verus! {

/// A pair of integers read as `re + im * i`.
pub type Gauss = (int, int);

/// The product of two Gaussian integers.
pub open spec fn graw(x: Gauss, y: Gauss) -> Gauss {
    (x.0 * y.0 - x.1 * y.1, x.0 * y.1 + x.1 * y.0)
}

/// Both coordinates reduced modulo `m`.
pub open spec fn gred(x: Gauss, m: int) -> Gauss {
    (x.0 % m, x.1 % m)
}

/// The product of two Gaussian residues modulo `m`.
pub open spec fn gmul(x: Gauss, y: Gauss, m: int) -> Gauss {
    gred(graw(x, y), m)
}

/// `x` multiplied by itself `n` times, modulo `m`.
pub open spec fn gpow(x: Gauss, n: nat, m: int) -> Gauss
    decreases n,
{
    if n == 0 {
        (1int % m, 0int)
    } else {
        gmul(gpow(x, (n - 1) as nat, m), x, m)
    }
}

pub proof fn lemma_graw_comm(x: Gauss, y: Gauss)
    ensures
        graw(x, y) == graw(y, x),
{
    lemma_mul_is_commutative(x.0, y.0);
    lemma_mul_is_commutative(x.1, y.1);
    lemma_mul_is_commutative(x.0, y.1);
    lemma_mul_is_commutative(x.1, y.0);
}

proof fn lemma_triple(a: int, b: int, c: int)
    ensures
        (a * b) * c == a * (b * c),
{
    lemma_mul_is_associative(a, b, c);
}

pub proof fn lemma_graw_assoc(x: Gauss, y: Gauss, z: Gauss)
    ensures
        graw(graw(x, y), z) == graw(x, graw(y, z)),
{
    let (a, b) = x;
    let (c, d) = y;
    let (e, f) = z;
    lemma_mul_is_distributive_sub_other_way(e, a * c, b * d);
    lemma_mul_is_distributive_sub_other_way(f, a * c, b * d);
    lemma_mul_is_distributive_add_other_way(e, a * d, b * c);
    lemma_mul_is_distributive_add_other_way(f, a * d, b * c);
    lemma_mul_is_distributive_sub(a, c * e, d * f);
    lemma_mul_is_distributive_sub(b, c * e, d * f);
    lemma_mul_is_distributive_add(a, c * f, d * e);
    lemma_mul_is_distributive_add(b, c * f, d * e);
    lemma_triple(a, c, e);
    lemma_triple(b, d, e);
    lemma_triple(a, c, f);
    lemma_triple(b, d, f);
    lemma_triple(a, d, e);
    lemma_triple(b, c, e);
    lemma_triple(a, d, f);
    lemma_triple(b, c, f);
}

/// Reducing a factor beforehand does not change the reduced product.
pub proof fn lemma_gmul_red_left(x: Gauss, y: Gauss, m: int)
    requires
        m > 0,
    ensures
        gmul(gred(x, m), y, m) == gmul(x, y, m),
{
    let (a, b) = x;
    let (c, d) = y;
    let qa = a / m;
    let qb = b / m;
    lemma_fundamental_div_mod(a, m);
    lemma_fundamental_div_mod(b, m);
    lemma_mul_is_distributive_add_other_way(c, m * qa, a % m);
    lemma_mul_is_distributive_add_other_way(d, m * qa, a % m);
    lemma_mul_is_distributive_add_other_way(c, m * qb, b % m);
    lemma_mul_is_distributive_add_other_way(d, m * qb, b % m);
    lemma_triple(m, qa, c);
    lemma_triple(m, qa, d);
    lemma_triple(m, qb, c);
    lemma_triple(m, qb, d);
    lemma_mul_is_distributive_sub(m, qa * c, qb * d);
    lemma_mul_is_distributive_add(m, qa * d, qb * c);
    let r0 = (a % m) * c - (b % m) * d;
    let r1 = (a % m) * d + (b % m) * c;
    assert(a * c - b * d == m * (qa * c - qb * d) + r0);
    assert(a * d + b * c == m * (qa * d + qb * c) + r1);
    lemma_mod_multiples_vanish(qa * c - qb * d, r0, m);
    lemma_mod_multiples_vanish(qa * d + qb * c, r1, m);
}

pub proof fn lemma_gmul_red_right(x: Gauss, y: Gauss, m: int)
    requires
        m > 0,
    ensures
        gmul(x, gred(y, m), m) == gmul(x, y, m),
{
    lemma_graw_comm(x, gred(y, m));
    lemma_graw_comm(x, y);
    lemma_gmul_red_left(y, x, m);
}

pub proof fn lemma_gmul_comm(x: Gauss, y: Gauss, m: int)
    ensures
        gmul(x, y, m) == gmul(y, x, m),
{
    lemma_graw_comm(x, y);
}

pub proof fn lemma_gmul_assoc(x: Gauss, y: Gauss, z: Gauss, m: int)
    requires
        m > 0,
    ensures
        gmul(gmul(x, y, m), z, m) == gmul(x, gmul(y, z, m), m),
{
    lemma_gmul_red_left(graw(x, y), z, m);
    lemma_gmul_red_right(x, graw(y, z), m);
    lemma_graw_assoc(x, y, z);
}

/// One is neutral, up to reduction.
pub proof fn lemma_gmul_one(x: Gauss, m: int)
    requires
        m > 0,
    ensures
        gmul(x, (1int % m, 0int), m) == gred(x, m),
        gmul(x, (1, 0), m) == gred(x, m),
{
    lemma_small_mod(0, m as nat);
    lemma_gmul_red_right(x, (1, 0), m);
    assert(graw(x, (1, 0)) == x);
}

pub proof fn lemma_gred_idem(x: Gauss, m: int)
    requires
        m > 0,
    ensures
        gred(gred(x, m), m) == gred(x, m),
{
    lemma_mod_twice(x.0, m);
    lemma_mod_twice(x.1, m);
}

/// Every power is reduced.
pub proof fn lemma_gpow_reduced(x: Gauss, n: nat, m: int)
    requires
        m > 0,
    ensures
        gred(gpow(x, n, m), m) == gpow(x, n, m),
        0 <= gpow(x, n, m).0 < m,
        0 <= gpow(x, n, m).1 < m,
{
    if n == 0 {
        lemma_gred_idem((1, 0), m);
        lemma_small_mod(0, m as nat);
    } else {
        lemma_gred_idem(graw(gpow(x, (n - 1) as nat, m), x), m);
    }
    let y = gpow(x, n, m);
    vstd::arithmetic::div_mod::lemma_mod_bound(y.0, m);
    vstd::arithmetic::div_mod::lemma_mod_bound(y.1, m);
}

pub proof fn lemma_gpow_add(x: Gauss, a: nat, b: nat, m: int)
    requires
        m > 0,
    ensures
        gpow(x, a + b, m) == gmul(gpow(x, a, m), gpow(x, b, m), m),
    decreases b,
{
    if b == 0 {
        lemma_gmul_one(gpow(x, a, m), m);
        lemma_gpow_reduced(x, a, m);
    } else {
        let b1 = (b - 1) as nat;
        lemma_gpow_add(x, a, b1, m);
        assert((a + b - 1) as nat == a + b1);
        lemma_gmul_assoc(gpow(x, a, m), gpow(x, b1, m), x, m);
    }
}

pub proof fn lemma_gpow_mul(x: Gauss, a: nat, b: nat, m: int)
    requires
        m > 0,
    ensures
        gpow(gpow(x, a, m), b, m) == gpow(x, a * b, m),
    decreases b,
{
    if b == 0 {
        assert(a * b == 0);
    } else {
        let b1 = (b - 1) as nat;
        lemma_gpow_mul(x, a, b1, m);
        lemma_mul_is_distributive_add(a as int, b1 as int, 1);
        assert(a * b == a * b1 + a);
        lemma_gpow_add(x, a * b1, a, m);
    }
}

/// Powers modulo a divisor are the reduced powers.
pub proof fn lemma_gpow_divisor(x: Gauss, n: nat, q: int, k: int)
    requires
        q > 0,
        k > 0,
    ensures
        gpow(x, n, q) == gred(gpow(x, n, q * k), q),
    decreases n,
{
    let m = q * k;
    vstd::arithmetic::mul::lemma_mul_strictly_positive(q, k);
    if n == 0 {
        lemma_mod_mod(1, q, k);
        lemma_small_mod(0, q as nat);
    } else {
        let n1 = (n - 1) as nat;
        lemma_gpow_divisor(x, n1, q, k);
        let y = gpow(x, n1, m);
        lemma_gmul_red_left(y, x, q);
        let z = graw(y, x);
        lemma_mod_mod(z.0, q, k);
        lemma_mod_mod(z.1, q, k);
    }
}

/// Minus one raised to an odd power is minus one.
pub proof fn lemma_neg_one_odd_power(n: nat, m: int)
    requires
        m > 1,
        n % 2 == 1,
    ensures
        gpow((m - 1, 0), n, m) == ((m - 1) as int, 0int),
    decreases n,
{
    let e: Gauss = (m - 1, 0);
    lemma_small_mod((m - 1) as nat, m as nat);
    lemma_small_mod(0, m as nat);
    if n == 1 {
        assert(gpow(e, 0, m) == (1int % m, 0int));
        lemma_gmul_comm((1int % m, 0int), e, m);
        lemma_gmul_one(e, m);
        assert(gpow(e, 1, m) == gmul(gpow(e, 0, m), e, m));
    } else {
        let n2 = (n - 2) as nat;
        lemma_neg_one_odd_power(n2, m);
        let sq = gmul(e, e, m);
        assert((m - 1) * (m - 1) == m * (m - 2) + 1) by (nonlinear_arith);
        assert((m - 1) * 0 + 0 * (m - 1) == 0);
        lemma_mod_multiples_vanish(m - 2, 1, m);
        lemma_small_mod(1, m as nat);
        assert(sq == (1int, 0int));
        assert(gpow(e, (n - 1) as nat, m) == gmul(gpow(e, n2, m), e, m));
        assert(gpow(e, n, m) == gmul(gpow(e, (n - 1) as nat, m), e, m));
        lemma_gmul_comm((1, 0), e, m);
        lemma_gmul_one(e, m);
    }
}

} // verus!
