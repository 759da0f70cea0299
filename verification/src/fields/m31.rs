//! The prime field with `P = 2^31 - 1` elements.

use vstd::arithmetic::div_mod::{
    lemma_add_mod_noop, lemma_fundamental_div_mod, lemma_mod_bound, lemma_mod_multiples_vanish,
    lemma_mod_twice, lemma_mul_mod_noop_left, lemma_mul_mod_noop_right, lemma_small_mod,
    lemma_sub_mod_noop,
};
use vstd::arithmetic::mul::{
    lemma_mul_is_associative, lemma_mul_is_commutative, lemma_mul_is_distributive_add,
};
use vstd::prelude::*;

use super::prime::{lemma_inverse_exists, lemma_p_prime};
use super::Field;

pub use super::prime::{MODULUS_BITS, P};

verus! {

/// An element of the prime field. Any word stands for its residue modulo `P`.
#[derive(Clone, Copy, Debug, PartialEq, Eq, Structural, Hash, PartialOrd, Ord)]
pub struct M31(pub u32);

pub type BaseField = M31;

/// The canonical element of residue `x % P`.
pub open spec fn m31(x: int) -> M31 {
    M31((x % (P as int)) as u32)
}

impl View for M31 {
    type V = int;

    /// The residue.
    open spec fn view(&self) -> int {
        self.0 as int % (P as int)
    }
}

/// Reduces a word below `P^2`, and any other, modulo `P`.
fn reduce(x: u64) -> (r: M31)
    ensures
        r == m31(x as int),
{
    M31((x % 2147483647u64) as u32)
}

proof fn lemma_m31_raw(x: int)
    ensures
        m31(x).0 as int == x % (P as int),
        0 <= x % (P as int) < P,
{
    lemma_mod_bound(x, P as int);
}

/// Greatest common divisor by Euclid's algorithm.
spec fn gcd(a: int, b: int) -> int
    decreases b,
{
    if b <= 0 {
        a
    } else {
        gcd(b, a % b)
    }
}

proof fn lemma_gcd_divides(a: int, b: int)
    requires
        a > 0,
        b >= 0,
    ensures
        gcd(a, b) > 0,
        a % gcd(a, b) == 0,
        b % gcd(a, b) == 0,
    decreases b,
{
    if b == 0 {
        vstd::arithmetic::div_mod::lemma_mod_self_0(a);
        lemma_small_mod(0, a as nat);
    } else {
        lemma_mod_bound(a, b);
        lemma_gcd_divides(b, a % b);
        let g = gcd(a, b);
        let q = a / b;
        lemma_fundamental_div_mod(a, b);
        lemma_fundamental_div_mod(b, g);
        lemma_fundamental_div_mod(a % b, g);
        let kb = b / g;
        let kr = (a % b) / g;
        assert(a == g * (kb * q + kr) + 0) by (nonlinear_arith)
            requires
                a == b * q + a % b,
                b == g * kb,
                a % b == g * kr,
        ;
        vstd::arithmetic::div_mod::lemma_fundamental_div_mod_converse(a, g, kb * q + kr, 0);
    }
}

proof fn lemma_gcd_with_p(x: int)
    requires
        0 < x < P,
    ensures
        gcd(P as int, x) == 1,
{
    lemma_gcd_divides(P as int, x);
    let g = gcd(P as int, x);
    lemma_fundamental_div_mod(P as int, g);
    lemma_p_prime(g, P as int / g);
    if g == P {
        lemma_small_mod(x as nat, P as nat);
    }
}

/// One step of Euclid's algorithm keeps the relation between remainder and cofactor.
proof fn lemma_euclid_step(x: int, r0: int, t0: int, r1: int, t1: int, q: int)
    requires
        (t0 * x - r0) % (P as int) == 0,
        (t1 * x - r1) % (P as int) == 0,
    ensures
        (((t0 - q * t1) % (P as int)) * x - (r0 - q * r1)) % (P as int) == 0,
{
    let t = t0 - q * t1;
    let k = t / (P as int);
    lemma_fundamental_div_mod(t0 * x - r0, P as int);
    lemma_fundamental_div_mod(t1 * x - r1, P as int);
    lemma_fundamental_div_mod(t, P as int);
    let k0 = (t0 * x - r0) / (P as int);
    let k1 = (t1 * x - r1) / (P as int);
    let tr = t % (P as int);
    assert(q * (t1 * x - r1) == q * (t1 * x) - q * r1) by (nonlinear_arith);
    assert((q * t1) * x == q * (t1 * x)) by (nonlinear_arith);
    assert((t0 - q * t1) * x == t0 * x - (q * t1) * x) by (nonlinear_arith);
    assert(tr * x == t * x - (2147483647 * k) * x) by (nonlinear_arith)
        requires
            t == 2147483647 * k + tr,
    ;
    assert((2147483647 * k) * x == 2147483647 * (k * x)) by (nonlinear_arith);
    assert(q * (2147483647 * k1) == 2147483647 * (q * k1)) by (nonlinear_arith);
    assert(tr * x - (r0 - q * r1) == P * (k0 - q * k1 - k * x) + 0);
    vstd::arithmetic::div_mod::lemma_fundamental_div_mod_converse(
        tr * x - (r0 - q * r1),
        P as int,
        k0 - q * k1 - k * x,
        0,
    );
}

impl M31 {
    /// The element with the given raw word.
    pub fn from_u32_unchecked(raw: u32) -> (r: M31)
        ensures
            r == M31(raw),
    {
        M31(raw)
    }

    /// The element with the given residue.
    pub fn from_u32(value: u32) -> (r: M31)
        ensures
            r == m31(value as int),
    {
        reduce(value as u64)
    }

    /// The canonical representative.
    pub fn canonical(self) -> (r: M31)
        ensures
            r == self.canon(),
    {
        reduce(self.0 as u64)
    }

    pub fn square(self) -> (r: M31)
        ensures
            r == self.times(self),
    {
        self.mul(self)
    }

    pub fn double(self) -> (r: M31)
        ensures
            r == self.plus(self),
    {
        self.add(self)
    }
}

impl Default for M31 {
    fn default() -> (r: M31)
        ensures
            r == M31::zero_el(),
    {
        M31(0)
    }
}

impl Field for M31 {
    open spec fn zero_el() -> M31 {
        M31(0)
    }

    open spec fn one_el() -> M31 {
        M31(1)
    }

    open spec fn plus(self, rhs: M31) -> M31 {
        m31(self.0 + rhs.0)
    }

    open spec fn minus(self, rhs: M31) -> M31 {
        m31(self.0 - rhs.0)
    }

    open spec fn times(self, rhs: M31) -> M31 {
        m31(self.0 * rhs.0)
    }

    open spec fn opposite(self) -> M31 {
        m31(-(self.0 as int))
    }

    open spec fn canon(self) -> M31 {
        m31(self.0 as int)
    }

    proof fn law_add_comm(a: M31, b: M31) {
    }

    proof fn law_add_assoc(a: M31, b: M31, c: M31) {
        let p = P as int;
        lemma_m31_raw(a.0 + b.0);
        lemma_m31_raw(b.0 + c.0);
        lemma_add_mod_noop(a.0 + b.0, c.0 as int, p);
        lemma_add_mod_noop(a.plus(b).0 as int, c.0 as int, p);
        lemma_mod_twice(a.0 + b.0, p);
        lemma_add_mod_noop(a.0 as int, b.0 + c.0, p);
        lemma_add_mod_noop(a.0 as int, b.plus(c).0 as int, p);
        lemma_mod_twice(b.0 + c.0, p);
    }

    proof fn law_add_zero(a: M31) {
    }

    proof fn law_add_opposite(a: M31) {
        let p = P as int;
        let x = a.0 as int;
        lemma_m31_raw(-x);
        lemma_add_mod_noop(x, -x, p);
        lemma_add_mod_noop(x, (-x) % p, p);
        lemma_mod_twice(-x, p);
    }

    proof fn law_sub(a: M31, b: M31) {
        let p = P as int;
        let x = a.0 as int;
        let y = b.0 as int;
        lemma_m31_raw(-y);
        lemma_add_mod_noop(x, -y, p);
        lemma_add_mod_noop(x, (-y) % p, p);
        lemma_mod_twice(-y, p);
    }

    proof fn law_mul_comm(a: M31, b: M31) {
        lemma_mul_is_commutative(a.0 as int, b.0 as int);
    }

    proof fn law_mul_assoc(a: M31, b: M31, c: M31) {
        let p = P as int;
        lemma_m31_raw(a.0 * b.0);
        lemma_m31_raw(b.0 * c.0);
        lemma_mul_mod_noop_left(a.0 * b.0, c.0 as int, p);
        lemma_mul_mod_noop_right(a.0 as int, b.0 * c.0, p);
        lemma_mul_is_associative(a.0 as int, b.0 as int, c.0 as int);
    }

    proof fn law_mul_one(a: M31) {
    }

    proof fn law_distrib(a: M31, b: M31, c: M31) {
        let p = P as int;
        lemma_m31_raw(b.0 + c.0);
        lemma_m31_raw(a.0 * b.0);
        lemma_m31_raw(a.0 * c.0);
        lemma_mul_mod_noop_right(a.0 as int, b.0 + c.0, p);
        lemma_mul_is_distributive_add(a.0 as int, b.0 as int, c.0 as int);
        lemma_add_mod_noop(a.0 * b.0, a.0 * c.0, p);
    }

    proof fn law_canon_args(a: M31, b: M31) {
        let p = P as int;
        let x = a.0 as int;
        lemma_m31_raw(x);
        lemma_add_mod_noop(x, b.0 as int, p);
        lemma_add_mod_noop(x % p, b.0 as int, p);
        lemma_mod_twice(x, p);
        lemma_mul_mod_noop_left(x, b.0 as int, p);
        lemma_sub_mod_noop(0, x, p);
        lemma_sub_mod_noop(0, x % p, p);
    }

    proof fn law_canon_results(a: M31, b: M31) {
        let p = P as int;
        lemma_m31_raw(a.0 + b.0);
        lemma_m31_raw(a.0 - b.0);
        lemma_m31_raw(a.0 * b.0);
        lemma_m31_raw(-(a.0 as int));
        lemma_m31_raw(a.0 as int);
        lemma_mod_twice(a.0 + b.0, p);
        lemma_mod_twice(a.0 - b.0, p);
        lemma_mod_twice(a.0 * b.0, p);
        lemma_mod_twice(-(a.0 as int), p);
        lemma_mod_twice(a.0 as int, p);
    }

    proof fn law_nontrivial() {
    }

    proof fn law_inverse(a: M31) {
        let p = P as int;
        let x = a.0 as int;
        lemma_m31_raw(x);
        lemma_inverse_exists(x % p);
        let y = choose|y: int| 0 <= y < P && #[trigger] ((x % p) * y) % p == 1;
        lemma_mul_mod_noop_left(x, y, p);
        assert(a.times(M31(y as u32)) == M31::one_el());
    }

    fn zero() -> (r: M31) {
        M31(0)
    }

    fn one() -> (r: M31) {
        M31(1)
    }

    fn add(self, rhs: M31) -> (r: M31) {
        reduce(self.0 as u64 + rhs.0 as u64)
    }

    fn sub(self, rhs: M31) -> (r: M31) {
        let x: u64 = self.0 as u64;
        let y: u64 = (rhs.0 % P) as u64;
        proof {
            lemma_sub_mod_noop(x as int, rhs.0 as int, P as int);
            lemma_sub_mod_noop(x as int, y as int, P as int);
            lemma_mod_twice(rhs.0 as int, P as int);
            lemma_mod_multiples_vanish(1, x - y, P as int);
        }
        reduce(x + 2147483647u64 - y)
    }

    fn mul(self, rhs: M31) -> (r: M31) {
        assert(self.0 as int * rhs.0 as int <= 0xffff_ffff * 0xffff_ffff) by (nonlinear_arith)
            requires
                0 <= self.0 <= 0xffff_ffff,
                0 <= rhs.0 <= 0xffff_ffff,
        ;
        reduce(self.0 as u64 * rhs.0 as u64)
    }

    fn neg(self) -> (r: M31) {
        let y: u64 = (self.0 % P) as u64;
        proof {
            lemma_sub_mod_noop(0, self.0 as int, P as int);
            lemma_sub_mod_noop(0, y as int, P as int);
            lemma_mod_twice(self.0 as int, P as int);
            lemma_mod_multiples_vanish(1, -(y as int), P as int);
        }
        reduce(2147483647u64 - y)
    }

    fn is_zero(self) -> (r: bool) {
        self.0 % P == 0
    }

    fn inverse(self) -> (r: M31) {
        let x: u64 = (self.0 % P) as u64;
        let mut r0: u64 = 2147483647;
        let mut r1: u64 = x;
        let mut t0: u64 = 0;
        let mut t1: u64 = 1;
        proof {
            lemma_gcd_with_p(x as int);
            assert(0 * x - P == P * (-1) + 0);
            vstd::arithmetic::div_mod::lemma_fundamental_div_mod_converse(
                0 * x - P,
                P as int,
                -1,
                0,
            );
            assert(1 * x - x == 0);
            lemma_small_mod(0, P as nat);
        }
        while r1 > 0
            invariant
                0 < r0 <= P,
                0 <= r1 <= P,
                t0 < P,
                t1 < P,
                gcd(r0 as int, r1 as int) == 1,
                (t0 * x - r0) % (P as int) == 0,
                (t1 * x - r1) % (P as int) == 0,
            decreases r1,
        {
            let q: u64 = r0 / r1;
            let r2: u64 = r0 % r1;
            assert(q * t1 <= 0x7fff_ffff * 0x7fff_ffff) by (nonlinear_arith)
                requires
                    0 <= q <= 0x7fff_ffff,
                    0 <= t1 <= 0x7fff_ffff,
            ;
            let qt: u64 = (q * t1) % 2147483647u64;
            let t2: u64 = (t0 + 2147483647u64 - qt) % 2147483647u64;
            proof {
                lemma_fundamental_div_mod(r0 as int, r1 as int);
                lemma_sub_mod_noop(t0 as int, q * t1, P as int);
                lemma_sub_mod_noop(t0 as int, qt as int, P as int);
                lemma_mod_twice(q * t1, P as int);
                lemma_mod_multiples_vanish(1, t0 - qt, P as int);
                lemma_euclid_step(x as int, r0 as int, t0 as int, r1 as int, t1 as int, q as int);
                lemma_mul_is_commutative(r1 as int, q as int);
            }
            r0 = r1;
            r1 = r2;
            t0 = t1;
            t1 = t2;
        }
        proof {
            assert(r0 == 1);
            lemma_fundamental_div_mod(t0 * x - 1, P as int);
            let k = (t0 * x - 1) / (P as int);
            lemma_mod_multiples_vanish(k, 1, P as int);
            assert((t0 * x) % (P as int) == 1);
            lemma_mul_is_commutative(t0 as int, x as int);
            lemma_mul_mod_noop_left(self.0 as int, t0 as int, P as int);
            lemma_small_mod(t0 as nat, P as nat);
        }
        M31(t0 as u32)
    }
}

} // verus!
