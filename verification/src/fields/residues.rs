//! Two quadratic non-residues modulo `P`: minus one, and five.
//!
//! Both proofs find, for a supposed square root `s`, small `x` and `y` with `x = y * s`
//! modulo `P`, and read off a contradiction from `x^2` and `y^2` modulo small numbers.

use vstd::arithmetic::div_mod::{
    lemma_fundamental_div_mod, lemma_fundamental_div_mod_converse, lemma_mod_bound, lemma_small_mod,
};
use vstd::prelude::*;

use super::prime::{lemma_inverse_exists, lemma_no_zero_divisors, lemma_p_prime, P};

verus! {

/// The largest integer whose square is below `P`.
const ROOT_BOUND: i64 = 46340;

/// `x` is a multiple of `P`.
pub open spec fn divides_p(x: int) -> bool {
    exists|k: int| x == #[trigger] (P * k)
}

pub proof fn lemma_divides_mod(x: int)
    ensures
        divides_p(x) <==> x % (P as int) == 0,
{
    if divides_p(x) {
        let k = choose|k: int| x == #[trigger] (P * k);
        lemma_fundamental_div_mod_converse(x, P as int, k, 0);
    }
    if x % (P as int) == 0 {
        lemma_fundamental_div_mod(x, P as int);
        assert(x == P * (x / (P as int)));
    }
}

pub proof fn lemma_divides_combine(a: int, b: int, u: int, v: int)
    requires
        divides_p(a),
        divides_p(b),
    ensures
        divides_p(u * a + v * b),
{
    let ka = choose|k: int| a == #[trigger] (P * k);
    let kb = choose|k: int| b == #[trigger] (P * k);
    assert(u * (2147483647int * ka) + v * (2147483647int * kb) == 2147483647int * (u * ka + v * kb))
        by (nonlinear_arith);
    assert(u * a + v * b == P * (u * ka + v * kb));
}

/// One stage of Euclid's algorithm on `P` and `s`, followed until the remainder is small.
proof fn lemma_small_pair(s: int, r0: int, u0: int, r1: int, u1: int, sign: int) -> (xy: (int, int))
    requires
        0 < s < P,
        sign == 1 || sign == -1,
        0 <= r1 < r0 <= P,
        r0 > ROOT_BOUND,
        u0 >= 0,
        u1 >= 1,
        r0 * u1 + r1 * u0 == P,
        divides_p(r0 + sign * (u0 * s)),
        divides_p(r1 - sign * (u1 * s)),
        r0 == P ==> r1 == s,
    ensures
        0 < xy.0 <= ROOT_BOUND,
        -ROOT_BOUND <= xy.1 <= ROOT_BOUND,
        divides_p(xy.0 - xy.1 * s),
    decreases r1,
{
    if r1 == 0 {
        assert(r1 * u0 == 0) by (nonlinear_arith)
            requires
                r1 == 0,
        ;
        lemma_p_prime(r0, u1);
        (0, 0)
    } else if r1 <= ROOT_BOUND {
        assert(r1 * u0 >= 0) by (nonlinear_arith)
            requires
                r1 >= 0,
                u0 >= 0,
        ;
        assert(u1 <= 46340) by (nonlinear_arith)
            requires
                r0 >= 46341,
                u1 >= 1,
                r0 * u1 <= 2147483647,
        ;
        assert(sign * (u1 * s) == (sign * u1) * s) by (nonlinear_arith);
        (r1, sign * u1)
    } else {
        let q = r0 / r1;
        let r2 = r0 % r1;
        lemma_fundamental_div_mod(r0, r1);
        lemma_mod_bound(r0, r1);
        assert(q >= 1) by (nonlinear_arith)
            requires
                r0 == r1 * q + r2,
                0 <= r2 < r1,
                r1 < r0,
        ;
        let u2 = u0 + q * u1;
        assert(q * u1 >= 1) by (nonlinear_arith)
            requires
                q >= 1,
                u1 >= 1,
        ;
        assert(r1 * (u0 + q * u1) + r2 * u1 == r0 * u1 + r1 * u0) by (nonlinear_arith)
            requires
                r0 == r1 * q + r2,
        ;
        lemma_divides_combine(r0 + sign * (u0 * s), r1 - sign * (u1 * s), 1, -q);
        let a = u0 * s;
        let b = u1 * s;
        assert((u0 + q * u1) * s == u0 * s + q * (u1 * s)) by (nonlinear_arith);
        assert((-q) * (r1 - b) == q * b - r1 * q) by (nonlinear_arith);
        assert((-q) * (r1 + b) == -(q * b) - r1 * q) by (nonlinear_arith);
        let c = u2 * s;
        assert(c == a + q * b);
        if sign == 1 {
            assert(sign * a == a && sign * b == b && (-sign) * c == -c) by (nonlinear_arith)
                requires
                    sign == 1,
            ;
        } else {
            assert(sign * a == -a && sign * b == -b && (-sign) * c == c) by (nonlinear_arith)
                requires
                    sign == -1,
            ;
        }
        assert(1 * (r0 + sign * a) + (-q) * (r1 - sign * b) == r2 - (-sign) * c);
        assert((-sign) * (u1 * s) == -(sign * (u1 * s))) by (nonlinear_arith);
        lemma_small_pair(s, r1, u1, r2, u2, -sign)
    }
}

/// For every non-zero residue `s` there are small `x > 0` and `y` with `x = y * s` modulo `P`.
proof fn lemma_thue(s: int) -> (xy: (int, int))
    requires
        0 < s < P,
    ensures
        0 < xy.0 <= ROOT_BOUND,
        -ROOT_BOUND <= xy.1 <= ROOT_BOUND,
        divides_p(xy.0 - xy.1 * s),
{
    assert(0 * s == 0);
    assert(P + 1 * (0 * s) == P * 1);
    assert(s - 1 * (1 * s) == P * 0);
    lemma_small_pair(s, P as int, 0, s, 1, 1)
}

/// A square root `s` of `c` gives small `x` and `y` with `x^2 = c * y^2` modulo `P`.
proof fn lemma_root_gives_pair(s: int, c: int) -> (xy: (int, int))
    requires
        0 < s < P,
        divides_p(s * s - c),
    ensures
        0 < xy.0 <= ROOT_BOUND,
        -ROOT_BOUND <= xy.1 <= ROOT_BOUND,
        divides_p(xy.0 * xy.0 - c * (xy.1 * xy.1)),
{
    let (x, y) = lemma_thue(s);
    lemma_divides_combine(x - y * s, s * s - c, x + y * s, y * y);
    assert((x + y * s) * (x - y * s) + (y * y) * (s * s - c) == x * x - c * (y * y))
        by (nonlinear_arith);
    (x, y)
}

proof fn lemma_square_bound(x: int)
    requires
        -ROOT_BOUND <= x <= ROOT_BOUND,
    ensures
        0 <= x * x <= 2147395600,
{
    assert(0 <= x * x <= 2147395600) by (nonlinear_arith)
        requires
            -46340 <= x <= 46340,
    ;
}

proof fn lemma_square_mod4(x: int)
    ensures
        (x * x) % 4 == 0 || (x * x) % 4 == 1,
{
    let h = x / 2;
    if x % 2 == 0 {
        assert(x == 2 * h);
        assert(x * x == 4 * (h * h)) by (nonlinear_arith)
            requires
                x == 2 * h,
        ;
    } else {
        assert(x == 2 * h + 1);
        assert(x * x == 4 * (h * h + h) + 1) by (nonlinear_arith)
            requires
                x == 2 * h + 1,
        ;
    }
}

proof fn lemma_square_mod3(x: int)
    ensures
        (x * x) % 3 == 0 || (x * x) % 3 == 1,
        (x * x) % 3 == 0 ==> x % 3 == 0,
{
    let h = x / 3;
    let r = x % 3;
    assert(x * x == 3 * (3 * (h * h) + 2 * (h * r)) + r * r) by (nonlinear_arith)
        requires
            x == 3 * h + r,
    ;
    assert(r * r == 0 || r * r == 1 || r * r == 4) by (nonlinear_arith)
        requires
            r == 0 || r == 1 || r == 2,
    ;
    assert(r != 0 ==> r * r == 1 || r * r == 4) by (nonlinear_arith)
        requires
            r == 0 || r == 1 || r == 2,
    ;
}

proof fn lemma_square_mod5(x: int)
    ensures
        (x * x) % 5 == 0 || (x * x) % 5 == 1 || (x * x) % 5 == 4,
        (x * x) % 5 == 0 ==> x % 5 == 0,
{
    let h = x / 5;
    let r = x % 5;
    assert(x * x == 5 * (5 * (h * h) + 2 * (h * r)) + r * r) by (nonlinear_arith)
        requires
            x == 5 * h + r,
    ;
    assert(r == 0 || r * r == 1 || r * r == 4 || r * r == 9 || r * r == 16) by (nonlinear_arith)
        requires
            r == 0 || r == 1 || r == 2 || r == 3 || r == 4,
    ;
    if r == 0 {
        assert(r * r == 0);
    }
}

/// The square root of five is irrational.
proof fn lemma_no_root_five(x: int, y: int)
    requires
        x >= 0,
        y >= 0,
        x * x == 5 * (y * y),
    ensures
        x == 0,
    decreases x,
{
    if x > 0 {
        lemma_square_mod5(x);
        let z = x / 5;
        assert(x == 5 * z);
        assert(y * y == 5 * (z * z)) by (nonlinear_arith)
            requires
                x == 5 * z,
                x * x == 5 * (y * y),
        ;
        assert(y < x) by (nonlinear_arith)
            requires
                x > 0,
                y >= 0,
                x * x == 5 * (y * y),
        ;
        lemma_no_root_five(y, z);
        assert(x * x > 0) by (nonlinear_arith)
            requires
                x > 0,
        ;
        assert(y * y == 0) by (nonlinear_arith)
            requires
                y == 0,
        ;
    }
}

/// A sum of two squares vanishes modulo `P` only if both do.
pub proof fn lemma_sum_of_squares(a: int, b: int)
    requires
        0 <= a < P,
        0 <= b < P,
        (a * a + b * b) % (P as int) == 0,
    ensures
        a == 0,
        b == 0,
{
    lemma_divides_mod(a * a + b * b);
    if b == 0 {
        lemma_no_zero_divisors(a, a);
    } else {
        let s = lemma_quotient(a, b);
        lemma_divides_combine(s * b - a, a * a + b * b, s * b + a, 1);
        assert((s * b + a) * (s * b - a) + 1 * (a * a + b * b) == (b * b) * (s * s + 1))
            by (nonlinear_arith);
        lemma_cancel_square(b, s * s + 1);
        if s == 0 {
            lemma_divides_mod(1);
            lemma_small_mod(1, P as nat);
            assert(s * s + 1 == 1);
        }
        let (x, y) = lemma_root_gives_pair(s, -1);
        assert(x * x - (-1) * (y * y) == x * x + y * y) by (nonlinear_arith);
        lemma_square_bound(x);
        lemma_square_bound(y);
        let k = choose|k: int| x * x + y * y == #[trigger] (P * k);
        assert(x * x > 0) by (nonlinear_arith)
            requires
                x > 0,
        ;
        assert(k == 1);
        lemma_square_mod4(x);
        lemma_square_mod4(y);
    }
}

/// The residue `a / b`.
proof fn lemma_quotient(a: int, b: int) -> (s: int)
    requires
        0 < b < P,
    ensures
        0 <= s < P,
        divides_p(s * b - a),
{
    lemma_inverse_exists(b);
    let w = choose|w: int| 0 <= w < P && #[trigger] (b * w) % (P as int) == 1;
    let s = (a * w) % (P as int);
    lemma_mod_bound(a * w, P as int);
    lemma_fundamental_div_mod(a * w, P as int);
    lemma_fundamental_div_mod(b * w, P as int);
    let k1 = (a * w) / (P as int);
    let k2 = (b * w) / (P as int);
    assert(s * b - a == 2147483647int * (a * k2 - k1 * b)) by (nonlinear_arith)
        requires
            a * w == 2147483647int * k1 + s,
            b * w == 2147483647int * k2 + 1,
    ;
    assert(s * b - a == P * (a * k2 - k1 * b));
    s
}

/// A non-zero factor squared can be cancelled.
proof fn lemma_cancel_square(b: int, x: int)
    requires
        0 < b < P,
        divides_p((b * b) * x),
    ensures
        divides_p(x),
{
    let w = lemma_quotient(1, b);
    lemma_divides_combine((b * b) * x, w * b - 1, w * w, -((w * b + 1) * x));
    assert((w * w) * ((b * b) * x) + (-((w * b + 1) * x)) * (w * b - 1) == x) by (nonlinear_arith);
}

/// Five is not a square modulo `P`.
pub proof fn lemma_five_not_square(s: int)
    requires
        0 <= s < P,
    ensures
        (s * s - 5) % (P as int) != 0,
{
    lemma_divides_mod(s * s - 5);
    if divides_p(s * s - 5) {
        if s == 0 {
            let k = choose|k: int| s * s - 5 == #[trigger] (P * k);
            assert(s * s == 0);
            assert(false);
        }
        let (x, y) = lemma_root_gives_pair(s, 5);
        lemma_square_bound(x);
        lemma_square_bound(y);
        let k = choose|k: int| x * x - 5 * (y * y) == #[trigger] (P * k);
        assert(-5 < k < 1);
        lemma_square_mod3(x);
        lemma_square_mod3(y);
        lemma_square_mod4(x);
        lemma_square_mod4(y);
        lemma_square_mod5(x);
        if k == 0 {
            if y >= 0 {
                lemma_no_root_five(x, y);
            } else {
                assert((-y) * (-y) == y * y) by (nonlinear_arith);
                lemma_no_root_five(x, -y);
            }
            assert(false);
        } else if k == -1 || k == -4 {
            assert(false);
        } else if k == -2 {
            assert(false);
        } else {
            let x3 = x / 3;
            let y3 = y / 3;
            assert((x * x) % 3 == 0 && (y * y) % 3 == 0);
            assert(x * x - 5 * (y * y) == 9 * (x3 * x3 - 5 * (y3 * y3))) by (nonlinear_arith)
                requires
                    x == 3 * x3,
                    y == 3 * y3,
            ;
            assert(false);
        }
    }
}

} // verus!
