//! Number theory of the modulus `P = 2^31 - 1`.
//!
//! That `P` is prime follows from the circle group: a point of order `2^31 = P + 1` cannot exist
//! modulo a proper divisor `q` with `q^2 <= P`, for want of residues. The two non-residue facts
//! make the quadratic extensions fields.

use vstd::arithmetic::div_mod::{
    lemma_fundamental_div_mod, lemma_fundamental_div_mod_converse, lemma_mod_bound,
    lemma_mod_multiples_vanish, lemma_mul_mod_noop_left, lemma_mul_mod_noop_right, lemma_small_mod,
};
use vstd::arithmetic::mul::lemma_mul_is_commutative;
use vstd::prelude::*;
use vstd::relations::injective_on;
use vstd::set_lib::{lemma_int_range, lemma_len_subset, lemma_map_size, set_int_range};

use super::gaussian::{
    gmul, gpow, lemma_gmul_comm, lemma_gmul_one, lemma_gpow_add, lemma_gpow_divisor, lemma_gpow_mul,
    lemma_gpow_reduced, lemma_neg_one_odd_power, Gauss,
};

verus! {

/// The modulus, a Mersenne prime.
pub const P: u32 = 2147483647;

/// The number of bits of the modulus.
pub const MODULUS_BITS: u32 = 31;

/// A generator of the circle group over the prime field.
pub open spec fn circle_gen() -> Gauss {
    (2, 1268011823)
}

/// The generator multiplied by itself `n` times.
#[verifier::opaque]
spec fn gen_pow(n: nat) -> Gauss {
    gpow(circle_gen(), n, P as int)
}

proof fn lemma_square_step(n: nat, v: Gauss, w: Gauss)
    requires
        gen_pow(n) == v,
        gmul(v, v, P as int) == w,
    ensures
        gen_pow(2 * n) == w,
{
    reveal(gen_pow);
    lemma_gpow_add(circle_gen(), n, n, P as int);
    assert(n + n == 2 * n);
}

proof fn lemma_first_squarings()
    requires
        gen_pow(1) == (2int, 1268011823int),
    ensures
        gen_pow(256) == (421007138int, 256177860int),
{
    lemma_square_step(1, (2, 1268011823), (7, 777079998));
    lemma_square_step(2, (7, 777079998), (97, 141701737));
    lemma_square_step(4, (97, 141701737), (18817, 1720333214));
    lemma_square_step(8, (18817, 1720333214), (708158977, 683185920));
    lemma_square_step(16, (708158977, 683185920), (334835419, 1444967316));
    lemma_square_step(32, (334835419, 1444967316), (2042371533, 1362265296));
    lemma_square_step(64, (2042371533, 1362265296), (212706801, 1223819887));
    lemma_square_step(128, (212706801, 1223819887), (421007138, 256177860));
}

proof fn lemma_second_squarings()
    requires
        gen_pow(256) == (421007138int, 256177860int),
    ensures
        gen_pow(65536) == (1543902459int, 1632329423int),
{
    lemma_square_step(256, (421007138, 256177860), (6346213, 905523693));
    lemma_square_step(512, (6346213, 905523693), (1022251061, 788094511));
    lemma_square_step(1024, (1022251061, 788094511), (1633461177, 574296567));
    lemma_square_step(2048, (1633461177, 574296567), (595037635, 2111542451));
    lemma_square_step(4096, (595037635, 2111542451), (1799120754, 343598868));
    lemma_square_step(8192, (1799120754, 343598868), (438833264, 1327019128));
    lemma_square_step(16384, (438833264, 1327019128), (1389168750, 838891026));
    lemma_square_step(32768, (1389168750, 838891026), (1543902459, 1632329423));
}

proof fn lemma_third_squarings()
    requires
        gen_pow(65536) == (1543902459int, 1632329423int),
    ensures
        gen_pow(16777216) == (838195206int, 1774253895int),
{
    lemma_square_step(65536, (1543902459, 1632329423), (1330239767, 1446369578));
    lemma_square_step(131072, (1330239767, 1446369578), (1420207432, 2023238517));
    lemma_square_step(262144, (1420207432, 2023238517), (2015554631, 1088093947));
    lemma_square_step(524288, (2015554631, 1088093947), (996212859, 1140996376));
    lemma_square_step(1048576, (996212859, 1140996376), (1434706457, 1835793811));
    lemma_square_step(2097152, (1434706457, 1835793811), (13610297, 1064696601));
    lemma_square_step(4194304, (13610297, 1064696601), (785043271, 1260750973));
    lemma_square_step(8388608, (785043271, 1260750973), (838195206, 1774253895));
}

proof fn lemma_last_squarings()
    requires
        gen_pow(16777216) == (838195206int, 1774253895int),
    ensures
        gen_pow(2147483648) == (1int, 0int),
        gen_pow(536870912) == (0int, 2147483646int),
        gen_pow(1073741824) == (2147483646int, 0int),
{
    lemma_square_step(16777216, (838195206, 1774253895), (579625837, 1690787918));
    lemma_square_step(33554432, (579625837, 1690787918), (1179735656, 1241207368));
    lemma_square_step(67108864, (1179735656, 1241207368), (590768354, 978592373));
    lemma_square_step(134217728, (590768354, 978592373), (32768, 2147450879));
    lemma_square_step(268435456, (32768, 2147450879), (0, 2147483646));
    lemma_square_step(536870912, (0, 2147483646), (2147483646, 0));
    lemma_square_step(1073741824, (2147483646, 0), (1, 0));
}

/// The generator has order `2^31`; a quarter of the way round it is `-i`, half way `-1`.
pub proof fn lemma_circle_gen_order()
    ensures
        gpow(circle_gen(), 0x2000_0000, P as int) == (0int, P - 1),
        gpow(circle_gen(), 0x4000_0000, P as int) == (P - 1, 0int),
        gpow(circle_gen(), 0x8000_0000, P as int) == (1int, 0int),
{
    assert(gen_pow(1) == circle_gen()) by {
        reveal(gen_pow);
        assert(gpow(circle_gen(), 0, P as int) == (1int, 0int));
        lemma_gmul_comm((1, 0), circle_gen(), P as int);
        lemma_gmul_one(circle_gen(), P as int);
        assert(gpow(circle_gen(), 1, P as int) == gmul(
            gpow(circle_gen(), 0, P as int),
            circle_gen(),
            P as int,
        ));
    }
    lemma_first_squarings();
    lemma_second_squarings();
    lemma_third_squarings();
    lemma_last_squarings();
    reveal(gen_pow);
}

/// `2^k` for the exponents used below.
spec fn two_pow(k: nat) -> nat
    decreases k,
{
    if k == 0 {
        1
    } else {
        2 * two_pow((k - 1) as nat)
    }
}

/// A power of the generator below its order is not one, modulo any odd `q` dividing `P`.
proof fn lemma_no_short_order(base: Gauss, j: nat, d: nat, q: int)
    requires
        q > 2,
        gpow(base, two_pow(j), q) == (q - 1, 0int),
        0 < d < two_pow((j + 1) as nat),
    ensures
        gpow(base, d, q) != (1int, 0int),
    decreases j,
{
    if d % 2 == 1 {
        if gpow(base, d, q) == (1int, 0int) {
            lemma_gpow_mul(base, d, two_pow(j), q);
            lemma_gpow_mul(base, two_pow(j), d, q);
            lemma_mul_is_commutative(d as int, two_pow(j) as int);
            lemma_neg_one_odd_power(d, q);
            lemma_one_power(two_pow(j), q);
            assert(false);
        }
    } else {
        assert(j > 0) by {
            if j == 0 {
                assert(two_pow(1) == 2 * two_pow(0));
            }
        }
        let half: nat = d / 2;
        let sq = gpow(base, 2, q);
        lemma_gpow_mul(base, 2, half, q);
        assert(2 * half == d);
        let j1 = (j - 1) as nat;
        lemma_gpow_mul(base, 2, two_pow(j1), q);
        assert(two_pow(j) == 2 * two_pow(j1));
        assert(two_pow((j + 1) as nat) == 2 * two_pow(j));
        lemma_no_short_order(sq, j1, half, q);
    }
}

proof fn lemma_one_power(n: nat, m: int)
    requires
        m > 1,
    ensures
        gpow((1, 0), n, m) == (1int, 0int),
    decreases n,
{
    lemma_small_mod(1, m as nat);
    lemma_small_mod(0, m as nat);
    if n > 0 {
        lemma_one_power((n - 1) as nat, m);
        lemma_gmul_one((1, 0), m);
    }
}

proof fn lemma_two_pow_values()
    ensures
        two_pow(30) == 0x4000_0000,
        two_pow(31) == 0x8000_0000,
{
    reveal_with_fuel(two_pow, 32);
}

/// `P` has no divisor `q` with `1 < q` and `q^2 <= P`.
proof fn lemma_no_small_divisor(q: int, k: int)
    requires
        q * k == P,
        q > 1,
        k > 0,
    ensures
        q * q > P,
{
    let g = circle_gen();
    let n: int = 0x8000_0000;
    assert(q > 2) by {
        if q == 2 {
            assert(2 * k == P);
            assert(false);
        }
    }
    lemma_circle_gen_order();
    lemma_two_pow_values();
    lemma_gpow_divisor(g, 0x4000_0000, q, k);
    assert(gpow(g, 0x4000_0000, q) == (q - 1, 0int)) by {
        assert((P - 1) == q * (k - 1) + (q - 1)) by (nonlinear_arith)
            requires
                q * k == P,
        ;
        lemma_fundamental_div_mod_converse(P - 1, q, k - 1, q - 1);
        lemma_small_mod(0, q as nat);
    }
    let dom = set_int_range(0, n);
    let f = |e: int| gpow(g, e as nat, q).0 * q + gpow(g, e as nat, q).1;
    lemma_int_range(0, n);
    lemma_int_range(0, q * q);
    assert(injective_on(f, dom)) by {
        assert forall|e1: int, e2: int|
            dom.contains(e1) && dom.contains(e2) && #[trigger] f(e1) == #[trigger] f(e2) implies e1
            == e2 by {
            lemma_powers_distinct(e1, e2, q);
        }
    }
    let img = dom.map(f);
    lemma_map_size(dom, img, f);
    assert(img.subset_of(set_int_range(0, q * q))) by {
        assert forall|v: int| img.contains(v) implies set_int_range(0, q * q).contains(v) by {
            let e = choose|e: int| dom.contains(e) && f(e) == v;
            lemma_gpow_reduced(g, e as nat, q);
            let z = gpow(g, e as nat, q);
            assert(0 <= z.0 * q + z.1 < q * q) by (nonlinear_arith)
                requires
                    0 <= z.0 < q,
                    0 <= z.1 < q,
            ;
        }
    }
    lemma_len_subset(img, set_int_range(0, q * q));
}

/// Distinct exponents below the order give distinct powers of the generator.
pub proof fn lemma_generator_injective(lo: nat, hi: nat)
    requires
        lo < hi < 0x8000_0000,
    ensures
        gpow(circle_gen(), lo, P as int) != gpow(circle_gen(), hi, P as int),
{
    lemma_circle_gen_order();
    lemma_power_difference(lo, hi, P as int);
}

/// Distinct exponents below the order give distinct powers modulo `q`.
proof fn lemma_powers_distinct(e1: int, e2: int, q: int)
    requires
        q > 2,
        gpow(circle_gen(), 0x4000_0000, q) == (q - 1, 0int),
        0 <= e1 < 0x8000_0000,
        0 <= e2 < 0x8000_0000,
        gpow(circle_gen(), e1 as nat, q).0 * q + gpow(circle_gen(), e1 as nat, q).1 == gpow(
            circle_gen(),
            e2 as nat,
            q,
        ).0 * q + gpow(circle_gen(), e2 as nat, q).1,
    ensures
        e1 == e2,
{
    let g = circle_gen();
    let z1 = gpow(g, e1 as nat, q);
    let z2 = gpow(g, e2 as nat, q);
    lemma_gpow_reduced(g, e1 as nat, q);
    lemma_gpow_reduced(g, e2 as nat, q);
    lemma_fundamental_div_mod_converse(z1.0 * q + z1.1, q, z1.0, z1.1);
    lemma_fundamental_div_mod_converse(z2.0 * q + z2.1, q, z2.0, z2.1);
    lemma_mul_is_commutative(q, z1.0);
    lemma_mul_is_commutative(q, z2.0);
    assert(z1 == z2);
    if e1 < e2 {
        lemma_power_difference(e1 as nat, e2 as nat, q);
    } else if e2 < e1 {
        lemma_power_difference(e2 as nat, e1 as nat, q);
    }
}

proof fn lemma_power_difference(lo: nat, hi: nat, q: int)
    requires
        q > 2,
        gpow(circle_gen(), 0x4000_0000, q) == (q - 1, 0int),
        lo < hi < 0x8000_0000,
    ensures
        gpow(circle_gen(), lo, q) != gpow(circle_gen(), hi, q),
{
    let g = circle_gen();
    let n: nat = 0x8000_0000;
    lemma_two_pow_values();
    // Completing both to the full order leaves `g^(hi - lo)` equal to one.
    let d = (hi - lo) as nat;
    let c = (n - lo) as nat;
    lemma_gpow_add(g, lo, c, q);
    lemma_gpow_add(g, hi, c, q);
    assert(lo + c == n);
    assert(hi + c == n + d);
    lemma_gpow_add(g, n, d, q);
    assert(gpow(g, n, q) == (1int, 0int)) by {
        lemma_gpow_mul(g, 0x4000_0000, 2, q);
        let e: Gauss = (q - 1, 0);
        assert(gpow(e, 0, q) == (1int % q, 0int));
        assert(gpow(e, 1, q) == gmul(gpow(e, 0, q), e, q));
        assert(gpow(e, 2, q) == gmul(gpow(e, 1, q), e, q));
        lemma_neg_one_odd_power(1, q);
        assert((q - 1) * (q - 1) == q * (q - 2) + 1) by (nonlinear_arith);
        lemma_fundamental_div_mod_converse((q - 1) * (q - 1), q, q - 2, 1);
        assert((q - 1) * 0 + 0 * (q - 1) == 0);
        lemma_small_mod(0, q as nat);
    }
    lemma_gmul_comm((1, 0), gpow(g, d, q), q);
    lemma_gmul_one(gpow(g, d, q), q);
    lemma_gpow_reduced(g, d, q);
    assert(gpow(g, lo, q) == gpow(g, hi, q) ==> gpow(g, d, q) == (1int, 0int));
    lemma_no_short_order(g, 30, d, q);
}

/// `P` is prime: its only divisors are one and itself.
pub proof fn lemma_p_prime(d: int, k: int)
    requires
        d > 0,
        d * k == P,
    ensures
        d == 1 || d == P,
{
    assert(k > 0) by (nonlinear_arith)
        requires
            d > 0,
            d * k == 2147483647,
    ;
    if d != 1 && k != 1 {
        if d * d <= P {
            lemma_no_small_divisor(d, k);
        } else {
            assert(k * k <= P) by (nonlinear_arith)
                requires
                    d > 0,
                    k > 0,
                    d * k == 2147483647,
                    d * d > 2147483647,
            ;
            lemma_mul_is_commutative(d, k);
            lemma_no_small_divisor(k, d);
        }
    }
}

/// The greatest common divisor as a combination of its arguments.
pub proof fn lemma_bezout(a: int, b: int) -> (r: (int, int, int))
    requires
        a > 0,
        b >= 0,
    ensures
        r.0 * a + r.1 * b == r.2,
        r.2 > 0,
        a % r.2 == 0,
        b % r.2 == 0,
    decreases b,
{
    if b == 0 {
        vstd::arithmetic::div_mod::lemma_mod_self_0(a);
        lemma_small_mod(0, a as nat);
        (1, 0, a)
    } else {
        lemma_mod_bound(a, b);
        let (s, t, g) = lemma_bezout(b, a % b);
        lemma_fundamental_div_mod(a, b);
        let q = a / b;
        assert(t * a + (s - t * q) * b == g) by (nonlinear_arith)
            requires
                s * b + t * (a % b) == g,
                a == b * q + a % b,
        ;
        assert(a % g == 0) by {
            lemma_fundamental_div_mod(b, g);
            lemma_fundamental_div_mod(a % b, g);
            let kb = b / g;
            let kr = (a % b) / g;
            assert(a == g * (kb * q + kr) + 0) by (nonlinear_arith)
                requires
                    a == b * q + a % b,
                    b == g * kb,
                    a % b == g * kr,
            ;
            lemma_fundamental_div_mod_converse(a, g, kb * q + kr, 0);
        }
        (t, s - t * q, g)
    }
}

/// Every non-zero residue has an inverse.
pub proof fn lemma_inverse_exists(x: int)
    requires
        0 < x < P,
    ensures
        exists|y: int| 0 <= y < P && #[trigger] (x * y) % (P as int) == 1,
{
    let (s, t, g) = lemma_bezout(P as int, x);
    lemma_fundamental_div_mod(P as int, g);
    lemma_fundamental_div_mod(x, g);
    lemma_p_prime(g, P as int / g);
    assert(g == 1) by {
        if g == P {
            lemma_small_mod(x as nat, P as nat);
        }
    }
    let y = t % (P as int);
    lemma_mod_bound(t, P as int);
    lemma_mul_mod_noop_right(x, t, P as int);
    lemma_mul_is_commutative(x, t);
    lemma_mul_is_commutative(s, P as int);
    assert(t * x == (P as int) * (-s) + 1) by (nonlinear_arith)
        requires
            s * (2147483647int) + t * x == 1,
    ;
    lemma_mod_multiples_vanish(-s, 1, P as int);
    assert((x * y) % (P as int) == 1);
}

/// A product of residues vanishes only if a factor does.
pub proof fn lemma_no_zero_divisors(x: int, y: int)
    requires
        0 <= x < P,
        0 <= y < P,
        (x * y) % (P as int) == 0,
    ensures
        x == 0 || y == 0,
{
    if x != 0 {
        lemma_inverse_exists(x);
        let w = choose|w: int| 0 <= w < P && #[trigger] (x * w) % (P as int) == 1;
        lemma_mul_mod_noop_right(w, x * y, P as int);
        lemma_mul_mod_noop_left(x * w, y, P as int);
        assert(w * (x * y) == (x * w) * y) by (nonlinear_arith);
        lemma_small_mod(y as nat, P as nat);
        assert(w * ((x * y) % (P as int)) == 0) by (nonlinear_arith)
            requires
                (x * y) % (P as int) == 0,
        ;
        assert(((x * w) % (P as int)) * y == y) by (nonlinear_arith)
            requires
                (x * w) % (P as int) == 1,
        ;
    }
}

} // verus!
