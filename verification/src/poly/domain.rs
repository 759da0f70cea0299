//! Evaluation domains on the circle.

use vstd::arithmetic::div_mod::lemma_fundamental_div_mod;
use vstd::arithmetic::mul::{lemma_mul_is_commutative, lemma_mul_is_distributive_add};
use vstd::arithmetic::power2::{lemma_pow2_adds, lemma_pow2_pos, pow2};
use vstd::prelude::*;

use crate::circle::{
    circle_order, coset_s, double_x_iter, gen_point, lemma_gen_point_double_x,
    lemma_gen_point_half_turn, lemma_gen_point_period, lemma_gen_point_quarter_turn,
    lemma_step_small, lemma_step_times_size, subgroup_step, CirclePoint, CirclePointIndex, Coset,
};
use crate::fields::m31::M31;
use crate::fields::Field;
use crate::utils::{
    bit_rev, lemma_bit_rev_range, lemma_bit_rev_split, lemma_pow2_bound, lemma_pow2_double,
    pow2_usize,
};

verus! {

/// A half coset together with its reflection in the `x` axis.
#[derive(Clone, Copy, Debug, PartialEq, Eq, Structural)]
pub struct CircleDomain {
    pub half_coset: Coset,
}

impl CircleDomain {
    pub open spec fn wf(self) -> bool {
        self.half_coset.wf() && self.half_coset.log_size <= 30
    }

    pub open spec fn log_size_s(self) -> nat {
        (self.half_coset.log_size + 1) as nat
    }

    pub open spec fn size_s(self) -> nat {
        pow2(self.log_size_s())
    }

    /// The `i`-th point: first the half coset, then its reflections.
    pub open spec fn at_s(self, i: int) -> CirclePoint<M31> {
        if i < self.half_coset.size_s() {
            self.half_coset.at_s(i)
        } else {
            self.half_coset.at_s(i - self.half_coset.size_s()).reflected()
        }
    }

    /// The point at place `j` of the bit-reversed order.
    pub open spec fn reversed_at(self, j: int) -> CirclePoint<M31> {
        self.at_s(bit_rev(j, self.log_size_s()))
    }

    pub fn new(half_coset: Coset) -> (r: CircleDomain)
        ensures
            r.half_coset == half_coset,
    {
        CircleDomain { half_coset }
    }

    pub fn log_size(&self) -> (r: u32)
        requires
            self.wf(),
        ensures
            r == self.log_size_s(),
    {
        self.half_coset.log_size + 1
    }

    pub fn size(&self) -> (r: usize)
        requires
            self.wf(),
        ensures
            r == self.size_s(),
    {
        pow2_usize(self.half_coset.log_size + 1)
    }

    /// The `i`-th point.
    pub fn at(&self, i: usize) -> (r: CirclePoint<M31>)
        requires
            self.wf(),
            i < self.size_s(),
        ensures
            r == self.at_s(i as int),
    {
        let half = self.half_coset.size();
        proof {
            lemma_pow2_double(self.log_size_s());
            lemma_pow2_bound(self.half_coset.log_size as nat);
        }
        if i < half {
            self.half_coset.at(i)
        } else {
            self.half_coset.at(i - half).conjugate()
        }
    }

    /// The domain moved by a point.
    pub fn shift(&self, by: CirclePointIndex) -> (r: CircleDomain)
        requires
            self.wf(),
            by.wf(),
        ensures
            r.half_coset == coset_s(
                (self.half_coset.initial_index.0 + by.0) % circle_order() as int,
                self.half_coset.log_size as nat,
            ),
            r.wf(),
    {
        CircleDomain { half_coset: self.half_coset.shift(by) }
    }

    /// The subdomain of every `2^log_parts`-th point, and the shift between neighbouring
    /// subdomains of that size.
    pub fn split(&self, log_parts: u32) -> (r: (CircleDomain, CirclePointIndex))
        requires
            self.wf(),
            log_parts <= self.half_coset.log_size,
        ensures
            r.0.half_coset == coset_s(
                self.half_coset.initial_index.0 as int,
                (self.half_coset.log_size - log_parts) as nat,
            ),
            r.0.wf(),
            r.1 == self.half_coset.step_size,
    {
        let subdomain = CircleDomain {
            half_coset: Coset::new(
                self.half_coset.initial_index,
                self.half_coset.log_size - log_parts,
            ),
        };
        (subdomain, self.half_coset.step_size)
    }
}

/// The coset of the odd multiples of a subgroup generator.
#[derive(Clone, Copy, Debug, PartialEq, Eq, Structural)]
pub struct CanonicCoset {
    pub coset: Coset,
}

impl CanonicCoset {
    pub open spec fn wf(self) -> bool {
        &&& 0 < self.coset.log_size <= 30
        &&& self.coset == coset_s(
            subgroup_step((self.coset.log_size + 1) as nat) as int,
            self.coset.log_size as nat,
        )
        &&& self.coset.wf()
    }

    /// The domain of the same points, as a half coset and its reflection.
    pub open spec fn circle_domain_s(self) -> CircleDomain {
        canonic_domain(self.coset.log_size as nat)
    }

    pub fn new(log_size: u32) -> (r: CanonicCoset)
        requires
            0 < log_size <= 30,
        ensures
            r.wf(),
            r.coset.log_size == log_size,
    {
        CanonicCoset { coset: Coset::odds(log_size) }
    }

    pub fn log_size(&self) -> (r: u32)
        ensures
            r == self.coset.log_size,
    {
        self.coset.log_size
    }

    pub fn size(&self) -> (r: usize)
        requires
            self.wf(),
        ensures
            r == self.coset.size_s(),
    {
        self.coset.size()
    }

    pub fn half_coset(&self) -> (r: Coset)
        requires
            self.wf(),
        ensures
            r == self.circle_domain_s().half_coset,
            r.wf(),
    {
        Coset::half_odds(self.coset.log_size - 1)
    }

    pub fn circle_domain(&self) -> (r: CircleDomain)
        requires
            self.wf(),
        ensures
            r == self.circle_domain_s(),
            r.wf(),
            r.log_size_s() == self.coset.log_size,
    {
        CircleDomain { half_coset: self.half_coset() }
    }
}

/// The canonical domain of the given size.
pub open spec fn canonic_domain(log_size: nat) -> CircleDomain {
    CircleDomain {
        half_coset: coset_s(subgroup_step((log_size + 1) as nat) as int, (log_size - 1) as nat),
    }
}

pub proof fn lemma_canonic_domain_wf(log_size: nat)
    requires
        0 < log_size <= 30,
    ensures
        canonic_domain(log_size).wf(),
        canonic_domain(log_size).log_size_s() == log_size,
{
    lemma_step_small((log_size + 1) as nat);
    lemma_pow2_bound((31 - (log_size - 1)) as nat);
    vstd::arithmetic::div_mod::lemma_mod_bound(
        subgroup_step((log_size - 1) as nat) as int,
        circle_order() as int,
    );
}

/// The points of a repeatedly doubled coset are the doubles of the points.
pub proof fn lemma_doubled_at(c: Coset, d: nat, k: int)
    requires
        c.wf(),
        d <= c.log_size,
        0 <= k,
    ensures
        c.repeated_double_s(d).at_s(k) == gen_point(pow2(d) * c.index_s(k)),
        c.repeated_double_s(d).wf(),
{
    let n = circle_order() as int;
    let a = (pow2(d) * c.initial_index.0) as int;
    let l = c.log_size as nat;
    let s = subgroup_step(l) as int;
    let s2 = subgroup_step((l - d) as nat) as int;
    lemma_pow2_adds((31 - l) as nat, d);
    assert((31 - l) + d == 31 - (l - d));
    assert(s2 == s * pow2(d));
    vstd::arithmetic::div_mod::lemma_mod_bound(a, n);
    vstd::arithmetic::div_mod::lemma_mod_bound(s2, n);
    let q = a / n;
    lemma_fundamental_div_mod(a, n);
    assert(a >= 0) by (nonlinear_arith)
        requires
            a == pow2(d) * c.initial_index.0,
            pow2(d) >= 0,
            c.initial_index.0 >= 0,
    ;
    vstd::arithmetic::div_mod::lemma_div_pos_is_pos(a, n);
    let idx2 = c.repeated_double_s(d).index_s(k);
    assert(k * s >= 0 && k * s2 >= 0) by (nonlinear_arith)
        requires
            k >= 0,
            s >= 0,
            s2 >= 0,
    ;
    assert(c.repeated_double_s(d).initial_index.0 as int == a % n);
    assert(idx2 == a % n + k * s2);
    let p2 = pow2(d) as int;
    let i0 = c.initial_index.0 as int;
    assert(p2 * (i0 + k * s) == a + k * s2) by (nonlinear_arith)
        requires
            a == p2 * i0,
            s2 == s * p2,
    ;
    assert((pow2(d) * c.index_s(k)) as int == a + k * s2);
    assert((pow2(d) * c.index_s(k)) as int == idx2 + n * q);
    lemma_gen_point_period(idx2, q as nat);
}

/// The factor that digit `i` of a coefficient index contributes at the point `(x, y)`:
/// `y` for the lowest digit, and the repeatedly doubled `x` above it.
pub open spec fn mapping_at<F: Field>(x: F, y: F, i: int) -> F {
    if i <= 0 {
        y
    } else {
        double_x_iter(x, (i - 1) as nat)
    }
}

/// The points at places `2 q` and `2 q + 1` are reflections of each other.
pub proof fn lemma_reversed_pair(d: CircleDomain, q: int)
    requires
        d.wf(),
        0 <= q < d.half_coset.size_s(),
    ensures
        d.reversed_at(2 * q) == d.half_coset.at_s(bit_rev(q, d.half_coset.log_size as nat)),
        d.reversed_at(2 * q + 1) == d.half_coset.at_s(
            bit_rev(q, d.half_coset.log_size as nat),
        ).reflected(),
{
    let l = d.half_coset.log_size as nat;
    assert(d.log_size_s() - 1 == l);
    lemma_bit_rev_range(q, l);
    assert((2 * q) % 2 == 0 && (2 * q) / 2 == q);
    assert((2 * q + 1) % 2 == 1 && (2 * q + 1) / 2 == q);
    assert(0 * pow2(l) == 0);
    assert(1 * pow2(l) == pow2(l));
}

/// The `x` coordinate at place `j` of a domain in bit-reversed order, doubled `i - 1` times, is
/// the twiddle of block `j / 2^(i+1)`, with the sign that digit `i` of `j` tells.
pub proof fn lemma_line_mapping(d: CircleDomain, j: int, i: nat)
    requires
        d.wf(),
        0 <= j < d.size_s(),
        1 <= i <= d.half_coset.log_size,
    ensures
        ({
            let l = d.half_coset.log_size as nat;
            let t = d.half_coset.repeated_double_s((i - 1) as nat).at_s(
                bit_rev(j / (pow2((i + 1) as nat) as int), (l - i) as nat),
            ).x;
            let p = d.reversed_at(j);
            mapping_at(p.x, p.y, i as int) == if (j / (pow2(i) as int)) % 2 == 0 {
                t
            } else {
                t.opposite()
            }
        }),
{
    let h = d.half_coset;
    let l = h.log_size as nat;
    let q = j / 2;
    lemma_pow2_double(d.log_size_s());
    lemma_reversed_pair(d, q);
    assert(j == 2 * q || j == 2 * q + 1);
    let i1 = (i - 1) as nat;
    let big = (l - i + 1) as nat;
    let small = (l - i) as nat;
    let p1 = pow2(i1) as int;
    lemma_pow2_pos(i1);
    let low = q % p1;
    let r = q / p1;
    lemma_fundamental_div_mod(q, p1);
    vstd::arithmetic::div_mod::lemma_mod_bound(q, p1);
    vstd::arithmetic::div_mod::lemma_div_pos_is_pos(q, p1);
    lemma_bit_rev_split(low, r, i1, big);
    assert(i1 + big == l);
    let a = bit_rev(low, i1);
    let dgt = r % 2;
    let b = bit_rev(r / 2, small);
    lemma_bit_rev_range(low, i1);
    lemma_bit_rev_range(r / 2, small);
    assert((big - 1) as nat == small);
    let k = bit_rev(q, l);
    assert(k == a * pow2(big) + (dgt * pow2(small) + b));
    // j / 2^i = r and j / 2^(i+1) = r / 2
    lemma_pow2_double(i);
    lemma_pow2_double((i + 1) as nat);
    vstd::arithmetic::div_mod::lemma_div_denominator(j, 2, p1);
    lemma_mul_is_commutative(2, p1);
    assert(j / (pow2(i) as int) == r);
    vstd::arithmetic::div_mod::lemma_div_denominator(j, pow2(i) as int, 2);
    lemma_mul_is_commutative(2, pow2(i) as int);
    assert(j / (pow2((i + 1) as nat) as int) == r / 2);
    // indices
    let s = subgroup_step(l) as int;
    let init = h.initial_index.0 as int;
    lemma_step_times_size(l);
    lemma_pow2_adds(i1, big);
    lemma_pow2_double(big);
    let n = circle_order() as int;
    let idx_k = h.index_s(k);
    let idx_b = h.index_s(b);
    let pb = pow2(big) as int;
    let ps = pow2(small) as int;
    assert(p1 * pb * s == n) by (nonlinear_arith)
        requires
            s * pow2(l) == n,
            pow2(l) == p1 * pb,
    ;
    assert(p1 * ps * s == 0x4000_0000) by (nonlinear_arith)
        requires
            p1 * pb * s == 0x8000_0000,
            pb == 2 * ps,
    ;
    assert(k * s >= 0 && b * s >= 0 && a * pb >= 0) by (nonlinear_arith)
        requires
            k >= 0,
            b >= 0,
            s >= 0,
            a >= 0,
            pb >= 0,
    ;
    assert(idx_k as int == init + k * s);
    assert(idx_b as int == init + b * s);
    let u = (a * pb) * s;
    let v = (dgt * ps) * s;
    assert(k * s == u + v + b * s) by {
        lemma_mul_is_distributive_add(s, a * pb, dgt * ps + b);
        lemma_mul_is_distributive_add(s, dgt * ps, b);
        lemma_mul_is_commutative(s, k);
        lemma_mul_is_commutative(s, a * pb);
        lemma_mul_is_commutative(s, dgt * ps + b);
        lemma_mul_is_commutative(s, dgt * ps);
        lemma_mul_is_commutative(s, b);
    }
    assert(p1 * u == a * (p1 * pb * s)) by (nonlinear_arith)
        requires
            u == (a * pb) * s,
    ;
    assert(p1 * v == dgt * (p1 * ps * s)) by (nonlinear_arith)
        requires
            v == (dgt * ps) * s,
    ;
    assert(p1 * (init + k * s) == p1 * (init + b * s) + p1 * u + p1 * v) by {
        lemma_mul_is_distributive_add(p1, init + b * s, u + v);
        lemma_mul_is_distributive_add(p1, u, v);
        assert(init + k * s == (init + b * s) + (u + v));
    }
    let base = (pow2(i1) * idx_b) as int;
    assert(base >= 0);
    assert((pow2(i1) * idx_k) as int == base + n * a + dgt * 0x4000_0000) by {
        lemma_mul_is_commutative(a, n);
    }
    lemma_gen_point_double_x(idx_k, i1);
    lemma_doubled_at(h, i1, b);
    assert(h.repeated_double_s(i1).at_s(b) == gen_point(base as nat));
    if dgt == 0 {
        lemma_gen_point_period(base as nat, a as nat);
    } else {
        assert(dgt == 1);
        lemma_gen_point_period((base + 0x4000_0000) as nat, a as nat);
        lemma_gen_point_half_turn(base as nat);
    }
}

/// The four points at places `4 a .. 4 a + 4` of a coset in bit-reversed order are the rotations
/// of one of them by quarter turns; their `y` coordinates follow from two `x` coordinates.
pub proof fn lemma_circle_twiddle(h: Coset, a: int)
    requires
        h.wf(),
        h.log_size >= 2,
        0 <= a,
        4 * a < h.size_s(),
    ensures
        ({
            let l = h.log_size as nat;
            let x = h.at_s(bit_rev(2 * a, (l - 1) as nat)).x;
            let y = h.at_s(bit_rev(2 * a + 1, (l - 1) as nat)).x;
            &&& h.at_s(bit_rev(4 * a, l)).y == y
            &&& h.at_s(bit_rev(4 * a + 1, l)).y == y.opposite()
            &&& h.at_s(bit_rev(4 * a + 2, l)).y == x.opposite()
            &&& h.at_s(bit_rev(4 * a + 3, l)).y == x
        }),
{
    let l = h.log_size as nat;
    let l1 = (l - 1) as nat;
    let l2 = (l - 2) as nat;
    let b = bit_rev(a, l2);
    lemma_bit_rev_range(a, l2);
    let p1 = pow2(l1) as int;
    let p2 = pow2(l2) as int;
    reveal_with_fuel(bit_rev, 3);
    assert((4 * a) / 2 == 2 * a && (4 * a) % 2 == 0);
    assert((4 * a + 1) / 2 == 2 * a && (4 * a + 1) % 2 == 1);
    assert((4 * a + 2) / 2 == 2 * a + 1 && (4 * a + 2) % 2 == 0);
    assert((4 * a + 3) / 2 == 2 * a + 1 && (4 * a + 3) % 2 == 1);
    assert((2 * a) / 2 == a && (2 * a) % 2 == 0);
    assert((2 * a + 1) / 2 == a && (2 * a + 1) % 2 == 1);
    assert(bit_rev(2 * a, l1) == b);
    assert(bit_rev(2 * a + 1, l1) == p2 + b);
    assert(bit_rev(4 * a, l) == b);
    assert(bit_rev(4 * a + 1, l) == p1 + b);
    assert(bit_rev(4 * a + 2, l) == p2 + b);
    assert(bit_rev(4 * a + 3, l) == p1 + p2 + b);
    let s = subgroup_step(l) as int;
    lemma_step_times_size(l);
    lemma_pow2_double(l);
    lemma_pow2_double(l1);
    assert(s * p1 == 0x4000_0000 && s * p2 == 0x2000_0000) by (nonlinear_arith)
        requires
            s * pow2(l) == 0x8000_0000,
            pow2(l) == 2 * p1,
            p1 == 2 * p2,
    ;
    let base = h.index_s(b) as int;
    let init = h.initial_index.0 as int;
    assert(b * s >= 0) by (nonlinear_arith)
        requires
            b >= 0,
            s >= 0,
    ;
    assert((p2 + b) * s == 0x2000_0000 + b * s) by (nonlinear_arith)
        requires
            s * p2 == 0x2000_0000,
    ;
    assert((p1 + b) * s == 0x4000_0000 + b * s) by (nonlinear_arith)
        requires
            s * p1 == 0x4000_0000,
    ;
    assert((p1 + p2 + b) * s == 0x6000_0000 + b * s) by (nonlinear_arith)
        requires
            s * p1 == 0x4000_0000,
            s * p2 == 0x2000_0000,
    ;
    assert(h.index_s(b) as int == base);
    assert(h.index_s(p2 + b) as int == base + 0x2000_0000);
    assert(h.index_s(p1 + b) as int == base + 0x4000_0000);
    assert(h.index_s(p1 + p2 + b) as int == base + 0x6000_0000);
    lemma_gen_point_quarter_turn(base as nat);
    lemma_gen_point_half_turn(base as nat);
    lemma_gen_point_half_turn((base + 0x2000_0000) as nat);
    crate::circle::lemma_gen_point_canonical(base as nat);
    crate::fields::lemma_opposite_twice(gen_point(base as nat).x);
}

} // verus!
