//! Powers of two and bit-reversed orders.

use vstd::arithmetic::div_mod::lemma_fundamental_div_mod;
use vstd::arithmetic::mul::lemma_mul_is_commutative;
use vstd::arithmetic::power2::{
    lemma2_to64, lemma_pow2_adds, lemma_pow2_pos, lemma_pow2_strictly_increases, lemma_pow2_unfold,
    pow2,
};
use vstd::prelude::*;

verus! {

/// `2^k` in a machine word.
pub fn pow2_usize(k: u32) -> (r: usize)
    requires
        k <= 31,
    ensures
        r == pow2(k as nat),
        r >= 1,
{
    proof {
        lemma2_to64();
        lemma_pow2_pos(k as nat);
        if k < 31 {
            lemma_pow2_strictly_increases(k as nat, 31);
        }
        vstd::bits::lemma_usize_shl_is_mul(1, k as usize);
        assert(1 * pow2(k as nat) == pow2(k as nat));
    }
    1usize << (k as usize)
}

pub proof fn lemma_pow2_bound(k: nat)
    requires
        k <= 31,
    ensures
        1 <= pow2(k) <= 0x8000_0000,
{
    lemma2_to64();
    lemma_pow2_pos(k);
    if k < 31 {
        lemma_pow2_strictly_increases(k, 31);
    }
}

pub proof fn lemma_pow2_le(a: nat, b: nat)
    requires
        a <= b,
    ensures
        1 <= pow2(a) <= pow2(b),
{
    lemma_pow2_pos(a);
    if a < b {
        lemma_pow2_strictly_increases(a, b);
    }
}

/// `2^k = 2 * 2^(k-1)`.
pub proof fn lemma_pow2_double(k: nat)
    requires
        k > 0,
    ensures
        pow2(k) == 2 * pow2((k - 1) as nat),
        pow2((k - 1) as nat) >= 1,
{
    lemma_pow2_unfold(k);
    lemma_pow2_pos((k - 1) as nat);
}

/// The largest `r` with `2^r <= n`, for a positive `n`.
pub open spec fn floor_log(n: nat) -> nat
    decreases n,
{
    if n <= 1 {
        0
    } else {
        1 + floor_log(n / 2)
    }
}

/// A positive number lies between its largest power of two and the next.
pub proof fn lemma_floor_log(n: nat, r: nat)
    requires
        pow2(r) <= n < pow2(r + 1),
    ensures
        floor_log(n) == r,
    decreases r,
{
    lemma2_to64();
    if r > 0 {
        lemma_pow2_double(r);
        lemma_pow2_double(r + 1);
        lemma_pow2_pos((r - 1) as nat);
        lemma_floor_log(n / 2, (r - 1) as nat);
    }
}

/// The largest `r` with `2^r <= n`.
pub fn ilog2(n: usize) -> (r: u32)
    requires
        n > 0,
    ensures
        r == floor_log(n as nat),
        pow2(r as nat) <= n < pow2((r + 1) as nat),
        n <= 0x8000_0000 ==> r <= 31,
        r < 64,
{
    let mut r: u32 = 0;
    let mut m: usize = n;
    proof {
        lemma2_to64();
        lemma_fundamental_div_mod(n as int, 1);
        assert(n as int / 1 == n);
    }
    while m > 1
        invariant
            m >= 1,
            r < 64,
            m * pow2(r as nat) <= n < (m + 1) * pow2(r as nat),
        decreases m,
    {
        let ghost m0 = m as int;
        let ghost p0 = pow2(r as nat) as int;
        let ghost r0 = r;
        proof {
            lemma_pow2_double((r + 1) as nat);
            let h = m0 / 2;
            assert(h * (2 * p0) <= m0 * p0) by (nonlinear_arith)
                requires
                    2 * h <= m0,
                    p0 >= 0,
            ;
            assert((h + 1) * (2 * p0) >= (m0 + 1) * p0) by (nonlinear_arith)
                requires
                    2 * h + 1 >= m0,
                    p0 >= 0,
            ;
            assert(p0 <= n) by (nonlinear_arith)
                requires
                    m0 * p0 <= n,
                    m0 >= 1,
                    p0 >= 0,
            ;
            if r0 >= 63 {
                lemma2_to64_rest_bound();
                assert(m0 * p0 >= 2 * p0) by (nonlinear_arith)
                    requires
                        m0 >= 2,
                        p0 >= 0,
                ;
            }
        }
        m = m / 2;
        r = r + 1;
    }
    proof {
        assert(1 * pow2(r as nat) == pow2(r as nat));
        lemma_pow2_double((r + 1) as nat);
        if n <= 0x8000_0000 && r > 31 {
            lemma_pow2_le(32, r as nat);
            lemma2_to64();
        }
    }
    proof {
        lemma_floor_log(n as nat, r as nat);
    }
    r
}

proof fn lemma2_to64_rest_bound()
    ensures
        pow2(63) == 0x8000_0000_0000_0000,
{
    vstd::arithmetic::power2::lemma2_to64_rest();
}

/// A power of two has one logarithm.
pub proof fn lemma_log_unique(a: nat, b: nat)
    requires
        pow2(a) <= pow2(b) < pow2((a + 1) as nat),
    ensures
        a == b,
{
    if b < a {
        lemma_pow2_strictly_increases(b, a);
    } else if b > a {
        lemma_pow2_le((a + 1) as nat, b);
    }
}

/// The integer whose `n` low binary digits are those of `j` in the opposite order.
pub open spec fn bit_rev(j: int, n: nat) -> int
    decreases n,
{
    if n == 0 {
        0
    } else {
        (j % 2) * pow2((n - 1) as nat) + bit_rev(j / 2, (n - 1) as nat)
    }
}

pub proof fn lemma_bit_rev_range(j: int, n: nat)
    ensures
        0 <= bit_rev(j, n) < pow2(n),
    decreases n,
{
    lemma_pow2_pos(n);
    if n > 0 {
        lemma_pow2_double(n);
        lemma_bit_rev_range(j / 2, (n - 1) as nat);
        let p = pow2((n - 1) as nat) as int;
        assert((j % 2) * p == 0 || (j % 2) * p == p) by (nonlinear_arith)
            requires
                j % 2 == 0 || j % 2 == 1,
        ;
    }
}

/// Reversal of a number split into low and high digits.
pub proof fn lemma_bit_rev_split(low: int, high: int, a: nat, b: nat)
    requires
        0 <= low < pow2(a),
        0 <= high,
    ensures
        bit_rev(low + pow2(a) * high, a + b) == bit_rev(low, a) * pow2(b) + bit_rev(high, b),
    decreases a,
{
    if a == 0 {
        lemma2_to64();
        assert(low == 0);
        assert(pow2(0) * high == high);
        assert(bit_rev(low, 0) == 0);
        assert(0 * pow2(b) == 0);
    } else {
        let a1 = (a - 1) as nat;
        lemma_pow2_double(a);
        let p = pow2(a1) as int;
        let j = low + pow2(a) * high;
        assert(pow2(a) * high == 2 * (p * high)) by (nonlinear_arith)
            requires
                pow2(a) == 2 * p,
        ;
        assert(j % 2 == low % 2);
        assert(j / 2 == low / 2 + p * high);
        lemma_bit_rev_split(low / 2, high, a1, b);
        assert((a + b - 1) as nat == a1 + b);
        lemma_pow2_adds(a1, b);
        let d = low % 2;
        let r = bit_rev(low / 2, a1);
        let q = pow2(b) as int;
        assert(d * (p * q) + (r * q + bit_rev(high, b)) == (d * p + r) * q + bit_rev(high, b))
            by (nonlinear_arith);
    }
}

/// Reversing twice gives the number back.
pub proof fn lemma_bit_rev_involution(j: int, n: nat)
    requires
        0 <= j < pow2(n),
    ensures
        bit_rev(bit_rev(j, n), n) == j,
    decreases n,
{
    if n == 0 {
        lemma2_to64();
    } else {
        let n1 = (n - 1) as nat;
        lemma_pow2_double(n);
        lemma_bit_rev_involution(j / 2, n1);
        let low = bit_rev(j / 2, n1);
        lemma_bit_rev_range(j / 2, n1);
        lemma_bit_rev_split(low, j % 2, n1, 1);
        lemma_mul_is_commutative(j % 2, pow2(n1) as int);
        assert(n1 + 1 == n);
        lemma_bit_rev_one(j % 2);
        lemma2_to64();
    }
}

proof fn lemma_bit_rev_one(b: int)
    requires
        0 <= b < 2,
    ensures
        bit_rev(b, 1) == b,
{
    lemma2_to64();
    assert(bit_rev(b / 2, 0) == 0);
    assert(bit_rev(b, 1) == (b % 2) * pow2(0) + bit_rev(b / 2, 0));
    assert((b % 2) * 1 == b);
}

/// Reversal as a function of a machine index.
pub fn bit_reverse_index(i: usize, log_size: u32) -> (r: usize)
    requires
        log_size <= 31,
        i < pow2(log_size as nat),
    ensures
        r == bit_rev(i as int, log_size as nat),
        r < pow2(log_size as nat),
{
    let mut r: usize = 0;
    let mut j: usize = i;
    let mut k: u32 = 0;
    proof {
        lemma2_to64();
        lemma_pow2_bound(log_size as nat);
        assert(0 * pow2(log_size as nat) == 0);
    }
    while k < log_size
        invariant
            k <= log_size <= 31,
            r < pow2(k as nat),
            r * pow2((log_size - k) as nat) + bit_rev(j as int, (log_size - k) as nat) == bit_rev(
                i as int,
                log_size as nat,
            ),
        decreases log_size - k,
    {
        let ghost m = (log_size - k) as nat;
        let ghost r0 = r as int;
        let ghost d = j as int % 2;
        proof {
            lemma_pow2_double(m);
            lemma_pow2_double((k + 1) as nat);
            lemma_pow2_bound((k + 1) as nat);
            let q = pow2((m - 1) as nat) as int;
            assert((2 * r0 + d) * q == r0 * (2 * q) + d * q) by (nonlinear_arith);
        }
        r = 2 * r + j % 2;
        j = j / 2;
        k = k + 1;
    }
    proof {
        lemma2_to64();
        assert(r * pow2(0) == r);
    }
    r
}

/// Permutes `v` into bit-reversed order.
pub fn bit_reverse<T: Copy>(v: &Vec<T>, log_size: u32) -> (r: Vec<T>)
    requires
        log_size <= 31,
        v.len() == pow2(log_size as nat),
    ensures
        r.len() == v.len(),
        forall|i: int| 0 <= i < v.len() ==> #[trigger] r@[i] == v@[bit_rev(i, log_size as nat)],
{
    let mut r: Vec<T> = Vec::with_capacity(v.len());
    let n = v.len();
    for i in 0..n
        invariant
            n == v.len(),
            log_size <= 31,
            n == pow2(log_size as nat),
            r.len() == i,
            forall|k: int| 0 <= k < i ==> #[trigger] r@[k] == v@[bit_rev(k, log_size as nat)],
    {
        let j = bit_reverse_index(i, log_size);
        r.push(v[j]);
    }
    r
}

pub proof fn lemma_bit_rev_zero(n: nat)
    ensures
        bit_rev(0, n) == 0,
    decreases n,
{
    if n > 0 {
        lemma_bit_rev_zero((n - 1) as nat);
        assert(0 * pow2((n - 1) as nat) == 0);
        assert(0int % 2 == 0 && 0int / 2 == 0);
    }
}

/// The row of a column of `2^(log - ratio)` rows that row `row` of `2^log` is lifted from.
pub open spec fn lifted_row(row: int, log_ratio: nat) -> int {
    2 * (row / (2 * pow2(log_ratio) as int)) + row % 2
}

pub proof fn lemma_lifted_row(row: int, log_size: nat, k: nat)
    requires
        1 <= k <= log_size,
        0 <= row < pow2(log_size),
    ensures
        0 <= lifted_row(row, (log_size - k) as nat) < pow2(k),
{
    let r = (log_size - k) as nat;
    lemma_pow2_adds(r, k);
    lemma_pow2_double(k);
    lemma_pow2_pos(r);
    let p = 2 * pow2(r) as int;
    let h = pow2((k - 1) as nat) as int;
    let q = row / p;
    assert(row < p * h) by (nonlinear_arith)
        requires
            row < pow2(r) * pow2(k),
            pow2(k) == 2 * h,
            p == 2 * pow2(r),
    ;
    assert(0 <= q < h) by (nonlinear_arith)
        requires
            0 <= row < p * h,
            p > 0,
            q == row / p,
    ;
}

/// Lifting in two steps is lifting in one.
pub proof fn lemma_lifted_twice(row: int, a: nat, b: nat)
    requires
        row >= 0,
    ensures
        lifted_row(lifted_row(row, a), b) == lifted_row(row, a + b),
{
    lemma_pow2_pos(a);
    lemma_pow2_pos(b);
    vstd::arithmetic::power2::lemma_pow2_adds(a, b);
    let pa = 2 * pow2(a) as int;
    let pb = pow2(b) as int;
    let q = row / pa;
    let bit = row % 2;
    let x = 2 * q + bit;
    assert(x % 2 == bit);
    assert(x / 2 == q);
    vstd::arithmetic::div_mod::lemma_div_denominator(x, 2, pb);
    assert(x / (2 * pb) == q / pb);
    vstd::arithmetic::div_mod::lemma_div_denominator(row, pa, pb);
    assert(q / pb == row / (pa * pb));
    assert(pa * pb == 2 * pow2(a + b)) by (nonlinear_arith)
        requires
            pa == 2 * pow2(a),
            pow2(a) * pb == pow2(a + b),
    ;
}

/// Lifting by nothing changes nothing.
pub proof fn lemma_lifted_none(row: int)
    requires
        row >= 0,
    ensures
        lifted_row(row, 0) == row,
{
    lemma2_to64();
}

/// The logarithm of a power of two.
pub open spec fn log_of(n: nat) -> nat {
    choose|k: nat| n == #[trigger] pow2(k)
}

/// Whether `n` is a power of two.
pub open spec fn is_pow2(n: nat) -> bool {
    exists|k: nat| n == #[trigger] pow2(k)
}

pub proof fn lemma_log_of(n: nat, k: nat)
    requires
        n == pow2(k),
    ensures
        log_of(n) == k,
        is_pow2(n),
{
    let j = log_of(n);
    assert(pow2(j) == pow2(k));
    lemma_pow2_double(j + 1);
    lemma_log_unique(j, k);
}

/// The logarithm of a power of two; other numbers have none.
pub fn exact_log(n: usize) -> (r: Option<u32>)
    ensures
        r is Some <==> is_pow2(n as nat),
        r is Some ==> n == pow2(r->0 as nat) && r->0 < 64,
{
    let mut size: usize = 1;
    let mut k: u32 = 0;
    proof {
        lemma2_to64();
    }
    while size < n
        invariant
            size == pow2(k as nat),
            k < 64,
            n >= 1 ==> size <= n,
        decreases n - size,
    {
        proof {
            lemma_pow2_double((k + 1) as nat);
        }
        if size > n / 2 {
            proof {
                assert forall|j: nat| n != #[trigger] pow2(j) by {
                    if n == pow2(j) {
                        lemma_log_unique(k as nat, j);
                    }
                }
            }
            return None;
        }
        size = 2 * size;
        k = k + 1;
        proof {
            if k >= 64 {
                lemma_pow2_le(64, k as nat);
                vstd::arithmetic::power2::lemma2_to64_rest();
            }
        }
    }
    if size == n {
        Some(k)
    } else {
        proof {
            assert forall|j: nat| n != #[trigger] pow2(j) by {
                lemma_pow2_pos(j);
            }
        }
        None
    }
}

/// The row that a row is lifted from.
pub fn lift_row(row: usize, log_ratio: u32) -> (r: usize)
    requires
        row <= u32::MAX,
    ensures
        r == lifted_row(row as int, log_ratio as nat),
        r <= row,
{
    proof {
        lemma2_to64();
        lemma_pow2_pos(log_ratio as nat);
        if log_ratio >= 31 {
            lemma_pow2_le(31, log_ratio as nat);
            vstd::arithmetic::div_mod::lemma_basic_div(
                row as int,
                2 * pow2(log_ratio as nat) as int,
            );
        } else {
            lemma_pow2_le(log_ratio as nat, 30);
        }
        let p = 2 * pow2(log_ratio as nat) as int;
        let q = row as int / p;
        lemma_fundamental_div_mod(row as int, p);
        vstd::arithmetic::div_mod::lemma_mod_bound(row as int, p);
        assert(2 * q <= row) by (nonlinear_arith)
            requires
                row == p * q + row as int % p,
                row as int % p >= 0,
                p >= 2,
                row >= 0,
        ;
    }
    if log_ratio >= 31 {
        row % 2
    } else {
        2 * (row / (2 * pow2_usize(log_ratio))) + row % 2
    }
}

} // verus!
