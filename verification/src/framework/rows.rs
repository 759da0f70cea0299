//! Where rows lie in bit-reversed evaluations.

use vstd::arithmetic::div_mod::{
    lemma_fundamental_div_mod, lemma_mod_bound, lemma_mod_multiples_vanish,
};
use vstd::arithmetic::power2::pow2;
use vstd::prelude::*;

use crate::utils::{
    bit_rev, bit_reverse_index, lemma_bit_rev_range, lemma_pow2_bound, lemma_pow2_double,
    lemma_pow2_le, pow2_usize,
};

verus! {

/// The position in a circle domain of the `i`-th point of the coset it is made of.
pub open spec fn circle_index(i: int, log_size: nat) -> int {
    if i % 2 == 0 {
        i / 2
    } else {
        pow2(log_size) - (i + 1) / 2
    }
}

/// The row, in bit-reversed order, of the `i`-th point of the coset.
pub open spec fn coset_row(i: int, log_size: nat) -> int {
    bit_rev(circle_index(i, log_size), log_size)
}

pub proof fn lemma_circle_index(i: int, log_size: nat)
    requires
        log_size >= 1,
        0 <= i < pow2(log_size),
    ensures
        0 <= circle_index(i, log_size) < pow2(log_size),
        0 <= coset_row(i, log_size) < pow2(log_size),
{
    lemma_pow2_double(log_size);
    lemma_bit_rev_range(circle_index(i, log_size), log_size);
}

/// Different points of the coset lie in different rows.
pub proof fn lemma_coset_row_injective(i: int, j: int, log_size: nat)
    requires
        log_size >= 1,
        0 <= i < pow2(log_size),
        0 <= j < pow2(log_size),
        coset_row(i, log_size) == coset_row(j, log_size),
    ensures
        i == j,
{
    lemma_circle_index(i, log_size);
    lemma_circle_index(j, log_size);
    crate::utils::lemma_bit_rev_involution(circle_index(i, log_size), log_size);
    crate::utils::lemma_bit_rev_involution(circle_index(j, log_size), log_size);
    lemma_pow2_double(log_size);
}

pub fn coset_row_index(i: usize, log_size: u32) -> (r: usize)
    requires
        1 <= log_size <= 31,
        i < pow2(log_size as nat),
    ensures
        r == coset_row(i as int, log_size as nat),
        r < pow2(log_size as nat),
{
    proof {
        lemma_pow2_bound(log_size as nat);
        lemma_circle_index(i as int, log_size as nat);
    }
    let at = if i % 2 == 0 {
        i / 2
    } else {
        pow2_usize(log_size) - (i + 1) / 2
    };
    bit_reverse_index(at, log_size)
}

/// The natural position `offset` steps of the trace domain away. The two halves of a circle domain
/// run in opposite directions.
pub open spec fn moved(at: int, domain_log: nat, eval_log: nat, offset: int) -> int {
    let half = pow2((eval_log - 1) as nat) as int;
    let step = offset * pow2((eval_log - domain_log - 1) as nat);
    if at < half {
        (at + step) % half
    } else {
        (at - step) % half + half
    }
}

/// The row of the point `offset` steps of the trace domain away from that of row `i`, both in
/// bit-reversed order on the evaluation domain.
pub open spec fn offset_row(i: int, domain_log: nat, eval_log: nat, offset: int) -> int {
    bit_rev(moved(bit_rev(i, eval_log), domain_log, eval_log, offset), eval_log)
}

pub proof fn lemma_offset_row(i: int, domain_log: nat, eval_log: nat, offset: int)
    requires
        domain_log < eval_log,
    ensures
        0 <= offset_row(i, domain_log, eval_log, offset) < pow2(eval_log),
{
    lemma_bit_rev_range(
        moved(bit_rev(i, eval_log), domain_log, eval_log, offset),
        eval_log,
    );
}

proof fn lemma_reduced_step(at: int, m: int, offset: int, step: int, half: int)
    requires
        half > 0,
        m == offset % half,
    ensures
        (at + offset * step) % half == (at + m * step) % half,
        (at - offset * step) % half == (at - m * step) % half,
{
    let q = offset / half;
    lemma_fundamental_div_mod(offset, half);
    assert(offset * step == half * (q * step) + m * step) by (nonlinear_arith)
        requires
            offset == half * q + m,
    ;
    lemma_mod_multiples_vanish(q * step, at + m * step, half);
    lemma_mod_multiples_vanish(-(q * step), at - m * step, half);
    assert(half * (-(q * step)) == -(half * (q * step))) by (nonlinear_arith);
}

fn remainder(offset: isize, half: usize) -> (r: usize)
    requires
        0 < half <= 0x4000_0000,
    ensures
        r == offset as int % half as int,
{
    if offset >= 0 {
        (offset as usize) % half
    } else {
        let below: usize = (-(offset + 1)) as usize;
        let r = half - 1 - below % half;
        proof {
            // offset = -(below + 1) = half * (-1 - below / half) + r
            let (h, b) = (half as int, below as int);
            lemma_fundamental_div_mod(b, h);
            lemma_mod_bound(b, h);
            let q = -1 - b / h;
            assert(h * q == -h - h * (b / h)) by (nonlinear_arith)
                requires
                    q == -1 - b / h,
            ;
            assert(offset as int == h * q + r);
            lemma_mod_multiples_vanish(q, r as int, h);
            vstd::arithmetic::div_mod::lemma_small_mod(r as nat, half as nat);
        }
        r
    }
}

/// The row of the point `offset` trace steps away.
pub fn offset_bit_reversed_circle_domain_index(
    i: usize,
    domain_log_size: u32,
    eval_log_size: u32,
    offset: isize,
) -> (r: usize)
    requires
        domain_log_size < eval_log_size <= 31,
        i < pow2(eval_log_size as nat),
    ensures
        r == offset_row(i as int, domain_log_size as nat, eval_log_size as nat, offset as int),
        r < pow2(eval_log_size as nat),
{
    let at = bit_reverse_index(i, eval_log_size);
    let half = pow2_usize(eval_log_size - 1);
    let step = pow2_usize(eval_log_size - domain_log_size - 1);
    proof {
        lemma_pow2_double(eval_log_size as nat);
        lemma_pow2_bound(eval_log_size as nat);
        lemma_bit_rev_range(i as int, eval_log_size as nat);
        lemma_pow2_le((eval_log_size - domain_log_size - 1) as nat, (eval_log_size - 1) as nat);
        lemma_offset_row(
            i as int,
            domain_log_size as nat,
            eval_log_size as nat,
            offset as int,
        );
    }
    let m = remainder(offset, half);
    proof {
        lemma_mod_bound(offset as int, half as int);
        lemma_reduced_step(at as int, m as int, offset as int, step as int, half as int);
        assert(0 <= m * step <= 0x4000_0000 * 0x4000_0000) by (nonlinear_arith)
            requires
                0 <= m <= 0x4000_0000,
                0 <= step <= 0x4000_0000,
        ;
        assert(m * step <= half * step) by (nonlinear_arith)
            requires
                m <= half,
                step >= 0,
        ;
        assert(0 <= half * step <= 0x4000_0000 * 0x4000_0000) by (nonlinear_arith)
            requires
                0 <= half <= 0x4000_0000,
                0 <= step <= 0x4000_0000,
        ;
    }
    let distance: u64 = m as u64 * step as u64;
    let natural: usize = if at < half {
        ((at as u64 + distance) % half as u64) as usize
    } else {
        let whole: u64 = half as u64 * step as u64;
        proof {
            lemma_mod_multiples_vanish(step as int, at as int - distance as int, half as int);
            assert(half as int * step as int + (at as int - distance as int) == at + (whole
                - distance));
        }
        ((at as u64 + (whole - distance)) % half as u64) as usize + half
    };
    bit_reverse_index(natural, eval_log_size)
}

/// For every row, the row of the point `offset` trace steps away.
pub fn offset_index_map(domain_log_size: u32, eval_log_size: u32, offset: isize) -> (r: Vec<u32>)
    requires
        domain_log_size < eval_log_size <= 31,
    ensures
        r@.len() == pow2(eval_log_size as nat),
        forall|i: int|
            0 <= i < r@.len() ==> #[trigger] r@[i] == offset_row(
                i,
                domain_log_size as nat,
                eval_log_size as nat,
                offset as int,
            ),
{
    let n = pow2_usize(eval_log_size);
    proof {
        lemma_pow2_bound(eval_log_size as nat);
    }
    let mut r: Vec<u32> = Vec::new();
    let mut i: usize = 0;
    while i < n
        invariant
            i <= n == pow2(eval_log_size as nat),
            n <= 0x8000_0000,
            domain_log_size < eval_log_size <= 31,
            r@.len() == i,
            forall|j: int|
                0 <= j < i ==> #[trigger] r@[j] == offset_row(
                    j,
                    domain_log_size as nat,
                    eval_log_size as nat,
                    offset as int,
                ),
        decreases n - i,
    {
        let row = offset_bit_reversed_circle_domain_index(
            i,
            domain_log_size,
            eval_log_size,
            offset,
        );
        r.push(row as u32);
        i += 1;
    }
    r
}

} // verus!
