//! Inverting many elements with one inversion.

use vstd::prelude::*;

use super::{lemma_product_nonzero, Field};

verus! {

/// The product of the first `n` elements.
spec fn prefix<F: Field>(v: Seq<F>, n: nat) -> F
    decreases n,
{
    if n == 0 {
        F::one_el()
    } else {
        prefix(v, (n - 1) as nat).times(v[n - 1])
    }
}

proof fn lemma_prefix_nonzero<F: Field>(v: Seq<F>, n: nat)
    requires
        n <= v.len(),
        forall|i: int| 0 <= i < v.len() ==> (#[trigger] v[i]).canon() != F::zero_el(),
    ensures
        prefix(v, n).canon() != F::zero_el(),
    decreases n,
{
    if n == 0 {
        F::law_canon_results(F::one_el(), F::one_el());
        F::law_nontrivial();
    } else {
        lemma_prefix_nonzero(v, (n - 1) as nat);
        lemma_product_nonzero(prefix(v, (n - 1) as nat), v[n - 1]);
    }
}

/// The inverses of non-zero elements, in order.
pub fn batch_inverse<F: Field>(column: &Vec<F>) -> (r: Vec<F>)
    requires
        forall|i: int| 0 <= i < column.len() ==> (#[trigger] column@[i]).canon() != F::zero_el(),
    ensures
        r.len() == column.len(),
        forall|i: int|
            0 <= i < r.len() ==> column@[i].times(#[trigger] r@[i]) == F::one_el(),
        forall|i: int| 0 <= i < r.len() ==> (#[trigger] r@[i]).canon() == r@[i],
{
    let n = column.len();
    let mut products: Vec<F> = Vec::with_capacity(n);
    let mut acc = F::one();
    for i in 0..n
        invariant
            n == column.len(),
            products.len() == i,
            acc == prefix(column@, i as nat),
            forall|k: int| 0 <= k < i ==> #[trigger] products@[k] == prefix(column@, k as nat),
    {
        products.push(acc);
        acc = acc.mul(column[i]);
    }
    let mut r: Vec<F> = Vec::with_capacity(n);
    let mut k: usize = 0;
    while k < n
        invariant
            k <= n,
            r.len() == k,
            forall|i: int| 0 <= i < k ==> #[trigger] r@[i] == F::zero_el(),
        decreases n - k,
    {
        r.push(F::zero());
        k = k + 1;
    }
    proof {
        lemma_prefix_nonzero(column@, n as nat);
    }
    let mut inv = acc.inverse();
    let mut i: usize = n;
    while i > 0
        invariant
            i <= n,
            n == column.len(),
            r.len() == n,
            products.len() == n,
            prefix(column@, i as nat).times(inv) == F::one_el(),
            forall|k: int| 0 <= k < n ==> #[trigger] products@[k] == prefix(column@, k as nat),
            forall|k: int|
                i <= k < n ==> column@[k].times(#[trigger] r@[k]) == F::one_el() && r@[k].canon()
                    == r@[k],
        decreases i,
    {
        let ghost inv0 = inv;
        i = i - 1;
        let c = column[i];
        let p = products[i];
        let ri = inv.mul(p);
        r.set(i, ri);
        inv = inv.mul(c);
        proof {
            // c * (inv0 * p) = inv0 * (p * c) = 1
            super::lemma_mul_swap(c, inv0, p);
            F::law_mul_comm(c, p);
            F::law_mul_comm(inv0, p.times(c));
            // p * (inv0 * c) = inv0 * (p * c) = 1
            super::lemma_mul_swap(p, inv0, c);
            F::law_canon_results(inv0, p);
        }
    }
    r
}

} // verus!
