//! What is mixed in when values are opened leaves no sample out.

use vstd::prelude::*;

use super::samples::PointSample;
use super::scheme::{column_values_s, flat_values_s, tree_values_s};
use crate::fields::qm31::QM31;

verus! {

/// Two sequences, each cut at the same place, are equal only if their parts are.
proof fn lemma_parts(a: Seq<QM31>, b: Seq<QM31>, c: Seq<QM31>, d: Seq<QM31>)
    requires
        a.len() == c.len(),
        a + b == c + d,
    ensures
        a == c,
        b == d,
{
    let n = a.len() as int;
    let whole = a + b;
    assert(a =~= whole.take(n));
    assert(c =~= whole.take(n));
    assert(b =~= whole.skip(n));
    assert(d =~= whole.skip(n));
}

/// As many samples for each of the first `n` columns.
pub open spec fn columns_alike(
    a: Seq<Vec<PointSample>>,
    b: Seq<Vec<PointSample>>,
    n: int,
) -> bool {
    n <= a.len() && n <= b.len() && forall|c: int|
        0 <= c < n ==> (#[trigger] a[c])@.len() == b[c]@.len()
}

proof fn lemma_tree_len(a: Seq<Vec<PointSample>>, b: Seq<Vec<PointSample>>, n: int)
    requires
        columns_alike(a, b, n),
    ensures
        tree_values_s(a, n).len() == tree_values_s(b, n).len(),
    decreases n,
{
    if n > 0 {
        lemma_tree_len(a, b, n - 1);
        assert(a[n - 1]@.len() == b[n - 1]@.len());
    }
}

proof fn lemma_tree_values(
    a: Seq<Vec<PointSample>>,
    b: Seq<Vec<PointSample>>,
    n: int,
    c: int,
    i: int,
)
    requires
        columns_alike(a, b, n),
        tree_values_s(a, n) == tree_values_s(b, n),
        0 <= c < n,
        0 <= i < a[c]@.len(),
    ensures
        a[c]@[i].value == b[c]@[i].value,
    decreases n,
{
    let (v, w) = (column_values_s(a[n - 1]@), column_values_s(b[n - 1]@));
    lemma_tree_len(a, b, n - 1);
    lemma_parts(tree_values_s(a, n - 1), v, tree_values_s(b, n - 1), w);
    if c < n - 1 {
        lemma_tree_values(a, b, n - 1, c, i);
    } else {
        assert(a[c]@.len() == b[c]@.len());
        assert(v[i] == a[c]@[i].value);
        assert(w[i] == b[c]@[i].value);
    }
}

/// As many columns in each of the first `n` trees, and as many samples for each column.
pub open spec fn trees_alike(
    a: Seq<Vec<Vec<PointSample>>>,
    b: Seq<Vec<Vec<PointSample>>>,
    n: int,
) -> bool {
    n <= a.len() && n <= b.len() && forall|t: int|
        0 <= t < n ==> (#[trigger] a[t])@.len() == b[t]@.len() && columns_alike(
            a[t]@,
            b[t]@,
            a[t]@.len() as int,
        )
}

proof fn lemma_flat_len(a: Seq<Vec<Vec<PointSample>>>, b: Seq<Vec<Vec<PointSample>>>, n: int)
    requires
        trees_alike(a, b, n),
    ensures
        flat_values_s(a, n).len() == flat_values_s(b, n).len(),
    decreases n,
{
    if n > 0 {
        lemma_flat_len(a, b, n - 1);
        let t = a[n - 1]@;
        lemma_tree_len(t, b[n - 1]@, t.len() as int);
    }
}

/// Samples of the same numbers for the same columns that are mixed in alike are alike: every value
/// enters, each in a place of its own.
pub proof fn lemma_values_determined(
    a: Seq<Vec<Vec<PointSample>>>,
    b: Seq<Vec<Vec<PointSample>>>,
    n: int,
    t: int,
    c: int,
    i: int,
)
    requires
        trees_alike(a, b, n),
        flat_values_s(a, n) == flat_values_s(b, n),
        0 <= t < n,
        0 <= c < a[t]@.len(),
        0 <= i < a[t]@[c]@.len(),
    ensures
        a[t]@[c]@[i].value == b[t]@[c]@[i].value,
    decreases n,
{
    let (x, y) = (a[n - 1]@, b[n - 1]@);
    let (v, w) = (tree_values_s(x, x.len() as int), tree_values_s(y, y.len() as int));
    lemma_flat_len(a, b, n - 1);
    lemma_parts(flat_values_s(a, n - 1), v, flat_values_s(b, n - 1), w);
    if t < n - 1 {
        lemma_values_determined(a, b, n - 1, t, c, i);
    } else {
        assert(a[t]@.len() == b[t]@.len());
        lemma_tree_values(x, y, x.len() as int, c, i);
    }
}

} // verus!
