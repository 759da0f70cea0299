//! Values kept under trace columns.

use vstd::prelude::*;

use crate::fields::m31::M31;
use crate::framework::expr::ColumnExpr;

verus! {

/// Whether a column comes before another: by interaction, index and offset.
pub open spec fn column_before(a: ColumnExpr, b: ColumnExpr) -> bool {
    ||| a.interaction < b.interaction
    ||| a.interaction == b.interaction && a.idx < b.idx
    ||| a.interaction == b.interaction && a.idx == b.idx && a.offset < b.offset
}

fn comes_before(a: &ColumnExpr, b: &ColumnExpr) -> (r: bool)
    ensures
        r == column_before(*a, *b),
{
    if a.interaction != b.interaction {
        a.interaction < b.interaction
    } else if a.idx != b.idx {
        a.idx < b.idx
    } else {
        a.offset < b.offset
    }
}

/// Whether the columns of entries stand in order.
pub open spec fn sorted_columns(entries: Seq<(ColumnExpr, M31)>) -> bool {
    forall|i: int, j: int|
        0 <= i < j < entries.len() ==> column_before(
            (#[trigger] entries[i]).0,
            (#[trigger] entries[j]).0,
        )
}

/// A finite map from columns to values. Its entries stand in the order of the columns, so maps
/// that hold the same are equal.
#[derive(Debug, PartialEq, Eq)]
pub struct ColumnMap {
    entries: Vec<(ColumnExpr, M31)>,
}

impl Clone for ColumnMap {
    fn clone(&self) -> (r: Self)
        ensures
            forall|c: ColumnExpr| #[trigger] r.value_of(c) == self.value_of(c),
            r.size() == self.size(),
    {
        proof {
            use_type_invariant(self);
        }
        let n: usize = self.entries.len();
        let mut entries: Vec<(ColumnExpr, M31)> = Vec::with_capacity(n);
        for i in 0..n
            invariant
                n == self.entries@.len(),
                entries@ == self.entries@.take(i as int),
        {
            entries.push(self.entries[i]);
            assert(entries@ =~= self.entries@.take(i + 1));
        }
        assert(entries@ =~= self.entries@);
        ColumnMap { entries }
    }
}

impl ColumnMap {
    /// The value kept under a column.
    pub closed spec fn value_of(self, c: ColumnExpr) -> Option<M31> {
        if exists|i: int| 0 <= i < self.entries@.len() && (#[trigger] self.entries@[i]).0 == c {
            let i = choose|i: int|
                0 <= i < self.entries@.len() && (#[trigger] self.entries@[i]).0 == c;
            Some(self.entries@[i].1)
        } else {
            None
        }
    }

    /// How many columns have a value.
    pub closed spec fn size(self) -> nat {
        self.entries@.len()
    }

    /// The columns with their values, in order.
    pub closed spec fn listed(self) -> Seq<(ColumnExpr, M31)> {
        self.entries@
    }

    #[verifier::type_invariant]
    pub closed spec fn in_order(self) -> bool {
        sorted_columns(self.entries@)
    }

    proof fn lemma_value_at(self, i: int)
        requires
            self.in_order(),
            0 <= i < self.entries@.len(),
        ensures
            self.value_of(self.entries@[i].0) == Some(self.entries@[i].1),
    {
        let c = self.entries@[i].0;
        let j = choose|j: int|
            0 <= j < self.entries@.len() && (#[trigger] self.entries@[j]).0 == c;
        if j < i {
            assert(column_before(self.entries@[j].0, self.entries@[i].0));
        } else if i < j {
            assert(column_before(self.entries@[i].0, self.entries@[j].0));
        }
    }

    pub fn new() -> (r: ColumnMap)
        ensures
            forall|c: ColumnExpr| #[trigger] r.value_of(c) is None,
            r.size() == 0,
    {
        ColumnMap { entries: Vec::new() }
    }

    pub fn len(&self) -> (r: usize)
        ensures
            r == self.size(),
    {
        self.entries.len()
    }

    /// The number of columns before a column.
    fn rank(&self, c: &ColumnExpr) -> (r: usize)
        ensures
            r <= self.entries@.len(),
            forall|j: int| 0 <= j < r ==> column_before((#[trigger] self.entries@[j]).0, *c),
            forall|j: int|
                r <= j < self.entries@.len() ==> !column_before((#[trigger] self.entries@[j]).0, *c),
    {
        proof {
            use_type_invariant(self);
        }
        let mut lo: usize = 0;
        let mut hi: usize = self.entries.len();
        while lo < hi
            invariant
                lo <= hi <= self.entries@.len(),
                sorted_columns(self.entries@),
                forall|j: int| 0 <= j < lo ==> column_before((#[trigger] self.entries@[j]).0, *c),
                forall|j: int|
                    hi <= j < self.entries@.len() ==> !column_before(
                        (#[trigger] self.entries@[j]).0,
                        *c,
                    ),
            decreases hi - lo,
        {
            let mid: usize = lo + (hi - lo) / 2;
            if comes_before(&self.entries[mid].0, c) {
                assert forall|j: int| 0 <= j < mid + 1 implies column_before(
                    (#[trigger] self.entries@[j]).0,
                    *c,
                ) by {
                    if j < mid {
                        assert(column_before(self.entries@[j].0, self.entries@[mid as int].0));
                    }
                }
                lo = mid + 1;
            } else {
                assert forall|j: int| mid <= j < self.entries@.len() implies !column_before(
                    (#[trigger] self.entries@[j]).0,
                    *c,
                ) by {
                    if mid < j {
                        assert(column_before(self.entries@[mid as int].0, self.entries@[j].0));
                    }
                }
                hi = mid;
            }
        }
        lo
    }

    /// The value under a column, if it has one.
    pub fn get(&self, c: &ColumnExpr) -> (r: Option<M31>)
        ensures
            r == self.value_of(*c),
    {
        let i: usize = self.rank(c);
        proof {
            use_type_invariant(self);
        }
        if i < self.entries.len() && self.entries[i].0 == *c {
            proof {
                self.lemma_value_at(i as int);
            }
            return Some(self.entries[i].1);
        }
        assert forall|j: int| 0 <= j < self.entries@.len() implies (#[trigger] self.entries@[j]).0
            != *c by {
            if j < i {
                assert(column_before(self.entries@[j].0, *c));
            } else if i < j {
                assert(column_before(self.entries@[i as int].0, self.entries@[j].0));
                assert(!column_before(self.entries@[i as int].0, *c));
            }
        }
        None
    }

    /// Sets the value under a column; other columns keep theirs.
    pub fn insert(&mut self, c: ColumnExpr, value: M31)
        ensures
            forall|x: ColumnExpr|
                #[trigger] final(self).value_of(x) == if x == c {
                    Some(value)
                } else {
                    old(self).value_of(x)
                },
            final(self).size() == old(self).size() + if old(self).value_of(c) is Some {
                0nat
            } else {
                1
            },
    {
        let ghost before = *self;
        proof {
            use_type_invariant(&*self);
        }
        let i: usize = self.rank(&c);
        let mut entries: Vec<(ColumnExpr, M31)> = Vec::new();
        std::mem::swap(&mut entries, &mut self.entries);
        let there: bool = i < entries.len() && entries[i].0 == c;
        if there {
            entries.set(i, (c, value));
        } else {
            entries.insert(i, (c, value));
        }
        proof {
            let old_entries = before.entries@;
            assert forall|a: int, b: int| 0 <= a < b < entries@.len() implies column_before(
                (#[trigger] entries@[a]).0,
                (#[trigger] entries@[b]).0,
            ) by {
                if there {
                    assert(column_before(old_entries[a].0, old_entries[b].0));
                } else {
                    let x = if a < i {
                        a
                    } else {
                        a - 1
                    };
                    let y = if b < i {
                        b
                    } else {
                        b - 1
                    };
                    if a != i && b != i {
                        assert(column_before(old_entries[x].0, old_entries[y].0));
                    } else if b == i {
                        assert(column_before(old_entries[a].0, c));
                    } else {
                        assert(!column_before(old_entries[y].0, c));
                        if y > i {
                            assert(column_before(old_entries[i as int].0, old_entries[y].0));
                        }
                        assert(!column_before(old_entries[i as int].0, c));
                    }
                }
            }
        }
        self.entries = entries;
        proof {
            let after = *self;
            let was = before.entries@;
            let now = after.entries@;
            assert(now[i as int] == (c, value));
            after.lemma_value_at(i as int);
            if there {
                before.lemma_value_at(i as int);
            } else if before.value_of(c) is Some {
                let j = choose|j: int| 0 <= j < was.len() && (#[trigger] was[j]).0 == c;
                if j < i {
                    assert(column_before(was[j].0, c));
                } else {
                    let k = j + 1;
                    assert(column_before(now[i as int].0, now[k].0));
                }
                assert(false);
            }
            assert forall|x: ColumnExpr| #[trigger] after.value_of(x) == if x == c {
                Some(value)
            } else {
                before.value_of(x)
            } by {
                if x != c {
                    if before.value_of(x) is Some {
                        let j = choose|j: int| 0 <= j < was.len() && (#[trigger] was[j]).0 == x;
                        let k = if there || j < i {
                            j
                        } else {
                            j + 1
                        };
                        assert(now[k] == was[j]);
                        before.lemma_value_at(j);
                        after.lemma_value_at(k);
                    } else if after.value_of(x) is Some {
                        let k = choose|k: int| 0 <= k < now.len() && (#[trigger] now[k]).0 == x;
                        let j = if there || k < i {
                            k
                        } else {
                            k - 1
                        };
                        assert(now[k] == was[j]);
                        before.lemma_value_at(j);
                    }
                }
            }
        }
    }

    /// Maps that hold the same values under the same columns list the same entries.
    pub proof fn lemma_same_listed(self, other: ColumnMap)
        requires
            self.in_order(),
            other.in_order(),
            forall|c: ColumnExpr| #[trigger] self.value_of(c) == other.value_of(c),
        ensures
            self.listed() == other.listed(),
    {
        let (a, b) = (self.entries@, other.entries@);
        self.lemma_listed_within(other, a.len() as int);
        other.lemma_listed_within(self, b.len() as int);
        assert(a =~= b);
    }

    /// The first `n` entries of one map are those of the other.
    proof fn lemma_listed_within(self, other: ColumnMap, n: int)
        requires
            self.in_order(),
            other.in_order(),
            forall|c: ColumnExpr| #[trigger] self.value_of(c) == other.value_of(c),
            0 <= n <= self.entries@.len(),
        ensures
            n <= other.entries@.len(),
            forall|k: int| 0 <= k < n ==> #[trigger] self.entries@[k] == other.entries@[k],
        decreases n,
    {
        if n > 0 {
            let (a, b) = (self.entries@, other.entries@);
            let m = n - 1;
            self.lemma_listed_within(other, m);
            self.lemma_value_at(m);
            let c = a[m].0;
            assert(other.value_of(c) is Some);
            let j = choose|j: int| 0 <= j < b.len() && (#[trigger] b[j]).0 == c;
            other.lemma_value_at(j);
            if j < m {
                assert(a[j] == b[j]);
                assert(column_before(a[j].0, a[m].0));
            }
            if m < j {
                let d = b[m].0;
                other.lemma_value_at(m);
                assert(self.value_of(d) is Some);
                let i = choose|i: int| 0 <= i < a.len() && (#[trigger] a[i]).0 == d;
                self.lemma_value_at(i);
                assert(column_before(b[m].0, b[j].0));
                if i < m {
                    assert(a[i] == b[i]);
                    assert(column_before(b[i].0, b[m].0));
                } else if m < i {
                    assert(column_before(a[m].0, a[i].0));
                }
            }
        }
    }
}

} // verus!
