//! Values kept under names, and numbers written in decimal.

use vstd::prelude::*;

verus! {

/// The value of the first entry under `name`.
pub open spec fn find<V>(entries: Seq<(String, V)>, name: Seq<char>) -> Option<V>
    decreases entries.len(),
{
    if entries.len() == 0 {
        None
    } else if entries[0].0@ == name {
        Some(entries[0].1)
    } else {
        find(entries.drop_first(), name)
    }
}

proof fn lemma_find_at<V>(entries: Seq<(String, V)>, name: Seq<char>, i: int)
    requires
        0 <= i < entries.len(),
        entries[i].0@ == name,
        forall|j: int| 0 <= j < i ==> (#[trigger] entries[j]).0@ != name,
    ensures
        find(entries, name) == Some(entries[i].1),
    decreases i,
{
    if i > 0 {
        let rest = entries.drop_first();
        assert(rest[i - 1] == entries[i]);
        assert forall|j: int| 0 <= j < i - 1 implies (#[trigger] rest[j]).0@ != name by {
            assert(rest[j] == entries[j + 1]);
        }
        assert(entries[0].0@ != name);
        lemma_find_at(rest, name, i - 1);
    }
}

proof fn lemma_find_none<V>(entries: Seq<(String, V)>, name: Seq<char>)
    requires
        forall|j: int| 0 <= j < entries.len() ==> (#[trigger] entries[j]).0@ != name,
    ensures
        find(entries, name) is None,
    decreases entries.len(),
{
    if entries.len() > 0 {
        let rest = entries.drop_first();
        assert forall|j: int| 0 <= j < rest.len() implies (#[trigger] rest[j]).0@ != name by {
            assert(rest[j] == entries[j + 1]);
        }
        assert(entries[0].0@ != name);
        lemma_find_none(rest, name);
    }
}

proof fn lemma_find_update<V>(entries: Seq<(String, V)>, i: int, v: V, other: Seq<char>)
    requires
        0 <= i < entries.len(),
        forall|j: int| 0 <= j < i ==> (#[trigger] entries[j]).0@ != entries[i].0@,
    ensures
        find(entries.update(i, (entries[i].0, v)), other) == if other == entries[i].0@ {
            Some(v)
        } else {
            find(entries, other)
        },
    decreases i,
{
    let after = entries.update(i, (entries[i].0, v));
    if i > 0 {
        let rest = entries.drop_first();
        assert(rest[i - 1] == entries[i]);
        assert forall|j: int| 0 <= j < i - 1 implies (#[trigger] rest[j]).0@ != rest[i - 1].0@ by {
            assert(rest[j] == entries[j + 1]);
        }
        assert(after.drop_first() =~= rest.update(i - 1, (rest[i - 1].0, v)));
        lemma_find_update(rest, i - 1, v, other);
        assert(entries[0].0@ != entries[i].0@);
    } else {
        assert(after.drop_first() =~= entries.drop_first());
    }
}

proof fn lemma_find_insert<V>(
    entries: Seq<(String, V)>,
    i: int,
    name: String,
    v: V,
    other: Seq<char>,
)
    requires
        0 <= i <= entries.len(),
        forall|j: int| 0 <= j < entries.len() ==> (#[trigger] entries[j]).0@ != name@,
    ensures
        find(entries.insert(i, (name, v)), other) == if other == name@ {
            Some(v)
        } else {
            find(entries, other)
        },
    decreases entries.len(),
{
    let after = entries.insert(i, (name, v));
    if i > 0 {
        let rest = entries.drop_first();
        assert forall|j: int| 0 <= j < rest.len() implies (#[trigger] rest[j]).0@ != name@ by {
            assert(rest[j] == entries[j + 1]);
        }
        assert(after[0] == entries[0]);
        assert(after.drop_first() =~= rest.insert(i - 1, (name, v)));
        lemma_find_insert(rest, i - 1, name, v, other);
    } else {
        assert(after[0] == (name, v));
        assert(after.drop_first() =~= entries);
    }
}

// ---------------------------------------------------------------------------------------------
// The order of names.

/// Names agree before place `k`, and there the first ends or has the smaller letter.
pub open spec fn differs_at(a: Seq<char>, b: Seq<char>, k: int) -> bool {
    &&& 0 <= k <= a.len()
    &&& k < b.len()
    &&& forall|i: int| 0 <= i < k ==> #[trigger] a[i] == b[i]
    &&& k == a.len() || (a[k] as u32) < (b[k] as u32)
}

/// Whether a name comes before another, letter by letter.
pub open spec fn name_before(a: Seq<char>, b: Seq<char>) -> bool {
    exists|k: int| #[trigger] differs_at(a, b, k)
}

/// Names stand in one order: of two, one comes first, and no name comes before itself.
pub proof fn lemma_name_order(a: Seq<char>, b: Seq<char>, c: Seq<char>)
    ensures
        !name_before(a, a),
        name_before(a, b) && name_before(b, c) ==> name_before(a, c),
        name_before(a, b) ==> !name_before(b, a) && a != b,
{
    if name_before(a, a) {
        let k = choose|k: int| #[trigger] differs_at(a, a, k);
        assert(false);
    }
    if name_before(a, b) && name_before(b, c) {
        let k = choose|k: int| #[trigger] differs_at(a, b, k);
        let l = choose|l: int| #[trigger] differs_at(b, c, l);
        let m = if k <= l {
            k
        } else {
            l
        };
        assert forall|i: int| 0 <= i < m implies #[trigger] a[i] == c[i] by {
            assert(a[i] == b[i]);
            assert(b[i] == c[i]);
        }
        if k < l {
            assert(b[k] == c[k]);
        } else if l < k {
            assert(a[l] == b[l]);
        }
        assert(differs_at(a, c, m));
    }
    if name_before(a, b) && name_before(b, a) {
        let k = choose|k: int| #[trigger] differs_at(a, b, k);
        let l = choose|l: int| #[trigger] differs_at(b, a, l);
        if k < l {
            assert(b[k] == a[k]);
        } else if l < k {
            assert(a[l] == b[l]);
        }
        assert(false);
    }
}

/// Whether a name comes before another.
fn comes_before(a: &String, b: &String) -> (r: bool)
    ensures
        r == name_before(a@, b@),
        !r ==> a@ == b@ || name_before(b@, a@),
{
    let (x, y) = (a.as_str(), b.as_str());
    let (n, m): (usize, usize) = (x.unicode_len(), y.unicode_len());
    let mut k: usize = 0;
    while k < n && k < m
        invariant
            x@ == a@,
            y@ == b@,
            n == a@.len(),
            m == b@.len(),
            k <= n,
            k <= m,
            forall|i: int| 0 <= i < k ==> #[trigger] a@[i] == b@[i],
        decreases n - k,
    {
        let c: u32 = x.get_char(k) as u32;
        let d: u32 = y.get_char(k) as u32;
        if c < d {
            assert(differs_at(a@, b@, k as int));
            return true;
        }
        if d < c {
            assert(differs_at(b@, a@, k as int));
            proof {
                lemma_name_order(b@, a@, b@);
            }
            return false;
        }
        k = k + 1;
    }
    if k < m {
        assert(differs_at(a@, b@, k as int));
        return true;
    }
    if k < n {
        assert(differs_at(b@, a@, k as int));
        proof {
            lemma_name_order(b@, a@, b@);
        }
    } else {
        assert(a@ =~= b@);
        proof {
            lemma_name_order(a@, a@, a@);
        }
    }
    false
}

/// Whether the names of entries stand in order.
pub open spec fn sorted_names<V>(entries: Seq<(String, V)>) -> bool {
    forall|i: int, j: int|
        0 <= i < j < entries.len() ==> name_before(
            (#[trigger] entries[i]).0@,
            (#[trigger] entries[j]).0@,
        )
}

/// A finite map from names to values. Its entries stand in the order of their names, so maps that
/// hold the same are equal.
#[derive(Debug, PartialEq, Eq)]
pub struct NameMap<V> {
    entries: Vec<(String, V)>,
}

impl<V: Clone> Clone for NameMap<V> {
    fn clone(&self) -> (r: Self)
        ensures
            r.size() == self.size(),
            forall|n: Seq<char>|
                match (self.value_of(n), #[trigger] r.value_of(n)) {
                    (Some(a), Some(b)) => cloned(a, b),
                    (None, None) => true,
                    _ => false,
                },
    {
        proof {
            use_type_invariant(self);
        }
        let n: usize = self.entries.len();
        let mut entries: Vec<(String, V)> = Vec::with_capacity(n);
        for i in 0..n
            invariant
                n == self.entries@.len(),
                entries@.len() == i,
                forall|j: int|
                    0 <= j < i ==> (#[trigger] entries@[j]).0@ == self.entries@[j].0@ && cloned(
                        self.entries@[j].1,
                        entries@[j].1,
                    ),
        {
            let value = self.entries[i].1.clone();
            entries.push((self.entries[i].0.clone(), value));
        }
        proof {
            assert forall|i: int, j: int| 0 <= i < j < entries@.len() implies name_before(
                (#[trigger] entries@[i]).0@,
                (#[trigger] entries@[j]).0@,
            ) by {
                assert(name_before(self.entries@[i].0@, self.entries@[j].0@));
            }
            assert forall|m: Seq<char>|
                match (find(self.entries@, m), #[trigger] find(entries@, m)) {
                    (Some(a), Some(b)) => cloned(a, b),
                    (None, None) => true,
                    _ => false,
                } by {
                if find(entries@, m) is Some {
                    let i = lemma_found(entries@, m);
                    lemma_sorted_find(self.entries@, i);
                }
                if find(self.entries@, m) is Some {
                    let i = lemma_found(self.entries@, m);
                    assert(entries@[i].0@ == m);
                    lemma_sorted_find(entries@, i);
                }
            }
        }
        NameMap { entries }
    }
}

impl<V> NameMap<V> {
    /// The value kept under a name.
    pub closed spec fn value_of(self, name: Seq<char>) -> Option<V> {
        find(self.entries@, name)
    }

    /// How many names have a value.
    pub closed spec fn size(self) -> nat {
        self.entries@.len()
    }

    /// The names with their values, in order.
    pub closed spec fn listed(self) -> Seq<(Seq<char>, V)> {
        self.entries@.map_values(|e: (String, V)| (e.0@, e.1))
    }

    #[verifier::type_invariant]
    pub closed spec fn in_order(self) -> bool {
        sorted_names(self.entries@)
    }

    pub fn new() -> (r: NameMap<V>)
        ensures
            forall|n: Seq<char>| #[trigger] r.value_of(n) is None,
            r.size() == 0,
    {
        NameMap { entries: Vec::new() }
    }

    pub fn len(&self) -> (r: usize)
        ensures
            r == self.size(),
    {
        self.entries.len()
    }

    /// The number of names before a name.
    fn rank(&self, name: &String) -> (r: usize)
        ensures
            r <= self.entries@.len(),
            forall|j: int|
                0 <= j < r ==> name_before((#[trigger] self.entries@[j]).0@, name@),
            forall|j: int|
                r <= j < self.entries@.len() ==> !name_before(
                    (#[trigger] self.entries@[j]).0@,
                    name@,
                ),
            r < self.entries@.len() ==> self.entries@[r as int].0@ == name@ || name_before(
                name@,
                self.entries@[r as int].0@,
            ),
    {
        proof {
            use_type_invariant(self);
        }
        let mut lo: usize = 0;
        let mut hi: usize = self.entries.len();
        while lo < hi
            invariant
                lo <= hi <= self.entries@.len(),
                sorted_names(self.entries@),
                forall|j: int|
                    0 <= j < lo ==> name_before((#[trigger] self.entries@[j]).0@, name@),
                forall|j: int|
                    hi <= j < self.entries@.len() ==> !name_before(
                        (#[trigger] self.entries@[j]).0@,
                        name@,
                    ),
                hi < self.entries@.len() ==> self.entries@[hi as int].0@ == name@ || name_before(
                    name@,
                    self.entries@[hi as int].0@,
                ),
            decreases hi - lo,
        {
            let mid: usize = lo + (hi - lo) / 2;
            let ghost middle = self.entries@[mid as int].0@;
            if comes_before(&self.entries[mid].0, name) {
                proof {
                    assert forall|j: int| 0 <= j < mid + 1 implies name_before(
                        (#[trigger] self.entries@[j]).0@,
                        name@,
                    ) by {
                        if lo <= j < mid {
                            lemma_name_order(self.entries@[j].0@, middle, name@);
                        }
                    }
                }
                lo = mid + 1;
            } else {
                proof {
                    assert forall|j: int| mid <= j < self.entries@.len() implies !name_before(
                        (#[trigger] self.entries@[j]).0@,
                        name@,
                    ) by {
                        if mid < j && name_before(self.entries@[j].0@, name@) {
                            lemma_name_order(middle, self.entries@[j].0@, name@);
                        }
                    }
                }
                hi = mid;
            }
        }
        lo
    }

    /// The place of a name, if it has a value.
    fn position(&self, name: &String) -> (r: Option<usize>)
        ensures
            match r {
                Some(i) => i < self.entries@.len() && self.entries@[i as int].0@ == name@ && (forall|
                    j: int,
                |
                    0 <= j < i ==> (#[trigger] self.entries@[j]).0@ != name@),
                None => forall|j: int|
                    0 <= j < self.entries@.len() ==> (#[trigger] self.entries@[j]).0@ != name@,
            },
    {
        let i: usize = self.rank(name);
        proof {
            use_type_invariant(self);
            lemma_name_order(name@, name@, name@);
            assert forall|j: int| 0 <= j < i implies (#[trigger] self.entries@[j]).0@ != name@ by {
                assert(name_before(self.entries@[j].0@, name@));
            }
        }
        if i < self.entries.len() && self.entries[i].0 == *name {
            return Some(i);
        }
        proof {
            assert forall|j: int| i <= j < self.entries@.len() implies (
            #[trigger] self.entries@[j]).0@ != name@ by {
                if i < j {
                    assert(name_before(self.entries@[i as int].0@, self.entries@[j].0@));
                    lemma_name_order(name@, self.entries@[i as int].0@, self.entries@[j].0@);
                }
            }
        }
        None
    }

    /// The value under a name, if it has one.
    pub fn get(&self, name: &String) -> (r: Option<&V>)
        ensures
            match r {
                Some(v) => self.value_of(name@) == Some(*v),
                None => self.value_of(name@) is None,
            },
    {
        match self.position(name) {
            Some(i) => {
                proof {
                    lemma_find_at(self.entries@, name@, i as int);
                }
                Some(&self.entries[i].1)
            },
            None => {
                proof {
                    lemma_find_none(self.entries@, name@);
                }
                None
            },
        }
    }

    pub fn contains_key(&self, name: &String) -> (r: bool)
        ensures
            r == (self.value_of(name@) is Some),
    {
        self.get(name).is_some()
    }

    /// The names that have a value, in order.
    pub fn names(&self) -> (r: Vec<String>)
        ensures
            r@.len() == self.size(),
            forall|i: int, j: int|
                0 <= i < j < r@.len() ==> name_before((#[trigger] r@[i])@, (#[trigger] r@[j])@),
            forall|i: int| 0 <= i < r@.len() ==> self.value_of((#[trigger] r@[i])@) is Some,
            forall|n: Seq<char>| #[trigger]
                self.value_of(n) is Some ==> exists|i: int|
                    0 <= i < r@.len() && (#[trigger] r@[i])@ == n,
    {
        proof {
            use_type_invariant(self);
        }
        let n: usize = self.entries.len();
        let mut r: Vec<String> = Vec::with_capacity(n);
        for i in 0..n
            invariant
                n == self.entries@.len(),
                r@.len() == i,
                forall|j: int| 0 <= j < i ==> (#[trigger] r@[j])@ == self.entries@[j].0@,
        {
            r.push(self.entries[i].0.clone());
        }
        proof {
            assert forall|i: int, j: int| 0 <= i < j < r@.len() implies name_before(
                (#[trigger] r@[i])@,
                (#[trigger] r@[j])@,
            ) by {
                assert(name_before(self.entries@[i].0@, self.entries@[j].0@));
            }
            assert forall|i: int| 0 <= i < r@.len() implies self.value_of(
                (#[trigger] r@[i])@,
            ) is Some by {
                lemma_sorted_find(self.entries@, i);
            }
            assert forall|m: Seq<char>| #[trigger] self.value_of(m) is Some implies exists|i: int|
                0 <= i < r@.len() && (#[trigger] r@[i])@ == m by {
                let i = lemma_found(self.entries@, m);
                assert(r@[i]@ == m);
            }
        }
        r
    }

    /// Sets the value under a name; other names keep theirs.
    pub fn insert(&mut self, name: String, value: V)
        ensures
            forall|n: Seq<char>|
                #[trigger] final(self).value_of(n) == if n == name@ {
                    Some(value)
                } else {
                    old(self).value_of(n)
                },
            final(self).size() == old(self).size() + if old(self).value_of(name@) is Some {
                0nat
            } else {
                1
            },
    {
        let ghost before = self.entries@;
        proof {
            use_type_invariant(&*self);
        }
        let found = self.position(&name);
        let i: usize = self.rank(&name);
        let mut entries: Vec<(String, V)> = Vec::new();
        std::mem::swap(&mut entries, &mut self.entries);
        match found {
            Some(i) => {
                proof {
                    lemma_find_at(before, name@, i as int);
                    assert forall|n: Seq<char>|
                        #[trigger] find(before.update(i as int, (before[i as int].0, value)), n)
                            == if n == name@ {
                            Some(value)
                        } else {
                            find(before, n)
                        } by {
                        lemma_find_update(before, i as int, value, n);
                    }
                }
                let key = entries[i].0.clone();
                entries.set(i, (key, value));
            },
            None => {
                proof {
                    lemma_find_none(before, name@);
                    assert forall|n: Seq<char>|
                        #[trigger] find(before.insert(i as int, (name, value)), n) == if n
                            == name@ {
                            Some(value)
                        } else {
                            find(before, n)
                        } by {
                        lemma_find_insert(before, i as int, name, value, n);
                    }
                    lemma_sorted_insert(before, i as int, name, value);
                }
                entries.insert(i, (name, value));
            },
        }
        assert(sorted_names(entries@));
        self.entries = entries;
    }

    /// Maps that hold the same values under the same names list the same entries.
    pub proof fn lemma_same_listed(self, other: NameMap<V>)
        requires
            self.in_order(),
            other.in_order(),
            forall|n: Seq<char>| #[trigger] self.value_of(n) == other.value_of(n),
        ensures
            self.listed() == other.listed(),
    {
        assert forall|n: Seq<char>| #[trigger] find(self.entries@, n) == find(
            other.entries@,
            n,
        ) by {
            assert(self.value_of(n) == other.value_of(n));
        }
        lemma_same_entries(self.entries@, other.entries@);
    }
}

proof fn lemma_sorted_find<V>(entries: Seq<(String, V)>, i: int)
    requires
        sorted_names(entries),
        0 <= i < entries.len(),
    ensures
        find(entries, entries[i].0@) == Some(entries[i].1),
{
    let name = entries[i].0@;
    assert forall|j: int| 0 <= j < i implies (#[trigger] entries[j]).0@ != name by {
        assert(name_before(entries[j].0@, entries[i].0@));
        lemma_name_order(entries[j].0@, name, name);
    }
    lemma_find_at(entries, name, i);
}

proof fn lemma_found<V>(entries: Seq<(String, V)>, name: Seq<char>) -> (i: int)
    requires
        find(entries, name) is Some,
    ensures
        0 <= i < entries.len(),
        entries[i].0@ == name,
        find(entries, name) == Some(entries[i].1),
    decreases entries.len(),
{
    if entries[0].0@ == name {
        0
    } else {
        let i = lemma_found(entries.drop_first(), name);
        i + 1
    }
}

proof fn lemma_sorted_insert<V>(entries: Seq<(String, V)>, i: int, name: String, v: V)
    requires
        sorted_names(entries),
        0 <= i <= entries.len(),
        forall|j: int| 0 <= j < i ==> name_before((#[trigger] entries[j]).0@, name@),
        i < entries.len() ==> name_before(name@, entries[i].0@),
    ensures
        sorted_names(entries.insert(i, (name, v))),
{
    let after = entries.insert(i, (name, v));
    assert forall|a: int, b: int| 0 <= a < b < after.len() implies name_before(
        (#[trigger] after[a]).0@,
        (#[trigger] after[b]).0@,
    ) by {
        let x = if a < i {
            a
        } else {
            a - 1
        };
        let y = if b < i {
            b
        } else {
            b - 1
        };
        if a != i && b != i {
            assert(name_before(entries[x].0@, entries[y].0@));
        } else if b == i {
            assert(name_before(entries[a].0@, name@));
        } else if y > i {
            assert(name_before(entries[i].0@, entries[y].0@));
            lemma_name_order(name@, entries[i].0@, entries[y].0@);
        }
    }
}

/// Entries in order are settled by what they hold.
proof fn lemma_same_entries<V>(a: Seq<(String, V)>, b: Seq<(String, V)>)
    requires
        sorted_names(a),
        sorted_names(b),
        forall|n: Seq<char>| #[trigger] find(a, n) == find(b, n),
    ensures
        a.map_values(|e: (String, V)| (e.0@, e.1)) == b.map_values(|e: (String, V)| (e.0@, e.1)),
    decreases a.len(),
{
    let pair = |e: (String, V)| (e.0@, e.1);
    if a.len() == 0 {
        if b.len() > 0 {
            lemma_sorted_find(b, 0);
            assert(find(a, b[0].0@) is None);
        }
        assert(a.map_values(pair) =~= b.map_values(pair));
    } else {
        lemma_sorted_find(a, 0);
        let (x, y) = (a[0].0@, b[0].0@);
        let i = lemma_found(b, x);
        lemma_sorted_find(b, 0);
        let j = lemma_found(a, y);
        if x != y {
            assert(name_before(b[0].0@, b[i].0@));
            assert(name_before(a[0].0@, a[j].0@));
            lemma_name_order(x, y, x);
            assert(false);
        }
        let (ra, rb) = (a.drop_first(), b.drop_first());
        assert forall|n: Seq<char>| #[trigger] find(ra, n) == find(rb, n) by {
            if n == x {
                lemma_absent_behind(a);
                lemma_absent_behind(b);
            } else {
                assert(find(a, n) == find(ra, n));
                assert(find(b, n) == find(rb, n));
            }
        }
        lemma_sorted_rest(a);
        lemma_sorted_rest(b);
        lemma_same_entries(ra, rb);
        assert(a.map_values(pair) =~= seq![(x, a[0].1)] + ra.map_values(pair));
        assert(b.map_values(pair) =~= seq![(y, b[0].1)] + rb.map_values(pair));
    }
}

proof fn lemma_sorted_rest<V>(entries: Seq<(String, V)>)
    requires
        sorted_names(entries),
        entries.len() > 0,
    ensures
        sorted_names(entries.drop_first()),
{
    let rest = entries.drop_first();
    assert forall|i: int, j: int| 0 <= i < j < rest.len() implies name_before(
        (#[trigger] rest[i]).0@,
        (#[trigger] rest[j]).0@,
    ) by {
        assert(name_before(entries[i + 1].0@, entries[j + 1].0@));
    }
}

/// The first name comes once.
proof fn lemma_absent_behind<V>(entries: Seq<(String, V)>)
    requires
        sorted_names(entries),
        entries.len() > 0,
    ensures
        find(entries.drop_first(), entries[0].0@) is None,
{
    let rest = entries.drop_first();
    assert forall|j: int| 0 <= j < rest.len() implies (#[trigger] rest[j]).0@ != entries[0].0@ by {
        assert(name_before(entries[0].0@, entries[j + 1].0@));
        lemma_name_order(entries[0].0@, entries[j + 1].0@, entries[0].0@);
    }
    lemma_find_none(rest, entries[0].0@);
}

/// The decimal digit of a number below ten.
pub open spec fn digit_s(d: nat) -> Seq<char> {
    if d == 0 {
        "0"@
    } else if d == 1 {
        "1"@
    } else if d == 2 {
        "2"@
    } else if d == 3 {
        "3"@
    } else if d == 4 {
        "4"@
    } else if d == 5 {
        "5"@
    } else if d == 6 {
        "6"@
    } else if d == 7 {
        "7"@
    } else if d == 8 {
        "8"@
    } else {
        "9"@
    }
}

/// A number in decimal, without leading zeros.
pub open spec fn decimal_s(n: nat) -> Seq<char>
    decreases n,
{
    if n < 10 {
        digit_s(n)
    } else {
        decimal_s(n / 10) + digit_s(n % 10)
    }
}

fn digit(d: u64) -> (r: &'static str)
    requires
        d < 10,
    ensures
        r@ == digit_s(d as nat),
{
    if d == 0 {
        "0"
    } else if d == 1 {
        "1"
    } else if d == 2 {
        "2"
    } else if d == 3 {
        "3"
    } else if d == 4 {
        "4"
    } else if d == 5 {
        "5"
    } else if d == 6 {
        "6"
    } else if d == 7 {
        "7"
    } else if d == 8 {
        "8"
    } else {
        "9"
    }
}

/// Writes a number in decimal behind a text.
pub fn append_decimal(text: &mut String, n: u64)
    ensures
        final(text)@ == old(text)@ + decimal_s(n as nat),
    decreases n,
{
    if n >= 10 {
        append_decimal(text, n / 10);
        let ghost head = text@;
        text.append(digit(n % 10));
        assert(text@ =~= old(text)@ + (decimal_s((n / 10) as nat) + digit_s((n % 10) as nat)));
    } else {
        text.append(digit(n));
    }
}

proof fn lemma_digit(a: nat, b: nat)
    requires
        a < 10,
        b < 10,
    ensures
        digit_s(a).len() == 1,
        digit_s(a) == digit_s(b) ==> a == b,
{
    reveal_strlit("0");
    reveal_strlit("1");
    reveal_strlit("2");
    reveal_strlit("3");
    reveal_strlit("4");
    reveal_strlit("5");
    reveal_strlit("6");
    reveal_strlit("7");
    reveal_strlit("8");
    reveal_strlit("9");
    if digit_s(a) == digit_s(b) {
        assert(digit_s(a)[0] == digit_s(b)[0]);
    }
}

proof fn lemma_decimal_nonempty(n: nat)
    ensures
        decimal_s(n).len() >= 1,
        n >= 10 ==> decimal_s(n).len() >= 2,
    decreases n,
{
    if n < 10 {
        lemma_digit(n, n);
    } else {
        lemma_decimal_nonempty(n / 10);
        lemma_digit(n % 10, n % 10);
    }
}

/// Different numbers are written differently.
pub proof fn lemma_decimal_injective(a: nat, b: nat)
    requires
        decimal_s(a) == decimal_s(b),
    ensures
        a == b,
    decreases a,
{
    lemma_decimal_nonempty(a);
    lemma_decimal_nonempty(b);
    if a < 10 {
        lemma_digit(a, b % 10);
        lemma_digit(a, a);
        if b < 10 {
            lemma_digit(a, b);
        }
    } else {
        if b < 10 {
            lemma_digit(b, b);
        }
        lemma_digit(a % 10, b % 10);
        lemma_digit(b % 10, b % 10);
        let s = decimal_s(a);
        let k = s.len() - 1;
        assert(s.subrange(0, k) =~= decimal_s(a / 10));
        assert(s.subrange(0, k) =~= decimal_s(b / 10));
        assert(s.subrange(k, s.len() as int) =~= digit_s(a % 10));
        assert(s.subrange(k, s.len() as int) =~= digit_s(b % 10));
        lemma_decimal_injective(a / 10, b / 10);
    }
}

} // verus!
