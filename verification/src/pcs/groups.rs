//! Samples grouped by what they share: a size and a folded point.

use vstd::prelude::*;

use crate::circle::CirclePoint;
use crate::fields::cm31::CM31;
use crate::fields::m31::M31;
use crate::fields::qm31::QM31;

verus! {

/// The words of a size and a point.
pub open spec fn key_words(log_size: u32, p: CirclePoint<QM31>) -> Seq<u32> {
    seq![
        log_size,
        p.x.0.0.0,
        p.x.0.1.0,
        p.x.1.0.0,
        p.x.1.1.0,
        p.y.0.0.0,
        p.y.0.1.0,
        p.y.1.0.0,
        p.y.1.1.0,
    ]
}

/// The key of a size and a point.
pub fn sample_key(log_size: u32, p: CirclePoint<QM31>) -> (r: [u32; 9])
    ensures
        r@ == key_words(log_size, p),
{
    let r: [u32; 9] = [
        log_size,
        p.x.0.0.0,
        p.x.0.1.0,
        p.x.1.0.0,
        p.x.1.1.0,
        p.y.0.0.0,
        p.y.0.1.0,
        p.y.1.0.0,
        p.y.1.1.0,
    ];
    assert(r@ =~= key_words(log_size, p));
    r
}

/// The point that the words of a key hold.
pub open spec fn key_point_s(key: Seq<u32>) -> CirclePoint<QM31> {
    CirclePoint {
        x: QM31(CM31(M31(key[1]), M31(key[2])), CM31(M31(key[3]), M31(key[4]))),
        y: QM31(CM31(M31(key[5]), M31(key[6])), CM31(M31(key[7]), M31(key[8]))),
    }
}

/// The point of a key.
pub fn key_point(key: &[u32; 9]) -> (r: CirclePoint<QM31>)
    ensures
        r == key_point_s(key@),
{
    CirclePoint {
        x: QM31::from_u32_unchecked(key[1], key[2], key[3], key[4]),
        y: QM31::from_u32_unchecked(key[5], key[6], key[7], key[8]),
    }
}

/// A key holds its size and its point.
pub proof fn lemma_key(log_size: u32, p: CirclePoint<QM31>)
    ensures
        key_words(log_size, p)[0] == log_size,
        key_point_s(key_words(log_size, p)) == p,
{
}

/// A sample's tree, column and point.
pub type SamplePlace = (usize, usize, usize);

/// Sample places under their keys (a `hashbrown::HashMap`).
#[verifier::external_body]
pub struct SampleGroups {
    map: hashbrown::HashMap<[u32; 9], Vec<(usize, usize, usize)>>,
}

/// What a map holds: the places under the words of each key, in the order they were added.
pub uninterp spec fn places_of(groups: SampleGroups) -> Map<Seq<u32>, Seq<(usize, usize, usize)>>;

/// Nothing under any key.
pub open spec fn no_places() -> Map<Seq<u32>, Seq<(usize, usize, usize)>> {
    Map::empty()
}

/// An empty map (`hashbrown::HashMap::new`).
#[verifier::external_body]
pub(crate) fn new_groups() -> (r: SampleGroups)
    ensures
        places_of(r) == no_places(),
{
    SampleGroups { map: hashbrown::HashMap::new() }
}

/// The places under a key, none if the key is new.
pub open spec fn places_under(
    held: Map<Seq<u32>, Seq<(usize, usize, usize)>>,
    key: Seq<u32>,
) -> Seq<(usize, usize, usize)> {
    if held.dom().contains(key) {
        held[key]
    } else {
        Seq::empty()
    }
}

/// Adds a place behind those under its key (`hashbrown::HashMap::entry` with `or_default`): a new
/// key starts without places, and no other key changes.
#[verifier::external_body]
pub(crate) fn push_place(groups: &mut SampleGroups, key: [u32; 9], place: (usize, usize, usize))
    ensures
        places_of(*final(groups)) == places_of(*old(groups)).insert(
            key@,
            places_under(places_of(*old(groups)), key@).push(place),
        ),
{
    groups.map.entry(key).or_default().push(place);
}

/// `list` holds every key of a map once, with its places.
pub open spec fn lists(
    held: Map<Seq<u32>, Seq<(usize, usize, usize)>>,
    list: Seq<([u32; 9], Vec<(usize, usize, usize)>)>,
) -> bool {
    &&& forall|i: int|
        0 <= i < list.len() ==> held.dom().contains((#[trigger] list[i]).0@) && held[list[i].0@]
            == list[i].1@
    &&& forall|key: Seq<u32>|
        #[trigger] held.dom().contains(key) ==> exists|i: int|
            0 <= i < list.len() && (#[trigger] list[i]).0@ == key
    &&& forall|i: int, j: int|
        0 <= i < j < list.len() ==> (#[trigger] list[i]).0@ != (#[trigger] list[j]).0@
}

/// All keys with their places (`hashbrown::HashMap::into_iter`), in whatever order.
#[verifier::external_body]
pub(crate) fn into_list(groups: SampleGroups) -> (r: Vec<([u32; 9], Vec<(usize, usize, usize)>)>)
    ensures
        lists(places_of(groups), r@),
{
    groups.map.into_iter().collect()
}

/// Whether a key comes before another: by size first, and by the words of the point.
pub open spec fn key_before(a: Seq<u32>, b: Seq<u32>, from: int) -> bool
    decreases 9 - from,
{
    if from >= 9 || from < 0 {
        false
    } else if a[from] != b[from] {
        a[from] < b[from]
    } else {
        key_before(a, b, from + 1)
    }
}

fn comes_before(a: &[u32; 9], b: &[u32; 9]) -> (r: bool)
    ensures
        r == key_before(a@, b@, 0),
{
    let mut k: usize = 0;
    while k < 9
        invariant
            k <= 9,
            a@.len() == 9,
            b@.len() == 9,
            key_before(a@, b@, 0) == key_before(a@, b@, k as int),
        decreases 9 - k,
    {
        if a[k] != b[k] {
            return a[k] < b[k];
        }
        k = k + 1;
    }
    false
}

/// Whether no key comes before its predecessor.
pub open spec fn keys_sorted(list: Seq<([u32; 9], Vec<(usize, usize, usize)>)>) -> bool {
    forall|i: int, j: int|
        0 <= i < list.len() && j == i + 1 && j < list.len() ==> !key_before(
            (#[trigger] list[j]).0@,
            (#[trigger] list[i]).0@,
            0,
        )
}

/// If a key does not come before another, and does not follow it either, they are equal.
proof fn lemma_key_order(a: Seq<u32>, b: Seq<u32>, from: int)
    requires
        0 <= from <= 9,
    ensures
        !(key_before(a, b, from) && key_before(b, a, from)),
    decreases 9 - from,
{
    if from < 9 {
        lemma_key_order(a, b, from + 1);
    }
}

/// Sorts the groups by their keys, moving each into its place among those before it.
pub fn sort_groups(list: Vec<([u32; 9], Vec<(usize, usize, usize)>)>) -> (r: Vec<
    ([u32; 9], Vec<(usize, usize, usize)>),
>)
    ensures
        keys_sorted(r@),
        r@.to_multiset() == list@.to_multiset(),
{
    let ghost all = list@;
    let mut r: Vec<([u32; 9], Vec<(usize, usize, usize)>)> = Vec::with_capacity(list.len());
    assert(all.take(0) =~= r@);
    for entry in iter: list
        invariant
            iter.seq() == all,
            keys_sorted(r@),
            r@.to_multiset() == all.take(iter.index() as int).to_multiset(),
    {
        let ghost k = iter.index() as int;
        assert(entry == all[k]);
        let ghost before = r@;
        let mut at: usize = r.len();
        while at > 0 && comes_before(&entry.0, &r[at - 1].0)
            invariant
                at <= r.len(),
                r@ == before,
                at < r.len() ==> key_before(entry.0@, r@[at as int].0@, 0),
            decreases at,
        {
            at = at - 1;
        }
        let ghost e = entry;
        r.insert(at, entry);
        proof {
            assert(r@ == before.insert(at as int, e));
            vstd::seq_lib::to_multiset_insert(before, at as int, e);
            vstd::seq_lib::to_multiset_build(all.take(k), e);
            assert(all.take(k + 1) =~= all.take(k).push(e));
            assert forall|i: int, j: int|
                0 <= i < r@.len() && j == i + 1 && j < r@.len() implies !key_before(
                (#[trigger] r@[j]).0@,
                (#[trigger] r@[i]).0@,
                0,
            ) by {
                if j < at {
                    assert(!key_before(before[j].0@, before[i].0@, 0));
                } else if i > at {
                    assert(!key_before(before[j - 1].0@, before[i - 1].0@, 0));
                } else if i == at {
                    lemma_key_order(e.0@, before[at as int].0@, 0);
                }
            }
        }
    }
    assert(all.take(all.len() as int) =~= all);
    r
}

/// A reordered list lists the same map.
pub proof fn lemma_lists_reordered(
    held: Map<Seq<u32>, Seq<(usize, usize, usize)>>,
    a: Seq<([u32; 9], Vec<(usize, usize, usize)>)>,
    b: Seq<([u32; 9], Vec<(usize, usize, usize)>)>,
)
    requires
        lists(held, a),
        a.to_multiset() == b.to_multiset(),
    ensures
        lists(held, b),
{
    a.to_multiset_ensures();
    b.to_multiset_ensures();
    assert forall|i: int| 0 <= i < b.len() implies held.dom().contains((#[trigger] b[i]).0@)
        && held[b[i].0@] == b[i].1@ by {
        assert(b.contains(b[i]));
        assert(a.to_multiset().count(b[i]) > 0);
        assert(a.contains(b[i]));
        let j = choose|j: int| 0 <= j < a.len() && a[j] == b[i];
        assert(held.dom().contains(a[j].0@));
    }
    assert forall|key: Seq<u32>| #[trigger] held.dom().contains(key) implies exists|i: int|
        0 <= i < b.len() && (#[trigger] b[i]).0@ == key by {
        let j = choose|j: int| 0 <= j < a.len() && (#[trigger] a[j]).0@ == key;
        assert(a.contains(a[j]));
        assert(b.to_multiset().count(a[j]) > 0);
        assert(b.contains(a[j]));
        let i = choose|i: int| 0 <= i < b.len() && b[i] == a[j];
        assert(b[i].0@ == key);
    }
    assert forall|i: int, j: int| 0 <= i < j < b.len() implies (#[trigger] b[i]).0@ != (
    #[trigger] b[j]).0@ by {
        if b[i].0@ == b[j].0@ {
            assert(b.contains(b[i]) && b.contains(b[j]));
            assert(a.to_multiset().count(b[i]) > 0 && a.to_multiset().count(b[j]) > 0);
            assert(a.contains(b[i]) && a.contains(b[j]));
            let x = choose|x: int| 0 <= x < a.len() && a[x] == b[i];
            let y = choose|y: int| 0 <= y < a.len() && a[y] == b[j];
            if x != y {
                if x < y {
                    assert(a[x].0@ != a[y].0@);
                } else {
                    assert(a[y].0@ != a[x].0@);
                }
            }
            assert(b[i] == b[j]);
            lemma_count_twice(b, i, j);
            lemma_count_once(a, b[i]);
        }
    }
}

/// An element at two places is counted twice.
proof fn lemma_count_twice<T>(s: Seq<T>, i: int, j: int)
    requires
        0 <= i < j < s.len(),
        s[i] == s[j],
    ensures
        s.to_multiset().count(s[i]) >= 2,
{
    let e = s[i];
    let rest = s.remove(j);
    s.to_multiset_ensures();
    rest.to_multiset_ensures();
    vstd::seq_lib::to_multiset_remove(s, j);
    assert(rest[i] == e);
    assert(rest.contains(e));
    assert(rest.to_multiset().count(e) >= 1);
    assert(s.contains(e));
}

/// An element of a list with distinct keys is counted once.
proof fn lemma_count_once(
    a: Seq<([u32; 9], Vec<(usize, usize, usize)>)>,
    e: ([u32; 9], Vec<(usize, usize, usize)>),
)
    requires
        forall|i: int, j: int|
            0 <= i < j < a.len() ==> (#[trigger] a[i]).0@ != (#[trigger] a[j]).0@,
    ensures
        a.to_multiset().count(e) <= 1,
{
    assert(a.no_duplicates()) by {
        assert forall|i: int, j: int| 0 <= i < a.len() && 0 <= j < a.len() && i != j implies a[i]
            != a[j] by {
            if i < j {
                assert(a[i].0@ != a[j].0@);
            } else {
                assert(a[j].0@ != a[i].0@);
            }
        }
    }
    a.lemma_multiset_has_no_duplicates();
    if a.to_multiset().count(e) > 1 {
        assert(a.to_multiset().contains(e));
    }
}

} // verus!
