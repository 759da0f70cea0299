//! Values of committed columns at points out of the domain, computed group by group.

use vstd::arithmetic::power2::pow2;
use vstd::prelude::*;

use super::groups::{
    into_list, key_point, key_point_s, key_words, lemma_key, lemma_lists_reordered, lists,
    new_groups, places_of, places_under, push_place, sample_key, sort_groups, SampleGroups,
};
use super::weights::WeightsHashMap;
use crate::circle::CirclePoint;
use crate::fields::qm31::QM31;
use crate::fields::Field;
use crate::poly::barycentric::{
    barycentric_eval_many_at_point, barycentric_eval_many_groups, barycentric_weights,
    weights_exist, weights_s, BarycentricEvalGroup,
};
use crate::poly::circle_poly::{CircleCoefficients, CircleEvaluation, Poly};
use crate::poly::domain::{canonic_domain, CanonicCoset};
use crate::poly::eval::{dot_s, eval_basis_at_point, eval_many_at_point_with_basis};
use crate::poly::fold::{basis_s, mappings};

verus! {

/// A point and the value of a column there.
#[derive(Clone, Copy)]
pub struct PointSample {
    pub point: CirclePoint<QM31>,
    pub value: QM31,
}

/// The columns of all trees.
pub type TreeColumns<'a> = Vec<Vec<&'a Poly>>;

/// The sampled points of all columns.
pub type TreePoints = Vec<Vec<Vec<CirclePoint<QM31>>>>;

/// The samples of all columns.
pub type TreeSamples = Vec<Vec<Vec<PointSample>>>;

/// Whether there are points for every column of every tree.
pub open spec fn same_shape(
    polys: Seq<Vec<&Poly>>,
    points: Seq<Vec<Vec<CirclePoint<QM31>>>>,
) -> bool {
    &&& polys.len() == points.len()
    &&& forall|t: int|
        0 <= t < polys.len() ==> (#[trigger] polys[t]).len() == (#[trigger] points[t]).len()
}

/// Whether a place is that of a sample.
pub open spec fn is_place(
    points: Seq<Vec<Vec<CirclePoint<QM31>>>>,
    place: (usize, usize, usize),
) -> bool {
    &&& place.0 < points.len()
    &&& place.1 < points[place.0 as int].len()
    &&& place.2 < points[place.0 as int]@[place.1 as int].len()
}

/// The point of a place.
pub open spec fn point_at(
    points: Seq<Vec<Vec<CirclePoint<QM31>>>>,
    place: (usize, usize, usize),
) -> CirclePoint<QM31> {
    points[place.0 as int]@[place.1 as int]@[place.2 as int]
}

/// The column of a place.
pub open spec fn poly_at_place<'a>(polys: Seq<Vec<&'a Poly>>, place: (usize, usize, usize)) -> &'a Poly {
    polys[place.0 as int]@[place.1 as int]
}

/// The point of a place, doubled to the size of its column.
pub open spec fn folded_at(
    polys: Seq<Vec<&Poly>>,
    points: Seq<Vec<Vec<CirclePoint<QM31>>>>,
    lifting_log_size: nat,
    place: (usize, usize, usize),
) -> CirclePoint<QM31> {
    point_at(points, place).doubled(
        (lifting_log_size - poly_at_place(polys, place).evals.domain.log_size_s()) as nat,
    )
}

/// The size by which samples are grouped: that of the evaluations, or that of the coefficients.
pub open spec fn group_log(poly: Poly, by_coeffs: bool) -> nat {
    if by_coeffs {
        poly.coeffs->0.log_size as nat
    } else {
        poly.evals.domain.log_size_s()
    }
}

/// The key of a place.
pub open spec fn place_key(
    polys: Seq<Vec<&Poly>>,
    points: Seq<Vec<Vec<CirclePoint<QM31>>>>,
    lifting_log_size: nat,
    by_coeffs: bool,
    place: (usize, usize, usize),
) -> Seq<u32> {
    key_words(
        group_log(*poly_at_place(polys, place), by_coeffs) as u32,
        folded_at(polys, points, lifting_log_size, place),
    )
}

/// Whether a column can be sampled: on a domain no larger than the lifted one, with coefficients
/// where those are used.
pub open spec fn poly_fits(poly: Poly, lifting_log_size: nat, by_coeffs: bool) -> bool {
    &&& poly.evals.wf()
    &&& poly.evals.domain.log_size_s() <= lifting_log_size
    &&& by_coeffs ==> poly.coeffs is Some && poly.coeffs->0.wf()
}

/// Whether all columns can be sampled.
pub open spec fn polys_fit(
    polys: Seq<Vec<&Poly>>,
    lifting_log_size: nat,
    by_coeffs: bool,
) -> bool {
    forall|t: int, c: int|
        0 <= t < polys.len() && 0 <= c < polys[t].len() ==> poly_fits(
            *(#[trigger] polys[t]@[c]),
            lifting_log_size,
            by_coeffs,
        )
}

/// Every place is under its key, up to the given one in order; nothing else is there.
pub open spec fn grouped(
    polys: Seq<Vec<&Poly>>,
    points: Seq<Vec<Vec<CirclePoint<QM31>>>>,
    lifting_log_size: nat,
    by_coeffs: bool,
    held: Map<Seq<u32>, Seq<(usize, usize, usize)>>,
    upto: (int, int, int),
) -> bool {
    &&& forall|key: Seq<u32>, i: int|
        #![trigger held[key][i]]
        held.dom().contains(key) && 0 <= i < held[key].len() ==> is_place(points, held[key][i])
            && precedes(held[key][i], upto) && place_key(
            polys,
            points,
            lifting_log_size,
            by_coeffs,
            held[key][i],
        ) == key
    &&& forall|key: Seq<u32>|
        #[trigger] held.dom().contains(key) ==> held[key].no_duplicates() && held[key].len() > 0
    &&& forall|place: (usize, usize, usize)|
        #![trigger is_place(points, place)]
        is_place(points, place) && precedes(place, upto) ==> {
            let key = place_key(polys, points, lifting_log_size, by_coeffs, place);
            held.dom().contains(key) && held[key].contains(place)
        }
}

/// Whether a place comes before another in the order of trees, columns and points.
pub open spec fn precedes(place: (usize, usize, usize), upto: (int, int, int)) -> bool {
    ||| place.0 < upto.0
    ||| place.0 == upto.0 && place.1 < upto.1
    ||| place.0 == upto.0 && place.1 == upto.1 && place.2 < upto.2
}

proof fn lemma_push_grouped(
    polys: Seq<Vec<&Poly>>,
    points: Seq<Vec<Vec<CirclePoint<QM31>>>>,
    lifting_log_size: nat,
    by_coeffs: bool,
    held: Map<Seq<u32>, Seq<(usize, usize, usize)>>,
    place: (usize, usize, usize),
)
    requires
        is_place(points, place),
        grouped(
            polys,
            points,
            lifting_log_size,
            by_coeffs,
            held,
            (place.0 as int, place.1 as int, place.2 as int),
        ),
    ensures
        ({
            let key = place_key(polys, points, lifting_log_size, by_coeffs, place);
            grouped(
                polys,
                points,
                lifting_log_size,
                by_coeffs,
                held.insert(key, places_under(held, key).push(place)),
                (place.0 as int, place.1 as int, place.2 + 1),
            )
        }),
{
    let key = place_key(polys, points, lifting_log_size, by_coeffs, place);
    let under = places_under(held, key);
    let next = held.insert(key, under.push(place));
    let upto = (place.0 as int, place.1 as int, place.2 + 1);
    assert forall|k: Seq<u32>| #[trigger] next.dom().contains(k) implies next[k].no_duplicates()
        && next[k].len() > 0 by {
        if k == key {
            let p = under.push(place);
            assert forall|i: int, j: int| 0 <= i < p.len() && 0 <= j < p.len() && i != j implies p[i]
                != p[j] by {
                if held.dom().contains(key) {
                    if i < under.len() {
                        assert(held[key][i] == under[i]);
                    }
                    if j < under.len() {
                        assert(held[key][j] == under[j]);
                    }
                    assert(held[key].no_duplicates());
                }
            }
        } else {
            assert(held.dom().contains(k));
        }
    }
    assert forall|k: Seq<u32>, i: int|
        #![trigger next[k][i]]
        next.dom().contains(k) && 0 <= i < next[k].len() implies is_place(points, next[k][i])
        && precedes(next[k][i], upto) && place_key(
        polys,
        points,
        lifting_log_size,
        by_coeffs,
        next[k][i],
    ) == k by {
        if k == key {
            if i < under.len() {
                assert(next[k][i] == under[i]);
                assert(held[key][i] == under[i]);
            }
        } else {
            assert(next[k][i] == held[k][i]);
        }
    }
    assert forall|p: (usize, usize, usize)|
        #![trigger is_place(points, p)]
        is_place(points, p) && precedes(p, (place.0 as int, place.1 as int, place.2 + 1)) implies {
        let k = place_key(polys, points, lifting_log_size, by_coeffs, p);
        next.dom().contains(k) && next[k].contains(p)
    } by {
        let k = place_key(polys, points, lifting_log_size, by_coeffs, p);
        if p == place {
            assert(next[key][under.len() as int] == place);
        } else {
            assert(precedes(p, (place.0 as int, place.1 as int, place.2 as int)));
            assert(held.dom().contains(k) && held[k].contains(p));
            let i = choose|i: int| 0 <= i < held[k].len() && held[k][i] == p;
            assert(next[k][i] == p);
        }
    }
}

/// Moving on from the last point of a column, or the last column of a tree, adds no place.
proof fn lemma_grouped_on(
    polys: Seq<Vec<&Poly>>,
    points: Seq<Vec<Vec<CirclePoint<QM31>>>>,
    lifting_log_size: nat,
    by_coeffs: bool,
    held: Map<Seq<u32>, Seq<(usize, usize, usize)>>,
    from: (int, int, int),
    to: (int, int, int),
)
    requires
        grouped(polys, points, lifting_log_size, by_coeffs, held, from),
        forall|place: (usize, usize, usize)|
            is_place(points, place) && precedes(place, to) ==> #[trigger] precedes(place, from),
        forall|place: (usize, usize, usize)|
            is_place(points, place) && precedes(place, from) ==> #[trigger] precedes(place, to),
    ensures
        grouped(polys, points, lifting_log_size, by_coeffs, held, to),
{
    assert forall|key: Seq<u32>, i: int|
        #![trigger held[key][i]]
        held.dom().contains(key) && 0 <= i < held[key].len() implies precedes(
        held[key][i],
        to,
    ) by {
        assert(precedes(held[key][i], from));
    }
    assert forall|place: (usize, usize, usize)|
        #![trigger is_place(points, place)]
        is_place(points, place) && precedes(place, to) implies {
        let key = place_key(polys, points, lifting_log_size, by_coeffs, place);
        held.dom().contains(key) && held[key].contains(place)
    } by {
        assert(precedes(place, from));
    }
}

/// Groups the samples of all columns by size and folded point.
fn collect_groups(
    polys: &Vec<Vec<&Poly>>,
    points: &Vec<Vec<Vec<CirclePoint<QM31>>>>,
    lifting_log_size: u32,
    by_coeffs: bool,
) -> (r: SampleGroups)
    requires
        lifting_log_size <= 31,
        same_shape(polys@, points@),
        polys_fit(polys@, lifting_log_size as nat, by_coeffs),
    ensures
        grouped(
            polys@,
            points@,
            lifting_log_size as nat,
            by_coeffs,
            places_of(r),
            (polys.len() as int, 0, 0),
        ),
{
    let ghost lg = lifting_log_size as nat;
    let mut groups = new_groups();
    let n_trees: usize = polys.len();
    assert(grouped(polys@, points@, lg, by_coeffs, places_of(groups), (0, 0, 0)));
    for t in 0..n_trees
        invariant
            n_trees == polys.len(),
            lifting_log_size <= 31,
            lg == lifting_log_size,
            same_shape(polys@, points@),
            polys_fit(polys@, lg, by_coeffs),
            grouped(polys@, points@, lg, by_coeffs, places_of(groups), (t as int, 0, 0)),
    {
        let cols = &polys[t];
        assert(polys@[t as int].len() == points@[t as int].len());
        let pts_cols = &points[t];
        let n_cols: usize = cols.len();
        for c in 0..n_cols
            invariant
                t < polys.len(),
                *cols == polys@[t as int],
                *pts_cols == points@[t as int],
                n_cols == cols.len(),
                n_cols == pts_cols.len(),
                lifting_log_size <= 31,
                lg == lifting_log_size,
                same_shape(polys@, points@),
                polys_fit(polys@, lg, by_coeffs),
                grouped(
                    polys@,
                    points@,
                    lg,
                    by_coeffs,
                    places_of(groups),
                    (t as int, c as int, 0),
                ),
        {
            let poly = cols[c];
            assert(poly_fits(*polys@[t as int]@[c as int], lg, by_coeffs));
            let pts = &pts_cols[c];
            let eval_log: u32 = poly.evals.domain.log_size();
            let log_size: u32 = if by_coeffs {
                match &poly.coeffs {
                    Some(coeffs) => coeffs.log_size(),
                    None => 0,
                }
            } else {
                eval_log
            };
            let n_points: usize = pts.len();
            for pi in 0..n_points
                invariant
                    t < polys.len(),
                    *cols == polys@[t as int],
                    *pts_cols == points@[t as int],
                    c < cols.len(),
                    c < pts_cols.len(),
                    poly == cols@[c as int],
                    *pts == pts_cols@[c as int],
                    n_points == pts.len(),
                    lg == lifting_log_size,
                    eval_log == poly.evals.domain.log_size_s(),
                    eval_log <= lifting_log_size,
                    log_size == group_log(*poly, by_coeffs),
                    same_shape(polys@, points@),
                    grouped(
                        polys@,
                        points@,
                        lg,
                        by_coeffs,
                        places_of(groups),
                        (t as int, c as int, pi as int),
                    ),
            {
                let folded = pts[pi].repeated_double(lifting_log_size - eval_log);
                let place: (usize, usize, usize) = (t, c, pi);
                proof {
                    assert(is_place(points@, place));
                    assert(poly_at_place(polys@, place) == poly);
                    assert(folded == folded_at(polys@, points@, lg, place));
                    lemma_push_grouped(
                        polys@,
                        points@,
                        lg,
                        by_coeffs,
                        places_of(groups),
                        place,
                    );
                }
                push_place(&mut groups, sample_key(log_size, folded), place);
            }
            proof {
                lemma_grouped_on(
                    polys@,
                    points@,
                    lg,
                    by_coeffs,
                    places_of(groups),
                    (t as int, c as int, n_points as int),
                    (t as int, c + 1, 0),
                );
            }
        }
        proof {
            lemma_grouped_on(
                polys@,
                points@,
                lg,
                by_coeffs,
                places_of(groups),
                (t as int, n_cols as int, 0),
                (t + 1, 0, 0),
            );
        }
    }
    groups
}

/// The sampled points, with zero for every value.
fn blank_samples(points: &Vec<Vec<Vec<CirclePoint<QM31>>>>) -> (r: Vec<Vec<Vec<PointSample>>>)
    ensures
        samples_for(points@, r@),
{
    let mut r: Vec<Vec<Vec<PointSample>>> = Vec::with_capacity(points.len());
    let n_trees: usize = points.len();
    for t in 0..n_trees
        invariant
            n_trees == points.len(),
            r.len() == t,
            forall|i: int| 0 <= i < t ==> tree_samples_for(#[trigger] points@[i]@, r@[i]@),
    {
        let tree = &points[t];
        let n_cols: usize = tree.len();
        let mut cols: Vec<Vec<PointSample>> = Vec::with_capacity(n_cols);
        for c in 0..n_cols
            invariant
                n_cols == tree.len(),
                cols.len() == c,
                forall|i: int|
                    0 <= i < c ==> column_samples_for(#[trigger] tree@[i]@, cols@[i]@),
        {
            let pts = &tree[c];
            let n: usize = pts.len();
            let mut column: Vec<PointSample> = Vec::with_capacity(n);
            for i in 0..n
                invariant
                    n == pts.len(),
                    column.len() == i,
                    forall|k: int| 0 <= k < i ==> (#[trigger] column@[k]).point == pts@[k],
            {
                column.push(PointSample { point: pts[i], value: QM31::zero() });
            }
            cols.push(column);
        }
        r.push(cols);
    }
    r
}

/// Whether the samples of a column are at its points, in order.
pub open spec fn column_samples_for(
    points: Seq<CirclePoint<QM31>>,
    samples: Seq<PointSample>,
) -> bool {
    &&& samples.len() == points.len()
    &&& forall|k: int| 0 <= k < points.len() ==> (#[trigger] samples[k]).point == points[k]
}

pub open spec fn tree_samples_for(
    points: Seq<Vec<CirclePoint<QM31>>>,
    samples: Seq<Vec<PointSample>>,
) -> bool {
    &&& samples.len() == points.len()
    &&& forall|c: int|
        0 <= c < points.len() ==> column_samples_for(#[trigger] points[c]@, samples[c]@)
}

/// Whether samples are at the points of all columns, in order.
pub open spec fn samples_for(
    points: Seq<Vec<Vec<CirclePoint<QM31>>>>,
    samples: Seq<Vec<Vec<PointSample>>>,
) -> bool {
    &&& samples.len() == points.len()
    &&& forall|t: int|
        0 <= t < points.len() ==> tree_samples_for(#[trigger] points[t]@, samples[t]@)
}

/// The value of the sample at a place.
pub open spec fn value_at(
    samples: Seq<Vec<Vec<PointSample>>>,
    place: (usize, usize, usize),
) -> QM31 {
    samples[place.0 as int]@[place.1 as int]@[place.2 as int].value
}

/// Sets the value of one sample.
fn set_value(
    samples: &mut Vec<Vec<Vec<PointSample>>>,
    place: (usize, usize, usize),
    value: QM31,
    Ghost(points): Ghost<Seq<Vec<Vec<CirclePoint<QM31>>>>>,
)
    requires
        samples_for(points, old(samples)@),
        is_place(points, place),
    ensures
        samples_for(points, final(samples)@),
        value_at(final(samples)@, place) == value,
        forall|p: (usize, usize, usize)|
            is_place(points, p) && p != place ==> #[trigger] value_at(final(samples)@, p)
                == value_at(old(samples)@, p),
{
    let ghost before = samples@;
    assert(tree_samples_for(points[place.0 as int]@, before[place.0 as int]@));
    assert(column_samples_for(
        points[place.0 as int]@[place.1 as int]@,
        before[place.0 as int]@[place.1 as int]@,
    ));
    let point = samples[place.0][place.1][place.2].point;
    samples[place.0][place.1].set(place.2, PointSample { point, value });
    proof {
        let after = samples@;
        assert forall|t: int| 0 <= t < points.len() implies tree_samples_for(
            #[trigger] points[t]@,
            after[t]@,
        ) by {
            assert(tree_samples_for(points[t]@, before[t]@));
            assert forall|c: int| 0 <= c < points[t].len() implies column_samples_for(
                #[trigger] points[t]@[c]@,
                after[t]@[c]@,
            ) by {
                assert(column_samples_for(points[t]@[c]@, before[t]@[c]@));
                assert forall|k: int| 0 <= k < points[t]@[c].len() implies (
                #[trigger] after[t]@[c]@[k]).point == points[t]@[c]@[k] by {
                    assert(before[t]@[c]@[k].point == points[t]@[c]@[k]);
                }
            }
        }
    }
}

// ---------------------------------------------------------------------------------------------
// Groups in order, their values, and the way back to the places.

/// A group: the words of its key, and the places of its samples.
pub type SampleGroup = ([u32; 9], Vec<(usize, usize, usize)>);

/// Whether the groups hold every place once, each under its key.
pub open spec fn grouping(
    polys: Seq<Vec<&Poly>>,
    points: Seq<Vec<Vec<CirclePoint<QM31>>>>,
    lifting_log_size: nat,
    by_coeffs: bool,
    list: Seq<([u32; 9], Vec<(usize, usize, usize)>)>,
) -> bool {
    &&& forall|i: int, j: int|
        #![trigger list[i].1@[j]]
        0 <= i < list.len() && 0 <= j < list[i].1.len() ==> is_place(points, list[i].1@[j])
            && place_key(polys, points, lifting_log_size, by_coeffs, list[i].1@[j]) == list[i].0@
    &&& forall|place: (usize, usize, usize)|
        #![trigger is_place(points, place)]
        is_place(points, place) ==> exists|i: int, j: int|
            0 <= i < list.len() && 0 <= j < list[i].1.len() && #[trigger] list[i].1@[j] == place
    &&& forall|i: int|
        0 <= i < list.len() ==> (#[trigger] list[i]).1@.no_duplicates() && list[i].1.len() > 0
    &&& forall|i: int, j: int|
        0 <= i < j < list.len() ==> (#[trigger] list[i]).0@ != (#[trigger] list[j]).0@
}

proof fn lemma_grouping(
    polys: Seq<Vec<&Poly>>,
    points: Seq<Vec<Vec<CirclePoint<QM31>>>>,
    lifting_log_size: nat,
    by_coeffs: bool,
    held: Map<Seq<u32>, Seq<(usize, usize, usize)>>,
    list: Seq<([u32; 9], Vec<(usize, usize, usize)>)>,
)
    requires
        grouped(
            polys,
            points,
            lifting_log_size,
            by_coeffs,
            held,
            (points.len() as int, 0, 0),
        ),
        lists(held, list),
    ensures
        grouping(polys, points, lifting_log_size, by_coeffs, list),
{
    assert forall|i: int, j: int|
        #![trigger list[i].1@[j]]
        0 <= i < list.len() && 0 <= j < list[i].1.len() implies is_place(points, list[i].1@[j])
        && place_key(polys, points, lifting_log_size, by_coeffs, list[i].1@[j]) == list[i].0@ by {
        let key = list[i].0@;
        assert(held.dom().contains(key));
        assert(held[key][j] == list[i].1@[j]);
    }
    assert forall|place: (usize, usize, usize)|
        #![trigger is_place(points, place)]
        is_place(points, place) implies exists|i: int, j: int|
        0 <= i < list.len() && 0 <= j < list[i].1.len() && #[trigger] list[i].1@[j] == place by {
        assert(precedes(place, (points.len() as int, 0, 0)));
        let key = place_key(polys, points, lifting_log_size, by_coeffs, place);
        assert(held.dom().contains(key) && held[key].contains(place));
        let i = choose|i: int| 0 <= i < list.len() && (#[trigger] list[i]).0@ == key;
        let j = choose|j: int| 0 <= j < held[key].len() && held[key][j] == place;
        assert(list[i].1@[j] == place);
    }
    assert forall|i: int| 0 <= i < list.len() implies (#[trigger] list[i]).1@.no_duplicates()
        && list[i].1.len() > 0 by {
        assert(held.dom().contains(list[i].0@));
    }
}

/// Groups the samples of all columns by size and folded point, in the order of the keys.
pub fn group_samples(
    polys: &Vec<Vec<&Poly>>,
    points: &Vec<Vec<Vec<CirclePoint<QM31>>>>,
    lifting_log_size: u32,
    by_coeffs: bool,
) -> (r: Vec<([u32; 9], Vec<(usize, usize, usize)>)>)
    requires
        lifting_log_size <= 31,
        same_shape(polys@, points@),
        polys_fit(polys@, lifting_log_size as nat, by_coeffs),
    ensures
        grouping(polys@, points@, lifting_log_size as nat, by_coeffs, r@),
        super::groups::keys_sorted(r@),
{
    let groups = collect_groups(polys, points, lifting_log_size, by_coeffs);
    let ghost held = places_of(groups);
    let list = into_list(groups);
    let ghost before = list@;
    let r = sort_groups(list);
    proof {
        lemma_lists_reordered(held, before, r@);
        lemma_grouping(polys@, points@, lifting_log_size as nat, by_coeffs, held, r@);
    }
    r
}

/// Puts the values of all groups at the places of their samples.
fn scatter(
    points: &Vec<Vec<Vec<CirclePoint<QM31>>>>,
    list: &Vec<([u32; 9], Vec<(usize, usize, usize)>)>,
    values: &Vec<Vec<QM31>>,
    Ghost(polys): Ghost<Seq<Vec<&Poly>>>,
    Ghost(lg): Ghost<nat>,
    Ghost(by_coeffs): Ghost<bool>,
) -> (r: Vec<Vec<Vec<PointSample>>>)
    requires
        grouping(polys, points@, lg, by_coeffs, list@),
        values.len() == list.len(),
        forall|i: int|
            0 <= i < list.len() ==> (#[trigger] values@[i]).len() == list@[i].1.len(),
    ensures
        samples_for(points@, r@),
        forall|i: int, j: int|
            #![trigger list@[i].1@[j]]
            0 <= i < list.len() && 0 <= j < list@[i].1.len() ==> value_at(r@, list@[i].1@[j])
                == values@[i]@[j],
{
    let mut samples = blank_samples(points);
    let n: usize = list.len();
    for i in 0..n
        invariant
            n == list.len(),
            grouping(polys, points@, lg, by_coeffs, list@),
            values.len() == list.len(),
            forall|k: int|
                0 <= k < list.len() ==> (#[trigger] values@[k]).len() == list@[k].1.len(),
            samples_for(points@, samples@),
            forall|k: int, j: int|
                #![trigger list@[k].1@[j]]
                0 <= k < i && 0 <= j < list@[k].1.len() ==> value_at(samples@, list@[k].1@[j])
                    == values@[k]@[j],
    {
        let places = &list[i].1;
        let group_values = &values[i];
        let m: usize = places.len();
        assert(values@[i as int].len() == list@[i as int].1.len());
        for j in 0..m
            invariant
                i < list.len(),
                *places == list@[i as int].1,
                *group_values == values@[i as int],
                m == places.len(),
                m == group_values.len(),
                grouping(polys, points@, lg, by_coeffs, list@),
                samples_for(points@, samples@),
                forall|k: int, q: int|
                    #![trigger list@[k].1@[q]]
                    0 <= k < i && 0 <= q < list@[k].1.len() ==> value_at(
                        samples@,
                        list@[k].1@[q],
                    ) == values@[k]@[q],
                forall|q: int|
                    0 <= q < j ==> value_at(samples@, #[trigger] places@[q]) == group_values@[q],
        {
            let place = places[j];
            assert(list@[i as int].1@[j as int] == place);
            let ghost before = samples@;
            set_value(&mut samples, place, group_values[j], Ghost(points@));
            proof {
                assert forall|k: int, q: int|
                    #![trigger list@[k].1@[q]]
                    0 <= k < i && 0 <= q < list@[k].1.len() implies value_at(
                    samples@,
                    list@[k].1@[q],
                ) == values@[k]@[q] by {
                    let p = list@[k].1@[q];
                    assert(list@[k].0@ != list@[i as int].0@);
                    assert(p != place);
                    assert(value_at(samples@, p) == value_at(before, p));
                }
                assert forall|q: int| 0 <= q < j + 1 implies value_at(
                    samples@,
                    #[trigger] places@[q],
                ) == group_values@[q] by {
                    if q < j {
                        assert(list@[i as int].1@.no_duplicates());
                        assert(list@[i as int].1@[q] == places@[q]);
                        assert(places@[q] != place);
                        assert(value_at(samples@, places@[q]) == value_at(before, places@[q]));
                    }
                }
            }
        }
    }
    samples
}

// ---------------------------------------------------------------------------------------------
// Weights and bases by key.

/// The weights that belong to a key.
pub open spec fn key_weights(key: Seq<u32>) -> Seq<QM31> {
    weights_s(key[0] as nat, key_point_s(key))
}

/// The basis column that belongs to a key.
pub open spec fn key_basis(key: Seq<u32>) -> Seq<QM31> {
    let p = key_point_s(key);
    basis_s(mappings(key[0] as nat, p.x, p.y))
}

/// Whether every sample has its weights.
pub open spec fn weights_defined(
    polys: Seq<Vec<&Poly>>,
    points: Seq<Vec<Vec<CirclePoint<QM31>>>>,
    lifting_log_size: nat,
) -> bool {
    forall|place: (usize, usize, usize)|
        #![trigger is_place(points, place)]
        is_place(points, place) ==> {
            let n = poly_at_place(polys, place).evals.domain.log_size_s();
            1 <= n <= 30 && weights_exist(n, folded_at(polys, points, lifting_log_size, place))
        }
}

/// Whether a sample is among those that a map is built for.
pub open spec fn in_map(
    polys: Seq<Vec<&Poly>>,
    by_coeffs: bool,
    limit: Option<u32>,
    place: (usize, usize, usize),
) -> bool {
    let poly = poly_at_place(polys, place);
    if by_coeffs {
        poly.coeffs is Some
    } else {
        limit is None || poly.evals.domain.log_size_s() < limit->0
    }
}

/// The map has columns for the samples before a place, and for no others.
pub open spec fn map_covers(
    map: WeightsHashMap,
    polys: Seq<Vec<&Poly>>,
    points: Seq<Vec<Vec<CirclePoint<QM31>>>>,
    lifting_log_size: nat,
    by_coeffs: bool,
    limit: Option<u32>,
    upto: (int, int, int),
) -> bool {
    &&& forall|place: (usize, usize, usize)|
        #![trigger is_place(points, place)]
        is_place(points, place) && precedes(place, upto) && in_map(polys, by_coeffs, limit, place)
            ==> map.has(place_key(polys, points, lifting_log_size, by_coeffs, place))
    &&& forall|key: Seq<u32>| #[trigger]
        map.has(key) ==> is_sample_key(polys, points, lifting_log_size, by_coeffs, limit, key)
}

/// Whether a key is that of a sample that the map is built for.
pub open spec fn is_sample_key(
    polys: Seq<Vec<&Poly>>,
    points: Seq<Vec<Vec<CirclePoint<QM31>>>>,
    lifting_log_size: nat,
    by_coeffs: bool,
    limit: Option<u32>,
    key: Seq<u32>,
) -> bool {
    exists|place: (usize, usize, usize)|
        #![trigger is_place(points, place)]
        {
            &&& is_place(points, place)
            &&& in_map(polys, by_coeffs, limit, place)
            &&& place_key(polys, points, lifting_log_size, by_coeffs, place) == key
        }
}

proof fn lemma_map_on(
    map: WeightsHashMap,
    polys: Seq<Vec<&Poly>>,
    points: Seq<Vec<Vec<CirclePoint<QM31>>>>,
    lifting_log_size: nat,
    by_coeffs: bool,
    limit: Option<u32>,
    from: (int, int, int),
    to: (int, int, int),
)
    requires
        map_covers(map, polys, points, lifting_log_size, by_coeffs, limit, from),
        forall|place: (usize, usize, usize)|
            is_place(points, place) && precedes(place, to) && in_map(
                polys,
                by_coeffs,
                limit,
                place,
            ) ==> #[trigger] precedes(place, from),
    ensures
        map_covers(map, polys, points, lifting_log_size, by_coeffs, limit, to),
{
    assert forall|place: (usize, usize, usize)|
        #![trigger is_place(points, place)]
        is_place(points, place) && precedes(place, to) && in_map(
            polys,
            by_coeffs,
            limit,
            place,
        ) implies map.has(place_key(polys, points, lifting_log_size, by_coeffs, place)) by {
        assert(precedes(place, from));
    }
}

/// The column of a key: barycentric weights, or the values of the basis.
pub open spec fn key_column(by_coeffs: bool) -> spec_fn(Seq<u32>) -> Seq<QM31> {
    |key: Seq<u32>|
        if by_coeffs {
            key_basis(key)
        } else {
            key_weights(key)
        }
}

/// Adds the column of a sample, unless its key has one already.
fn insert_column(
    map: &mut WeightsHashMap,
    log_size: u32,
    folded: CirclePoint<QM31>,
    by_coeffs: bool,
    Ghost(polys): Ghost<Seq<Vec<&Poly>>>,
    Ghost(points): Ghost<Seq<Vec<Vec<CirclePoint<QM31>>>>>,
    Ghost(lg): Ghost<nat>,
    Ghost(limit): Ghost<Option<u32>>,
    Ghost(place): Ghost<(usize, usize, usize)>,
)
    requires
        old(map).all_are(key_column(by_coeffs)),
        by_coeffs ==> log_size <= 31,
        !by_coeffs ==> 1 <= log_size <= 30 && weights_exist(log_size as nat, folded),
        is_place(points, place),
        in_map(polys, by_coeffs, limit, place),
        place_key(polys, points, lg, by_coeffs, place) == key_words(log_size, folded),
        map_covers(
            *old(map),
            polys,
            points,
            lg,
            by_coeffs,
            limit,
            (place.0 as int, place.1 as int, place.2 as int),
        ),
    ensures
        final(map).all_are(key_column(by_coeffs)),
        map_covers(
            *final(map),
            polys,
            points,
            lg,
            by_coeffs,
            limit,
            (place.0 as int, place.1 as int, place.2 + 1),
        ),
{
    let key = sample_key(log_size, folded);
    let ghost before = *map;
    if map.get(&key).is_none() {
        proof {
            lemma_key(log_size, folded);
        }
        let column = if by_coeffs {
            eval_basis_at_point(log_size, folded)
        } else {
            barycentric_weights(CanonicCoset::new(log_size), folded)
        };
        map.insert(key, column);
        proof {
            assert forall|k: Seq<u32>| #[trigger] map.has(k) implies map@[k] == key_column(
                by_coeffs,
            )(k) by {
                if k != key@ {
                    assert(before.has(k));
                }
            }
        }
    }
    proof {
        assert(map.has(key@));
        assert forall|p: (usize, usize, usize)|
            #![trigger is_place(points, p)]
            is_place(points, p) && precedes(p, (place.0 as int, place.1 as int, place.2 + 1))
                && in_map(polys, by_coeffs, limit, p) implies map.has(
            place_key(polys, points, lg, by_coeffs, p),
        ) by {
            if p != place {
                assert(precedes(p, (place.0 as int, place.1 as int, place.2 as int)));
                assert(before.has(place_key(polys, points, lg, by_coeffs, p)));
            }
        }
        assert forall|k: Seq<u32>| #[trigger] map.has(k) implies is_sample_key(
            polys,
            points,
            lg,
            by_coeffs,
            limit,
            k,
        ) by {
            if k != key@ {
                assert(before.has(k));
            } else {
                assert(is_place(points, place));
            }
        }
    }
}

/// Builds the columns that the samples need: the basis columns of the columns with coefficients,
/// or the weights of those below a size limit.
pub fn build_map(
    polys: &Vec<Vec<&Poly>>,
    points: &Vec<Vec<Vec<CirclePoint<QM31>>>>,
    max_log_size: u32,
    by_coeffs: bool,
    limit: Option<u32>,
) -> (r: WeightsHashMap)
    requires
        max_log_size <= 31,
        same_shape(polys@, points@),
        polys_fit(polys@, max_log_size as nat, false),
        by_coeffs ==> forall|t: int, c: int|
            0 <= t < polys.len() && 0 <= c < polys@[t].len() && (
            #[trigger] polys@[t]@[c]).coeffs is Some ==> polys@[t]@[c].coeffs->0.wf(),
        !by_coeffs ==> weights_defined(polys@, points@, max_log_size as nat),
    ensures
        r.all_are(key_column(by_coeffs)),
        map_covers(
            r,
            polys@,
            points@,
            max_log_size as nat,
            by_coeffs,
            limit,
            (polys.len() as int, 0, 0),
        ),
{
    let ghost lg = max_log_size as nat;
    let mut map = WeightsHashMap::new();
    let n_trees: usize = polys.len();
    for t in 0..n_trees
        invariant
            n_trees == polys.len(),
            max_log_size <= 31,
            lg == max_log_size,
            same_shape(polys@, points@),
            polys_fit(polys@, lg, false),
            by_coeffs ==> forall|i: int, c: int|
                0 <= i < polys.len() && 0 <= c < polys@[i].len() && (
                #[trigger] polys@[i]@[c]).coeffs is Some ==> polys@[i]@[c].coeffs->0.wf(),
            !by_coeffs ==> weights_defined(polys@, points@, lg),
            map.all_are(key_column(by_coeffs)),
            map_covers(map, polys@, points@, lg, by_coeffs, limit, (t as int, 0, 0)),
    {
        let cols = &polys[t];
        assert(polys@[t as int].len() == points@[t as int].len());
        let pts_cols = &points[t];
        let n_cols: usize = cols.len();
        for c in 0..n_cols
            invariant
                t < polys.len(),
                *cols == polys@[t as int],
                *pts_cols == points@[t as int],
                n_cols == cols.len(),
                n_cols == pts_cols.len(),
                max_log_size <= 31,
                lg == max_log_size,
                same_shape(polys@, points@),
                polys_fit(polys@, lg, false),
                by_coeffs ==> forall|i: int, c: int|
                    0 <= i < polys.len() && 0 <= c < polys@[i].len() && (
                    #[trigger] polys@[i]@[c]).coeffs is Some ==> polys@[i]@[c].coeffs->0.wf(),
                !by_coeffs ==> weights_defined(polys@, points@, lg),
                map.all_are(key_column(by_coeffs)),
                map_covers(
                    map,
                    polys@,
                    points@,
                    lg,
                    by_coeffs,
                    limit,
                    (t as int, c as int, 0),
                ),
        {
            let poly = cols[c];
            assert(poly_fits(*polys@[t as int]@[c as int], lg, false));
            let eval_log: u32 = poly.evals.domain.log_size();
            let wanted: Option<u32> = if by_coeffs {
                match &poly.coeffs {
                    Some(coeffs) => Some(coeffs.log_size()),
                    None => None,
                }
            } else {
                match limit {
                    Some(l) => if eval_log >= l {
                        None
                    } else {
                        Some(eval_log)
                    },
                    None => Some(eval_log),
                }
            };
            match wanted {
                None => {
                    proof {
                        assert forall|place: (usize, usize, usize)|
                            is_place(points@, place) && precedes(place, (t as int, c + 1, 0))
                                && in_map(polys@, by_coeffs, limit, place) implies
                        #[trigger] precedes(place, (t as int, c as int, 0)) by {
                            if place.0 == t && place.1 == c {
                                assert(poly_at_place(polys@, place) == poly);
                            }
                        }
                        lemma_map_on(
                            map,
                            polys@,
                            points@,
                            lg,
                            by_coeffs,
                            limit,
                            (t as int, c as int, 0),
                            (t as int, c + 1, 0),
                        );
                    }
                },
                Some(log_size) => {
                    let pts = &pts_cols[c];
                    let n_points: usize = pts.len();
                    for pi in 0..n_points
                        invariant
                            t < polys.len(),
                            *cols == polys@[t as int],
                            *pts_cols == points@[t as int],
                            c < cols.len(),
                            c < pts_cols.len(),
                            poly == cols@[c as int],
                            *pts == pts_cols@[c as int],
                            n_points == pts.len(),
                            lg == max_log_size,
                            eval_log == poly.evals.domain.log_size_s(),
                            eval_log <= max_log_size,
                            log_size == group_log(*poly, by_coeffs),
                            by_coeffs ==> log_size <= 31 && poly.coeffs is Some,
                            !by_coeffs ==> limit is None || log_size < limit->0,
                            same_shape(polys@, points@),
                            !by_coeffs ==> weights_defined(polys@, points@, lg),
                            map.all_are(key_column(by_coeffs)),
                            map_covers(
                                map,
                                polys@,
                                points@,
                                lg,
                                by_coeffs,
                                limit,
                                (t as int, c as int, pi as int),
                            ),
                    {
                        let folded = pts[pi].repeated_double(max_log_size - eval_log);
                        let ghost place: (usize, usize, usize) = (t, c, pi);
                        proof {
                            assert(is_place(points@, place));
                            assert(poly_at_place(polys@, place) == poly);
                            assert(folded == folded_at(polys@, points@, lg, place));
                        }
                        insert_column(
                            &mut map,
                            log_size,
                            folded,
                            by_coeffs,
                            Ghost(polys@),
                            Ghost(points@),
                            Ghost(lg),
                            Ghost(limit),
                            Ghost(place),
                        );
                    }
                    proof {
                        lemma_map_on(
                            map,
                            polys@,
                            points@,
                            lg,
                            by_coeffs,
                            limit,
                            (t as int, c as int, n_points as int),
                            (t as int, c + 1, 0),
                        );
                    }
                },
            }
        }
        proof {
            lemma_map_on(
                map,
                polys@,
                points@,
                lg,
                by_coeffs,
                limit,
                (t as int, n_cols as int, 0),
                (t + 1, 0, 0),
            );
        }
    }
    map
}

// ---------------------------------------------------------------------------------------------
// Values.

/// The value of a sample from the evaluations of its column.
pub open spec fn evaluation_value(
    polys: Seq<Vec<&Poly>>,
    points: Seq<Vec<Vec<CirclePoint<QM31>>>>,
    lifting_log_size: nat,
    place: (usize, usize, usize),
) -> QM31 {
    let poly = poly_at_place(polys, place);
    dot_s(
        poly.evals.values@,
        weights_s(
            poly.evals.domain.log_size_s(),
            folded_at(polys, points, lifting_log_size, place),
        ),
    )
}

/// The value of a sample from the coefficients of its column.
pub open spec fn coefficient_value(
    polys: Seq<Vec<&Poly>>,
    points: Seq<Vec<Vec<CirclePoint<QM31>>>>,
    lifting_log_size: nat,
    place: (usize, usize, usize),
) -> QM31 {
    let poly = poly_at_place(polys, place);
    let p = folded_at(polys, points, lifting_log_size, place);
    dot_s(
        poly.coeffs->0.coeffs@,
        basis_s(mappings(poly.coeffs->0.log_size as nat, p.x, p.y)),
    )
}

/// The evaluations of the columns of a group.
fn group_evals<'a>(polys: &Vec<Vec<&'a Poly>>, places: &Vec<(usize, usize, usize)>) -> (r: Vec<
    &'a CircleEvaluation,
>)
    requires
        forall|j: int|
            0 <= j < places.len() ==> (#[trigger] places@[j]).0 < polys.len() && places@[j].1
                < polys@[places@[j].0 as int].len(),
    ensures
        r.len() == places.len(),
        forall|j: int|
            0 <= j < r.len() ==> *(#[trigger] r@[j]) == poly_at_place(polys@, places@[j]).evals,
{
    let n: usize = places.len();
    let mut r: Vec<&'a CircleEvaluation> = Vec::with_capacity(n);
    for j in 0..n
        invariant
            n == places.len(),
            forall|i: int|
                0 <= i < places.len() ==> (#[trigger] places@[i]).0 < polys.len() && places@[i].1
                    < polys@[places@[i].0 as int].len(),
            r.len() == j,
            forall|i: int|
                0 <= i < j ==> *(#[trigger] r@[i]) == poly_at_place(polys@, places@[i]).evals,
    {
        let place = places[j];
        assert(places@[j as int].0 < polys.len());
        let poly: &'a Poly = polys[place.0][place.1];
        r.push(&poly.evals);
    }
    r
}

/// The groups as they are handed to the evaluator.
pub(crate) fn backend_groups<'a>(
    polys: &Vec<Vec<&'a Poly>>,
    points: &Vec<Vec<Vec<CirclePoint<QM31>>>>,
    list: &Vec<([u32; 9], Vec<(usize, usize, usize)>)>,
    Ghost(lg): Ghost<nat>,
) -> (r: Vec<BarycentricEvalGroup<'a>>)
    requires
        same_shape(polys@, points@),
        grouping(polys@, points@, lg, false, list@),
        weights_defined(polys@, points@, lg),
    ensures
        r.len() == list.len(),
        forall|i: int|
            0 <= i < r.len() ==> (#[trigger] r@[i]).coset.wf() && r@[i].coset.coset.log_size
                == list@[i].0@[0] && r@[i].point == key_point_s(list@[i].0@) && r@[i].evals.len()
                == list@[i].1.len(),
        forall|i: int, j: int|
            #![trigger r@[i].evals@[j]]
            0 <= i < r.len() && 0 <= j < list@[i].1.len() ==> *r@[i].evals@[j] == poly_at_place(
                polys@,
                list@[i].1@[j],
            ).evals,
{
    let n: usize = list.len();
    let mut r: Vec<BarycentricEvalGroup<'a>> = Vec::with_capacity(n);
    for i in 0..n
        invariant
            n == list.len(),
            same_shape(polys@, points@),
            grouping(polys@, points@, lg, false, list@),
            weights_defined(polys@, points@, lg),
            r.len() == i,
            forall|k: int|
                0 <= k < i ==> (#[trigger] r@[k]).coset.wf() && r@[k].coset.coset.log_size
                    == list@[k].0@[0] && r@[k].point == key_point_s(list@[k].0@)
                    && r@[k].evals.len() == list@[k].1.len(),
            forall|k: int, j: int|
                #![trigger r@[k].evals@[j]]
                0 <= k < i && 0 <= j < list@[k].1.len() ==> *r@[k].evals@[j] == poly_at_place(
                    polys@,
                    list@[k].1@[j],
                ).evals,
    {
        let entry = &list[i];
        proof {
            lemma_group_key(polys@, points@, lg, false, list@, i as int);
        }
        let evals = group_evals(polys, &entry.1);
        r.push(
            BarycentricEvalGroup {
                coset: CanonicCoset::new(entry.0[0]),
                point: key_point(&entry.0),
                evals,
            },
        );
    }
    r
}

/// The key of a group is that of its samples.
pub proof fn lemma_group_key(
    polys: Seq<Vec<&Poly>>,
    points: Seq<Vec<Vec<CirclePoint<QM31>>>>,
    lg: nat,
    by_coeffs: bool,
    list: Seq<([u32; 9], Vec<(usize, usize, usize)>)>,
    i: int,
)
    requires
        same_shape(polys, points),
        grouping(polys, points, lg, by_coeffs, list),
        0 <= i < list.len(),
    ensures
        forall|j: int|
            0 <= j < list[i].1.len() ==> is_place(points, #[trigger] list[i].1@[j])
                && list[i].1@[j].0 < polys.len() && list[i].1@[j].1
                < polys[list[i].1@[j].0 as int].len() && list[i].0@[0] == group_log(
                *poly_at_place(polys, list[i].1@[j]),
                by_coeffs,
            ) as u32 && key_point_s(list[i].0@) == folded_at(polys, points, lg, list[i].1@[j]),
        !by_coeffs && weights_defined(polys, points, lg) ==> 1 <= list[i].0@[0] <= 30
            && weights_exist(list[i].0@[0] as nat, key_point_s(list[i].0@)),
{
    assert forall|j: int| 0 <= j < list[i].1.len() implies is_place(
        points,
        #[trigger] list[i].1@[j],
    ) && list[i].1@[j].0 < polys.len() && list[i].1@[j].1 < polys[list[i].1@[j].0 as int].len()
        && list[i].0@[0] == group_log(*poly_at_place(polys, list[i].1@[j]), by_coeffs) as u32
        && key_point_s(list[i].0@) == folded_at(polys, points, lg, list[i].1@[j]) by {
        let place = list[i].1@[j];
        lemma_key(
            group_log(*poly_at_place(polys, place), by_coeffs) as u32,
            folded_at(polys, points, lg, place),
        );
        assert(polys[place.0 as int].len() == points[place.0 as int].len());
    }
    if !by_coeffs && weights_defined(polys, points, lg) {
        let place = list[i].1@[0];
        assert(is_place(points, place));
    }
}

/// The values of one group: those given, or the weighted sums of its columns, with the weights of
/// the map where it has them.
fn group_values(
    group: &BarycentricEvalGroup,
    key: &[u32; 9],
    resident: &Option<Vec<QM31>>,
    weights_map: Option<&WeightsHashMap>,
) -> (r: Vec<QM31>)
    requires
        group.coset.wf(),
        group.coset.coset.log_size == key@[0],
        group.point == key_point_s(key@),
        weights_exist(key@[0] as nat, group.point),
        forall|j: int|
            0 <= j < group.evals.len() ==> (#[trigger] group.evals@[j]).wf()
                && group.evals@[j].values.len() == pow2(key@[0] as nat),
        resident is Some ==> resident->0.len() == group.evals.len(),
        weights_map is Some ==> weights_map->0.all_are(key_column(false)),
    ensures
        r.len() == group.evals.len(),
        resident is Some ==> r@ == resident->0@,
        resident is None ==> forall|j: int|
            0 <= j < r.len() ==> #[trigger] r@[j] == dot_s(
                group.evals@[j].values@,
                key_weights(key@),
            ),
{
    match resident {
        Some(values) => {
            let mut r: Vec<QM31> = Vec::with_capacity(values.len());
            let n: usize = values.len();
            for i in 0..n
                invariant
                    n == values.len(),
                    r@ == values@.take(i as int),
            {
                r.push(values[i]);
                assert(r@ =~= values@.take(i + 1));
            }
            assert(values@.take(n as int) =~= values@);
            r
        },
        None => {
            let cached: Option<std::sync::Arc<Vec<QM31>>> = match weights_map {
                Some(map) => map.get(key),
                None => None,
            };
            match cached {
                Some(weights) => {
                    assert(weights@ == key_weights(key@));
                    barycentric_eval_many_at_point(&group.evals, &*weights)
                },
                None => {
                    let weights = barycentric_weights(group.coset, group.point);
                    barycentric_eval_many_at_point(&group.evals, &weights)
                },
            }
        },
    }
}

/// Whether values computed elsewhere fit the groups they are for.
pub open spec fn resident_fits(
    list: Seq<([u32; 9], Vec<(usize, usize, usize)>)>,
    resident: Seq<Option<Vec<QM31>>>,
) -> bool {
    &&& resident.len() == list.len()
    &&& forall|i: int|
        0 <= i < list.len() && (#[trigger] resident[i]) is Some ==> resident[i]->0.len()
            == list[i].1.len()
}

/// Evaluates the groups and puts the values back at the places of their samples. Where the values
/// of a group were computed elsewhere, those are taken.
pub fn scatter_evaluation_samples(
    polys: &Vec<Vec<&Poly>>,
    sampled_points: &Vec<Vec<Vec<CirclePoint<QM31>>>>,
    list: &Vec<([u32; 9], Vec<(usize, usize, usize)>)>,
    resident: &Vec<Option<Vec<QM31>>>,
    weights_map: Option<&WeightsHashMap>,
    lifting_log_size: u32,
) -> (r: Vec<Vec<Vec<PointSample>>>)
    requires
        lifting_log_size <= 31,
        same_shape(polys@, sampled_points@),
        polys_fit(polys@, lifting_log_size as nat, false),
        weights_defined(polys@, sampled_points@, lifting_log_size as nat),
        grouping(polys@, sampled_points@, lifting_log_size as nat, false, list@),
        resident_fits(list@, resident@),
        weights_map is Some ==> weights_map->0.all_are(key_column(false)),
    ensures
        samples_for(sampled_points@, r@),
        forall|i: int, j: int|
            #![trigger list@[i].1@[j]]
            0 <= i < list.len() && 0 <= j < list@[i].1.len() ==> value_at(r@, list@[i].1@[j])
                == match resident@[i] {
                Some(values) => values@[j],
                None => evaluation_value(
                    polys@,
                    sampled_points@,
                    lifting_log_size as nat,
                    list@[i].1@[j],
                ),
            },
{
    let ghost lg = lifting_log_size as nat;
    let groups = backend_groups(polys, sampled_points, list, Ghost(lg));
    let n: usize = list.len();
    let mut values: Vec<Vec<QM31>> = Vec::with_capacity(n);
    for i in 0..n
        invariant
            n == list.len(),
            lg == lifting_log_size,
            same_shape(polys@, sampled_points@),
            polys_fit(polys@, lg, false),
            weights_defined(polys@, sampled_points@, lg),
            grouping(polys@, sampled_points@, lg, false, list@),
            resident_fits(list@, resident@),
            weights_map is Some ==> weights_map->0.all_are(
                key_column(false),
            ),
            groups.len() == n,
            forall|k: int|
                0 <= k < n ==> (#[trigger] groups@[k]).coset.wf()
                    && groups@[k].coset.coset.log_size == list@[k].0@[0] && groups@[k].point
                    == key_point_s(list@[k].0@) && groups@[k].evals.len() == list@[k].1.len(),
            forall|k: int, j: int|
                #![trigger groups@[k].evals@[j]]
                0 <= k < n && 0 <= j < list@[k].1.len() ==> *groups@[k].evals@[j]
                    == poly_at_place(polys@, list@[k].1@[j]).evals,
            values.len() == i,
            forall|k: int| 0 <= k < i ==> (#[trigger] values@[k]).len() == list@[k].1.len(),
            forall|k: int, j: int|
                #![trigger values@[k]@[j]]
                0 <= k < i && 0 <= j < list@[k].1.len() ==> values@[k]@[j] == match resident@[k] {
                    Some(given) => given@[j],
                    None => evaluation_value(polys@, sampled_points@, lg, list@[k].1@[j]),
                },
    {
        let ghost key = list@[i as int].0@;
        proof {
            lemma_group_key(polys@, sampled_points@, lg, false, list@, i as int);
            assert(groups@[i as int].coset.wf());
            assert forall|j: int| 0 <= j < groups@[i as int].evals.len() implies (
            #[trigger] groups@[i as int].evals@[j]).wf() && groups@[i as int].evals@[j].values.len()
                == pow2(key[0] as nat) by {
                let place = list@[i as int].1@[j];
                assert(poly_fits(
                    *polys@[place.0 as int]@[place.1 as int],
                    lg,
                    false,
                ));
                assert(is_place(sampled_points@, place));
            }
            assert(resident@[i as int] is Some ==> resident@[i as int]->0.len()
                == list@[i as int].1.len());
        }
        let ghost before = values@;
        let v = group_values(&groups[i], &list[i].0, &resident[i], weights_map);
        values.push(v);
        proof {
            assert forall|k: int, j: int|
                #![trigger values@[k]@[j]]
                0 <= k < i + 1 && 0 <= j < list@[k].1.len() implies values@[k]@[j]
                == match resident@[k] {
                Some(given) => given@[j],
                None => evaluation_value(polys@, sampled_points@, lg, list@[k].1@[j]),
            } by {
                if k < i {
                    assert(values@[k] == before[k]);
                    assert(before[k]@[j] == values@[k]@[j]);
                } else {
                    let place = list@[k].1@[j];
                    assert(is_place(sampled_points@, place));
                    assert(*groups@[k].evals@[j] == poly_at_place(polys@, place).evals);
                }
            }
        }
    }
    let r = scatter(sampled_points, list, &values, Ghost(polys@), Ghost(lg), Ghost(false));
    proof {
        assert forall|i: int, j: int|
            #![trigger list@[i].1@[j]]
            0 <= i < list.len() && 0 <= j < list@[i].1.len() implies value_at(
            r@,
            list@[i].1@[j],
        ) == match resident@[i] {
            Some(given) => given@[j],
            None => evaluation_value(polys@, sampled_points@, lg, list@[i].1@[j]),
        } by {
            assert(value_at(r@, list@[i].1@[j]) == values@[i]@[j]);
        }
    }
    r
}

/// The values of committed evaluations at their sampled points, in the order of trees, columns and
/// points. Columns on one domain sampled at one folded point share their weights.
pub fn batch_evaluation_samples(
    polys: &Vec<Vec<&Poly>>,
    sampled_points: &Vec<Vec<Vec<CirclePoint<QM31>>>>,
    weights_map: Option<&WeightsHashMap>,
    lifting_log_size: u32,
) -> (r: Vec<Vec<Vec<PointSample>>>)
    requires
        lifting_log_size <= 31,
        same_shape(polys@, sampled_points@),
        polys_fit(polys@, lifting_log_size as nat, false),
        weights_defined(polys@, sampled_points@, lifting_log_size as nat),
        weights_map is Some ==> weights_map->0.all_are(key_column(false)),
    ensures
        samples_for(sampled_points@, r@),
        forall|place: (usize, usize, usize)|
            #![trigger is_place(sampled_points@, place)]
            is_place(sampled_points@, place) ==> value_at(r@, place) == evaluation_value(
                polys@,
                sampled_points@,
                lifting_log_size as nat,
                place,
            ),
{
    let ghost lg = lifting_log_size as nat;
    let list = group_samples(polys, sampled_points, lifting_log_size, false);
    let groups = backend_groups(polys, sampled_points, &list, Ghost(lg));
    let resident = barycentric_eval_many_groups(&groups);
    assert(resident_fits(list@, resident@)) by {
        assert forall|i: int| 0 <= i < list@.len() && (#[trigger] resident@[i]) is Some implies
        resident@[i]->0.len() == list@[i].1.len() by {
            assert(resident@[i] is None);
        }
    }
    let r = scatter_evaluation_samples(
        polys,
        sampled_points,
        &list,
        &resident,
        weights_map,
        lifting_log_size,
    );
    proof {
        assert forall|place: (usize, usize, usize)|
            #![trigger is_place(sampled_points@, place)]
            is_place(sampled_points@, place) implies value_at(r@, place) == evaluation_value(
            polys@,
            sampled_points@,
            lg,
            place,
        ) by {
            let (i, j) = choose|i: int, j: int|
                0 <= i < list@.len() && 0 <= j < list@[i].1.len() && #[trigger] list@[i].1@[j]
                    == place;
            assert(resident@[i] is None);
            assert(list@[i].1@[j] == place);
        }
    }
    r
}

/// The coefficients of the columns of a group.
fn group_coeffs<'a>(polys: &Vec<Vec<&'a Poly>>, places: &Vec<(usize, usize, usize)>) -> (r: Vec<
    &'a CircleCoefficients,
>)
    requires
        forall|j: int|
            0 <= j < places.len() ==> (#[trigger] places@[j]).0 < polys.len() && places@[j].1
                < polys@[places@[j].0 as int].len() && poly_at_place(
                polys@,
                places@[j],
            ).coeffs is Some,
    ensures
        r.len() == places.len(),
        forall|j: int|
            0 <= j < r.len() ==> *(#[trigger] r@[j]) == poly_at_place(
                polys@,
                places@[j],
            ).coeffs->0,
{
    let n: usize = places.len();
    let mut r: Vec<&'a CircleCoefficients> = Vec::with_capacity(n);
    for j in 0..n
        invariant
            n == places.len(),
            forall|i: int|
                0 <= i < places.len() ==> (#[trigger] places@[i]).0 < polys.len() && places@[i].1
                    < polys@[places@[i].0 as int].len() && poly_at_place(
                    polys@,
                    places@[i],
                ).coeffs is Some,
            r.len() == j,
            forall|i: int|
                0 <= i < j ==> *(#[trigger] r@[i]) == poly_at_place(
                    polys@,
                    places@[i],
                ).coeffs->0,
    {
        let place = places[j];
        assert(places@[j as int].0 < polys.len());
        let poly: &'a Poly = polys[place.0][place.1];
        match &poly.coeffs {
            Some(coeffs) => {
                r.push(coeffs);
            },
            None => {},
        }
    }
    r
}

/// The values of committed coefficients at their sampled points, in the order of trees, columns and
/// points. Columns of one size sampled at one folded point share their basis column.
pub fn batched_coefficient_samples(
    polys: &Vec<Vec<&Poly>>,
    sampled_points: &Vec<Vec<Vec<CirclePoint<QM31>>>>,
    basis_map: &WeightsHashMap,
    lifting_log_size: u32,
) -> (r: Vec<Vec<Vec<PointSample>>>)
    requires
        lifting_log_size <= 31,
        same_shape(polys@, sampled_points@),
        polys_fit(polys@, lifting_log_size as nat, true),
        basis_map.all_are(key_column(true)),
        forall|place: (usize, usize, usize)|
            #![trigger is_place(sampled_points@, place)]
            is_place(sampled_points@, place) ==> basis_map.has(
                place_key(polys@, sampled_points@, lifting_log_size as nat, true, place),
            ),
    ensures
        samples_for(sampled_points@, r@),
        forall|place: (usize, usize, usize)|
            #![trigger is_place(sampled_points@, place)]
            is_place(sampled_points@, place) ==> value_at(r@, place) == coefficient_value(
                polys@,
                sampled_points@,
                lifting_log_size as nat,
                place,
            ),
{
    let ghost lg = lifting_log_size as nat;
    let list = group_samples(polys, sampled_points, lifting_log_size, true);
    let n: usize = list.len();
    let mut values: Vec<Vec<QM31>> = Vec::with_capacity(n);
    for i in 0..n
        invariant
            n == list.len(),
            lg == lifting_log_size,
            same_shape(polys@, sampled_points@),
            polys_fit(polys@, lg, true),
            basis_map.all_are(key_column(true)),
            forall|place: (usize, usize, usize)|
                #![trigger is_place(sampled_points@, place)]
                is_place(sampled_points@, place) ==> basis_map.has(
                    place_key(polys@, sampled_points@, lg, true, place),
                ),
            grouping(polys@, sampled_points@, lg, true, list@),
            values.len() == i,
            forall|k: int| 0 <= k < i ==> (#[trigger] values@[k]).len() == list@[k].1.len(),
            forall|k: int, j: int|
                #![trigger values@[k]@[j]]
                0 <= k < i && 0 <= j < list@[k].1.len() ==> values@[k]@[j] == coefficient_value(
                    polys@,
                    sampled_points@,
                    lg,
                    list@[k].1@[j],
                ),
    {
        let entry = &list[i];
        let ghost key = entry.0@;
        proof {
            lemma_group_key(polys@, sampled_points@, lg, true, list@, i as int);
            let first = entry.1@[0];
            assert(list@[i as int].1@[0] == first);
            assert(is_place(sampled_points@, first));
            assert forall|j: int| 0 <= j < entry.1.len() implies poly_fits(
                *poly_at_place(polys@, #[trigger] entry.1@[j]),
                lg,
                true,
            ) by {
                let place = entry.1@[j];
                assert(list@[i as int].1@[j] == place);
                assert(poly_fits(*polys@[place.0 as int]@[place.1 as int], lg, true));
            }
        }
        let group = group_coeffs(polys, &entry.1);
        let ghost before = values@;
        match basis_map.get(&entry.0) {
            Some(basis) => {
                proof {
                    assert(basis@ == key_basis(key));
                    let p = key_point_s(key);
                    crate::poly::fold::lemma_basis_len(mappings(key[0] as nat, p.x, p.y));
                    assert forall|j: int| 0 <= j < group.len() implies (
                    #[trigger] group@[j]).coeffs.len() == basis.len() by {
                        let place = entry.1@[j];
                        assert(list@[i as int].1@[j] == place);
                    }
                }
                values.push(eval_many_at_point_with_basis(&group, &*basis));
            },
            None => {
                values.push(Vec::new());
            },
        }
        proof {
            assert forall|k: int, j: int|
                #![trigger values@[k]@[j]]
                0 <= k < i + 1 && 0 <= j < list@[k].1.len() implies values@[k]@[j]
                == coefficient_value(polys@, sampled_points@, lg, list@[k].1@[j]) by {
                if k < i {
                    assert(values@[k] == before[k]);
                    assert(before[k]@[j] == values@[k]@[j]);
                } else {
                    let place = list@[k].1@[j];
                    assert(is_place(sampled_points@, place));
                    assert(*group@[j] == poly_at_place(polys@, place).coeffs->0);
                }
            }
        }
    }
    let r = scatter(sampled_points, &list, &values, Ghost(polys@), Ghost(lg), Ghost(true));
    proof {
        assert forall|place: (usize, usize, usize)|
            #![trigger is_place(sampled_points@, place)]
            is_place(sampled_points@, place) implies value_at(r@, place) == coefficient_value(
            polys@,
            sampled_points@,
            lg,
            place,
        ) by {
            let (i, j) = choose|i: int, j: int|
                0 <= i < list@.len() && 0 <= j < list@[i].1.len() && #[trigger] list@[i].1@[j]
                    == place;
            assert(list@[i].1@[j] == place);
            assert(value_at(r@, place) == values@[i]@[j]);
        }
    }
    r
}

/// A sample from coefficients is the value of the polynomial at the folded point.
pub proof fn lemma_coefficient_value(
    polys: Seq<Vec<&Poly>>,
    points: Seq<Vec<Vec<CirclePoint<QM31>>>>,
    lifting_log_size: nat,
    place: (usize, usize, usize),
)
    requires
        poly_at_place(polys, place).coeffs is Some,
        poly_at_place(polys, place).coeffs->0.wf(),
    ensures
        coefficient_value(polys, points, lifting_log_size, place)
            == crate::poly::fold::poly_at_secure(
            poly_at_place(polys, place).coeffs->0.coeffs@,
            poly_at_place(polys, place).coeffs->0.log_size as nat,
            folded_at(polys, points, lifting_log_size, place),
        ).canon(),
{
    let coeffs = poly_at_place(polys, place).coeffs->0;
    crate::poly::eval::lemma_dot_is_value(
        coeffs.coeffs@,
        coeffs.log_size as nat,
        folded_at(polys, points, lifting_log_size, place),
    );
}

/// A sample from evaluations on a canonical domain is the value of their interpolant at the folded
/// point.
pub proof fn lemma_evaluation_value(
    polys: Seq<Vec<&Poly>>,
    points: Seq<Vec<Vec<CirclePoint<QM31>>>>,
    lifting_log_size: nat,
    place: (usize, usize, usize),
    c: Seq<crate::fields::m31::M31>,
)
    requires
        ({
            let evals = poly_at_place(polys, place).evals;
            let n = evals.domain.log_size_s();
            let p = folded_at(polys, points, lifting_log_size, place);
            &&& evals.wf()
            &&& n <= 30
            &&& evals.domain == canonic_domain(n)
            &&& crate::poly::extension::interpolates(evals, c)
            &&& crate::circle::norm_of(p) == QM31::one_el()
            &&& weights_exist(n, p)
        }),
    ensures
        evaluation_value(polys, points, lifting_log_size, place)
            == crate::poly::fold::poly_at_secure(
            c,
            poly_at_place(polys, place).evals.domain.log_size_s(),
            folded_at(polys, points, lifting_log_size, place),
        ),
{
    crate::poly::lagrange::lemma_barycentric(
        poly_at_place(polys, place).evals,
        c,
        folded_at(polys, points, lifting_log_size, place),
    );
}

} // verus!
