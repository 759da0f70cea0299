//! Sampling with the large groups evaluated on the GPU.

use vstd::prelude::*;

use super::groups::key_point_s;
use super::samples::{
    backend_groups, evaluation_value, folded_at, group_samples, grouping, is_place, key_column,
    lemma_group_key, poly_at_place, polys_fit, resident_fits, same_shape, samples_for,
    scatter_evaluation_samples, value_at, weights_defined, PointSample,
};
use super::weights::WeightsHashMap;
use crate::circle::{norm_of, CirclePoint};
use crate::fields::qm31::QM31;
use crate::fields::Field;
use crate::metal::dots::{barycentric_eval_groups_metal, group_values};
use crate::metal::ood::{group_admitted, MIN_METAL_OOD_LOG_SIZE};
use crate::poly::barycentric::BarycentricEvalGroup;
use crate::poly::circle_poly::Poly;

verus! {

/// The size from which on groups need no weights of the caller's, if the kernels are ready.
pub fn resident_barycentric_min_log_size(ready: bool) -> (r: Option<u32>)
    ensures
        r == if ready {
            Some(MIN_METAL_OOD_LOG_SIZE)
        } else {
            None
        },
{
    if ready {
        Some(MIN_METAL_OOD_LOG_SIZE)
    } else {
        None
    }
}

/// Whether all samples lie on the circle.
pub open spec fn on_circle(
    polys: Seq<Vec<&Poly>>,
    points: Seq<Vec<Vec<CirclePoint<QM31>>>>,
    lifting_log_size: nat,
) -> bool {
    forall|place: (usize, usize, usize)|
        #![trigger is_place(points, place)]
        is_place(points, place) ==> norm_of(folded_at(polys, points, lifting_log_size, place))
            == QM31::one_el()
}

/// What the GPU gives for a group is what its samples are worth.
proof fn lemma_resident_value(
    polys: Seq<Vec<&Poly>>,
    points: Seq<Vec<Vec<CirclePoint<QM31>>>>,
    lg: nat,
    list: Seq<([u32; 9], Vec<(usize, usize, usize)>)>,
    g: BarycentricEvalGroup,
    i: int,
    j: int,
)
    requires
        same_shape(polys, points),
        grouping(polys, points, lg, false, list),
        weights_defined(polys, points, lg),
        0 <= i < list.len(),
        0 <= j < list[i].1.len(),
        g.coset.coset.log_size == list[i].0@[0],
        g.point == key_point_s(list[i].0@),
        g.evals.len() == list[i].1.len(),
        *g.evals@[j] == poly_at_place(polys, list[i].1@[j]).evals,
    ensures
        group_values(g)[j] == evaluation_value(polys, points, lg, list[i].1@[j]),
{
    lemma_group_key(polys, points, lg, false, list, i);
    let place = list[i].1@[j];
    assert(is_place(points, place));
    assert(poly_at_place(polys, place).evals.domain.log_size_s() <= 30);
}

/// The values of committed evaluations at their sampled points, in the order of trees, columns
/// and points. Large groups are evaluated in one submission, the others with the weights given or
/// computed here.
pub fn batch_evaluation_samples_resident(
    polys: &Vec<Vec<&Poly>>,
    sampled_points: &Vec<Vec<Vec<CirclePoint<QM31>>>>,
    weights_map: Option<&WeightsHashMap>,
    lifting_log_size: u32,
) -> (r: Vec<Vec<Vec<PointSample>>>)
    requires
        lifting_log_size <= 31,
        same_shape(polys@, sampled_points@),
        polys_fit(polys@, lifting_log_size as nat, false),
        weights_defined(polys@, sampled_points@, lifting_log_size as nat),
        on_circle(polys@, sampled_points@, lifting_log_size as nat),
        weights_map is Some ==> weights_map->0.all_are(key_column(false)),
    ensures
        samples_for(sampled_points@, r@),
        forall|place: (usize, usize, usize)|
            #![trigger is_place(sampled_points@, place)]
            is_place(sampled_points@, place) ==> value_at(r@, place) == evaluation_value(
                polys@,
                sampled_points@,
                lifting_log_size as nat,
                place,
            ),
{
    let ghost lg = lifting_log_size as nat;
    let list = group_samples(polys, sampled_points, lifting_log_size, false);
    let groups = backend_groups(polys, sampled_points, &list, Ghost(lg));
    proof {
        assert forall|k: int| 0 <= k < groups.len() implies (#[trigger] groups@[k]).coset.wf()
            && norm_of(groups@[k].point) == QM31::one_el() by {
            lemma_group_key(polys@, sampled_points@, lg, false, list@, k);
            assert(list@[k].1.len() > 0);
            assert(is_place(sampled_points@, list@[k].1@[0]));
        }
    }
    let resident = barycentric_eval_groups_metal(&groups);
    proof {
        assert forall|i: int| 0 <= i < list@.len() && (#[trigger] resident@[i]) is Some implies
        resident@[i]->0.len() == list@[i].1.len() by {
            assert(group_admitted(groups@[i]));
            assert(resident@[i]->0@ == group_values(groups@[i]));
        }
        assert(resident_fits(list@, resident@));
    }
    let r = scatter_evaluation_samples(
        polys,
        sampled_points,
        &list,
        &resident,
        weights_map,
        lifting_log_size,
    );
    proof {
        assert forall|place: (usize, usize, usize)|
            #![trigger is_place(sampled_points@, place)]
            is_place(sampled_points@, place) implies value_at(r@, place) == evaluation_value(
            polys@,
            sampled_points@,
            lg,
            place,
        ) by {
            let (i, j) = choose|i: int, j: int|
                0 <= i < list@.len() && 0 <= j < list@[i].1.len() && #[trigger] list@[i].1@[j]
                    == place;
            assert(list@[i].1@[j] == place);
            if resident@[i] is Some {
                assert(*groups@[i].evals@[j] == poly_at_place(polys@, list@[i].1@[j]).evals);
                lemma_resident_value(polys@, sampled_points@, lg, list@, groups@[i], i, j);
            }
        }
    }
    r
}

} // verus!
