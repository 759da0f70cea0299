//! Numerators of groups of batches: those of large groups in one submission, the others and all
//! of a declined submission row by row.

use vstd::prelude::*;

use super::numerators::{
    accumulate_numerators_metal, group_selected, numerator_batch, selects_group, NumeratorBatch,
};
use crate::poly::circle_poly::CircleEvaluation;
use crate::quotients::{
    accumulate_groups_with, accumulated, batch_offset, entry_from, groups_fit,
    lemma_batch_offset_mono, lemma_same_batch, numerators_s, subdomain_rows, AccumulatedNumerators,
    ColumnSampleBatch, NumeratorBatchGroup,
};
use crate::secure_column::SecureColumnByCoords;
use crate::utils::pow2_usize;

verus! {

/// The batches of the selected groups before place `g`, each with the place of its group and its
/// place in the group, in order.
pub open spec fn selected_places(groups: Seq<NumeratorBatchGroup>, log_blowup: nat, g: nat) -> Seq<
    (int, int),
>
    decreases g,
{
    if g == 0 {
        Seq::empty()
    } else {
        let before = selected_places(groups, log_blowup, (g - 1) as nat);
        if group_selected(groups[g - 1], log_blowup) {
            before + Seq::new(groups[g - 1].sample_batches@.len(), |b: int| (g - 1, b))
        } else {
            before
        }
    }
}

/// `submission` gives the numerators of a batch over columns.
pub open spec fn submits(
    submission: NumeratorBatch,
    columns: Seq<&CircleEvaluation>,
    batch: ColumnSampleBatch,
    rows: nat,
) -> bool {
    &&& submission.n_rows == rows
    &&& submission.columns@.len() == batch.cols_vals_randpows@.len()
    &&& submission.values() == numerators_s(columns, batch, rows)
}

/// The batch at a place is there, its numerators are submitted, and `position` counts the batches
/// before it.
pub open spec fn submitted_at(
    groups: Seq<NumeratorBatchGroup>,
    log_blowup: nat,
    place: (int, int),
    submission: NumeratorBatch,
    position: usize,
) -> bool {
    let (g, b) = place;
    &&& 0 <= g < groups.len()
    &&& 0 <= b < groups[g].sample_batches@.len()
    &&& position == batch_offset(groups, g) + b
    &&& submits(
        submission,
        groups[g].columns@,
        groups[g].sample_batches@[b],
        subdomain_rows(groups[g].columns@, log_blowup),
    )
}

/// Whether the rows of every group can be counted.
pub open spec fn groups_have_rows(groups: Seq<NumeratorBatchGroup>, log_blowup: nat) -> bool {
    forall|g: int|
        0 <= g < groups.len() ==> subdomain_rows((#[trigger] groups[g]).columns@, log_blowup) >= 1
}

/// The submissions of the batches of all selected groups, and their places among all batches.
pub fn select_batches<'a>(groups: &Vec<NumeratorBatchGroup<'a>>, log_blowup_factor: u32) -> (r: (
    Vec<NumeratorBatch<'a>>,
    Vec<usize>,
))
    requires
        log_blowup_factor <= 31,
        groups_fit(groups@, log_blowup_factor as nat),
        groups_have_rows(groups@, log_blowup_factor as nat),
        batch_offset(groups@, groups.len() as int) <= usize::MAX,
    ensures
        ({
            let places = selected_places(groups@, log_blowup_factor as nat, groups@.len());
            &&& r.0@.len() == places.len()
            &&& r.1@.len() == places.len()
            &&& forall|k: int|
                0 <= k < places.len() ==> submitted_at(
                    groups@,
                    log_blowup_factor as nat,
                    places[k],
                    #[trigger] r.0@[k],
                    r.1@[k],
                )
        }),
{
    let ghost lb = log_blowup_factor as nat;
    let mut batches: Vec<NumeratorBatch<'a>> = Vec::new();
    let mut positions: Vec<usize> = Vec::new();
    let mut position: usize = 0;
    let n_groups: usize = groups.len();
    for g in 0..n_groups
        invariant
            n_groups == groups.len(),
            log_blowup_factor <= 31,
            lb == log_blowup_factor,
            groups_fit(groups@, lb),
            groups_have_rows(groups@, lb),
            batch_offset(groups@, groups.len() as int) <= usize::MAX,
            position == batch_offset(groups@, g as int),
            batches@.len() == selected_places(groups@, lb, g as nat).len(),
            positions@.len() == batches@.len(),
            forall|k: int|
                0 <= k < batches@.len() ==> submitted_at(
                    groups@,
                    lb,
                    selected_places(groups@, lb, g as nat)[k],
                    #[trigger] batches@[k],
                    positions@[k],
                ),
    {
        let group = &groups[g];
        assert(groups@[g as int].columns.len() > 0);
        assert(subdomain_rows(groups@[g as int].columns@, lb) >= 1);
        proof {
            lemma_batch_offset_mono(groups@, g as int, groups.len() as int);
        }
        let size: usize = group.columns[0].values.len() / pow2_usize(log_blowup_factor);
        let n: usize = group.sample_batches.len();
        if selects_group(group, log_blowup_factor) {
            let ghost before = selected_places(groups@, lb, g as nat);
            let ghost now = selected_places(groups@, lb, (g + 1) as nat);
            for b in 0..n
                invariant
                    g < groups.len(),
                    *group == groups@[g as int],
                    n == group.sample_batches.len(),
                    size == subdomain_rows(group.columns@, lb),
                    groups_fit(groups@, lb),
                    position == batch_offset(groups@, g as int),
                    position + n <= usize::MAX,
                    now == before + Seq::new(n as nat, |b: int| (g as int, b)),
                    batches@.len() == before.len() + b,
                    positions@.len() == batches@.len(),
                    forall|k: int|
                        0 <= k < batches@.len() ==> submitted_at(
                            groups@,
                            lb,
                            now[k],
                            #[trigger] batches@[k],
                            positions@[k],
                        ),
            {
                let batch = &group.sample_batches[b];
                assert(groups@[g as int].sample_batches@[b as int].fits(
                    groups@[g as int].columns@,
                    size as int,
                ));
                let submission = numerator_batch(&group.columns, batch, size);
                proof {
                    assert(submission.values() =~= numerators_s(
                        group.columns@,
                        *batch,
                        size as nat,
                    ));
                    assert(now[before.len() + b] == (g as int, b as int));
                }
                batches.push(submission);
                positions.push(position + b);
            }
        }
        position = position + n;
    }
    (batches, positions)
}

/// A result for a batch, where there is one, is that of the batch.
spec fn result_right(
    groups: Seq<NumeratorBatchGroup>,
    log_blowup: nat,
    results: Seq<Option<SecureColumnByCoords>>,
    g: int,
    b: int,
) -> bool {
    let result = results[batch_offset(groups, g) + b];
    result is Some ==> result->0.wf() && result->0.elements() == numerators_s(
        groups[g].columns@,
        groups[g].sample_batches@[b],
        subdomain_rows(groups[g].columns@, log_blowup),
    )
}

/// Every result is that of its batch.
spec fn results_right(
    groups: Seq<NumeratorBatchGroup>,
    log_blowup: nat,
    results: Seq<Option<SecureColumnByCoords>>,
) -> bool {
    forall|g: int, b: int|
        0 <= g < groups.len() && 0 <= b < groups[g].sample_batches@.len() ==> #[trigger] result_right(
            groups,
            log_blowup,
            results,
            g,
            b,
        )
}

/// Appends the numerators of all batches of all groups, in order. Those of large groups are
/// accumulated in one submission.
pub fn accumulate_groups(
    groups: &Vec<NumeratorBatchGroup>,
    destination: &mut Vec<AccumulatedNumerators>,
    log_blowup_factor: u32,
)
    requires
        log_blowup_factor <= 31,
        groups_fit(groups@, log_blowup_factor as nat),
        groups_have_rows(groups@, log_blowup_factor as nat),
        batch_offset(groups@, groups.len() as int) <= usize::MAX,
    ensures
        final(destination).len() == old(destination).len() + batch_offset(
            groups@,
            groups.len() as int,
        ),
        final(destination)@.take(old(destination).len() as int) == old(destination)@,
        forall|g: int, b: int|
            #![trigger groups@[g].sample_batches@[b]]
            0 <= g < groups.len() && 0 <= b < groups@[g].sample_batches.len() ==> accumulated(
                groups@[g].columns@,
                groups@[g].sample_batches@[b],
                subdomain_rows(groups@[g].columns@, log_blowup_factor as nat),
                final(destination)@[old(destination).len() + batch_offset(groups@, g) + b],
            ),
{
    let ghost lb = log_blowup_factor as nat;
    let ghost total_s = batch_offset(groups@, groups.len() as int);
    let mut total: usize = 0;
    let n_groups: usize = groups.len();
    for g in 0..n_groups
        invariant
            n_groups == groups.len(),
            total == batch_offset(groups@, g as int),
            batch_offset(groups@, groups.len() as int) <= usize::MAX,
    {
        proof {
            lemma_batch_offset_mono(groups@, g as int, groups.len() as int);
        }
        total = total + groups[g].sample_batches.len();
    }
    let mut results: Vec<Option<SecureColumnByCoords>> = Vec::with_capacity(total);
    for i in 0..total
        invariant
            results.len() == i,
            forall|k: int| 0 <= k < i ==> #[trigger] results@[k] is None,
    {
        results.push(None);
    }
    proof {
        assert forall|g: int, b: int|
            0 <= g < groups@.len() && 0 <= b
                < groups@[g].sample_batches@.len() implies #[trigger] result_right(
            groups@,
            lb,
            results@,
            g,
            b,
        ) by {
            lemma_batch_offset_mono(groups@, g, groups.len() as int);
            assert(results@[batch_offset(groups@, g) + b] is None);
        }
    }
    let (batches, positions) = select_batches(groups, log_blowup_factor);
    let ghost places = selected_places(groups@, lb, groups@.len());
    if batches.len() > 0 {
        match accumulate_numerators_metal(&batches) {
            Ok(Some(outputs)) => {
                let mut outputs = outputs;
                let ghost all = outputs@;
                while outputs.len() > 0
                    invariant
                        results@.len() == total_s,
                        results_right(groups@, lb, results@),
                        outputs@.len() <= all.len(),
                        outputs@ == all.take(outputs@.len() as int),
                        all.len() == batches@.len(),
                        places.len() == batches@.len(),
                        positions@.len() == batches@.len(),
                        total_s == batch_offset(groups@, groups.len() as int),
                        forall|k: int|
                            0 <= k < places.len() ==> submitted_at(
                                groups@,
                                lb,
                                places[k],
                                #[trigger] batches@[k],
                                positions@[k],
                            ),
                        forall|k: int|
                            0 <= k < batches.len() ==> (#[trigger] all[k]).wf() && all[k].elements()
                                == batches@[k].values(),
                    decreases outputs@.len(),
                {
                    let k: usize = outputs.len() - 1;
                    let ghost before = outputs@;
                    let ghost old_results = results@;
                    let position: usize = positions[k];
                    let ghost (g, b) = places[k as int];
                    proof {
                        assert(submitted_at(
                            groups@,
                            lb,
                            places[k as int],
                            batches@[k as int],
                            position,
                        ));
                        lemma_batch_offset_mono(groups@, g, groups.len() as int);
                    }
                    match outputs.pop() {
                        Some(column) => {
                            assert(column == all[k as int]);
                            results.set(position, Some(column));
                        },
                        None => {},
                    }
                    proof {
                        assert(outputs@ =~= all.take(outputs@.len() as int));
                        assert forall|h: int, i: int|
                            0 <= h < groups@.len() && 0 <= i
                                < groups@[h].sample_batches@.len() implies #[trigger] result_right(
                            groups@,
                            lb,
                            results@,
                            h,
                            i,
                        ) by {
                            assert(result_right(groups@, lb, old_results, h, i));
                            lemma_batch_offset_mono(groups@, h, groups.len() as int);
                            if batch_offset(groups@, h) + i == position {
                                lemma_same_batch(groups@, g, b, h, i);
                            } else {
                                assert(results@[batch_offset(groups@, h) + i]
                                    == old_results[batch_offset(groups@, h) + i]);
                            }
                        }
                    }
                }
            },
            _ => {},
        }
    }
    let ghost given = results@;
    accumulate_groups_with(groups, results, destination, log_blowup_factor);
    proof {
        assert forall|g: int, b: int|
            #![trigger groups@[g].sample_batches@[b]]
            0 <= g < groups.len() && 0 <= b < groups@[g].sample_batches.len() implies accumulated(
            groups@[g].columns@,
            groups@[g].sample_batches@[b],
            subdomain_rows(groups@[g].columns@, lb),
            destination@[old(destination).len() + batch_offset(groups@, g) + b],
        ) by {
            lemma_batch_offset_mono(groups@, g, groups.len() as int);
            assert(result_right(groups@, lb, given, g, b));
            assert(entry_from(
                groups@[g].columns@,
                groups@[g].sample_batches@[b],
                subdomain_rows(groups@[g].columns@, lb),
                given[batch_offset(groups@, g) + b],
                destination@[(old(destination).len() + batch_offset(groups@, g) + b) as int],
            ));
        }
    }
}

} // verus!
