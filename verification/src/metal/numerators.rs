//! Numerator accumulation for the GPU: validation, parameters and results.

use vstd::arithmetic::power2::pow2;
use vstd::prelude::*;

use super::context::{completion_succeeded, CommandStatus};
use super::ood::element_words;
use super::ood::word_element;
use super::quotients::{should_use_metal_numerators, QuotientMetalError, CHUNK_COLS};
use crate::fields::m31::M31;
use crate::fields::qm31::QM31;
use crate::fields::Field;
use crate::poly::circle_poly::CircleEvaluation;
use crate::quotients::{
    b_sum, quotient_constants, subdomain_rows, ColumnSampleBatch, NumeratorBatchGroup,
};
use crate::secure_column::SecureColumnByCoords;
use crate::utils::{ilog2, lemma_log_unique, lemma_pow2_bound, lemma_pow2_le, pow2_usize};

verus! {

/// One batch to accumulate: columns, their coefficients, the value to start from, and the number
/// of rows.
pub struct NumeratorBatch<'a> {
    pub columns: Vec<&'a [M31]>,
    pub coeffs: Vec<QM31>,
    pub neg_b_sum: QM31,
    pub n_rows: usize,
}

/// `n` is a power of two.
pub open spec fn is_power_of_two(n: int) -> bool {
    exists|k: nat| n == #[trigger] pow2(k)
}

impl<'a> NumeratorBatch<'a> {
    /// Whether the batch can be submitted.
    pub open spec fn valid(self) -> bool {
        &&& is_power_of_two(self.n_rows as int)
        &&& self.n_rows <= u32::MAX
        &&& self.n_rows * 16 <= usize::MAX
        &&& self.columns@.len() > 0
        &&& self.columns@.len() == self.coeffs@.len()
        &&& forall|k: int|
            0 <= k < self.columns@.len() ==> (#[trigger] self.columns@[k])@.len() >= self.n_rows
    }

    /// The number of dispatches of the batch.
    pub open spec fn dispatches(self) -> nat {
        ((self.columns@.len() + CHUNK_COLS - 1) / CHUNK_COLS as int) as nat
    }

    /// The accumulated value in a row from the first `k` columns.
    pub open spec fn value_part(self, row: int, k: nat) -> QM31
        decreases k,
    {
        if k == 0 {
            self.neg_b_sum
        } else {
            self.value_part(row, (k - 1) as nat).plus(
                self.coeffs@[k - 1].scaled(self.columns@[k - 1]@[row]),
            )
        }
    }

    /// The accumulated values.
    pub open spec fn values(self) -> Seq<QM31> {
        Seq::new(self.n_rows as nat, |row: int| self.value_part(row, self.columns@.len()))
    }
}

/// The largest number of rows and the number of dispatches of a submission.
#[derive(Clone, Copy)]
pub struct AccumulationPlan {
    pub max_rows: usize,
    pub dispatch_count: usize,
}

/// The number of dispatches of the first `k` batches.
pub open spec fn total_dispatches(batches: Seq<NumeratorBatch>, k: int) -> nat
    decreases k,
{
    if k <= 0 {
        0
    } else {
        total_dispatches(batches, k - 1) + batches[k - 1].dispatches()
    }
}

/// The largest number of rows of the first `k` batches.
pub open spec fn most_rows(batches: Seq<NumeratorBatch>, k: int) -> nat
    decreases k,
{
    if k <= 0 {
        0
    } else if batches[k - 1].n_rows > most_rows(batches, k - 1) {
        batches[k - 1].n_rows as nat
    } else {
        most_rows(batches, k - 1)
    }
}

/// Whether a submission can be made.
pub open spec fn batches_valid(batches: Seq<NumeratorBatch>) -> bool {
    &&& batches.len() > 0
    &&& forall|k: int| 0 <= k < batches.len() ==> (#[trigger] batches[k]).valid()
    &&& total_dispatches(batches, batches.len() as int) <= usize::MAX
}

fn power_of_two(n: usize) -> (r: bool)
    requires
        n <= 0x8000_0000,
    ensures
        r == is_power_of_two(n as int),
{
    if n == 0 {
        assert forall|k: nat| 0 != #[trigger] pow2(k) by {
            vstd::arithmetic::power2::lemma_pow2_pos(k);
        }
        return false;
    }
    let log: u32 = ilog2(n);
    let p: usize = pow2_usize(log);
    if p == n {
        return true;
    }
    proof {
        assert forall|k: nat| n != #[trigger] pow2(k) by {
            if n == pow2(k) {
                lemma_log_unique(log as nat, k);
            }
        }
    }
    false
}

fn batch_is_valid(batch: &NumeratorBatch) -> (r: bool)
    ensures
        r == batch.valid(),
{
    if batch.n_rows > 0x8000_0000 {
        proof {
            if batch.n_rows <= u32::MAX {
                vstd::arithmetic::power2::lemma2_to64();
                assert forall|k: nat| batch.n_rows != #[trigger] pow2(k) by {
                    if k <= 31 {
                        lemma_pow2_bound(k);
                    } else {
                        lemma_pow2_le(32, k);
                    }
                }
            }
        }
        return false;
    }
    if !power_of_two(batch.n_rows) || batch.n_rows.checked_mul(16).is_none() {
        return false;
    }
    let n: usize = batch.columns.len();
    if n == 0 || n != batch.coeffs.len() {
        return false;
    }
    for k in 0..n
        invariant
            n == batch.columns.len(),
            forall|i: int|
                0 <= i < k ==> (#[trigger] batch.columns@[i])@.len() >= batch.n_rows,
    {
        let column = batch.columns[k];
        if column.len() < batch.n_rows {
            assert(batch.columns@[k as int]@.len() < batch.n_rows);
            return false;
        }
    }
    true
}

proof fn lemma_dispatches_mono(batches: Seq<NumeratorBatch>, j: int, k: int)
    requires
        0 <= j <= k,
    ensures
        total_dispatches(batches, j) <= total_dispatches(batches, k),
    decreases k - j,
{
    if j < k {
        lemma_dispatches_mono(batches, j, k - 1);
    }
}

/// Validates a submission before anything is submitted.
pub fn preflight(batches: &Vec<NumeratorBatch>) -> (r: Option<AccumulationPlan>)
    ensures
        r is Some <==> batches_valid(batches@),
        r is Some ==> r->0.max_rows == most_rows(batches@, batches.len() as int)
            && r->0.dispatch_count == total_dispatches(batches@, batches.len() as int),
{
    let n: usize = batches.len();
    if n == 0 {
        return None;
    }
    let mut max_rows: usize = 0;
    let mut dispatch_count: usize = 0;
    for k in 0..n
        invariant
            n == batches.len(),
            forall|i: int| 0 <= i < k ==> (#[trigger] batches@[i]).valid(),
            max_rows == most_rows(batches@, k as int),
            dispatch_count == total_dispatches(batches@, k as int),
    {
        let batch = &batches[k];
        if !batch_is_valid(batch) {
            assert(!batches@[k as int].valid());
            return None;
        }
        if batch.n_rows > max_rows {
            max_rows = batch.n_rows;
        }
        let len: usize = batch.columns.len();
        let chunks: usize = (len - 1) / CHUNK_COLS + 1;
        assert(chunks == batches@[k as int].dispatches());
        proof {
            lemma_dispatches_mono(batches@, k + 1, n as int);
        }
        match dispatch_count.checked_add(chunks) {
            Some(total) => {
                dispatch_count = total;
            },
            None => {
                return None;
            },
        }
    }
    Some(AccumulationPlan { max_rows, dispatch_count })
}

/// The parameters of one dispatch: its shape, whether it is the first and the last of its batch,
/// the value to start from, and its coefficients in sixteen slots of four words.
pub struct AccumulateParams {
    pub n_rows: u32,
    pub n_cols: u32,
    pub mode: u32,
    pub init_acc: [u32; 4],
    pub coeffs: Vec<u32>,
}

/// The number of columns of a chunk.
pub open spec fn chunk_columns(total: nat, chunk: nat) -> nat {
    if total - chunk * CHUNK_COLS >= CHUNK_COLS {
        CHUNK_COLS as nat
    } else {
        (total - chunk * CHUNK_COLS) as nat
    }
}

/// The coefficient word at a place of a chunk; places without a column hold zero.
pub open spec fn coefficient_word(coeffs: Seq<QM31>, chunk: nat, at: int) -> u32 {
    let column = chunk * CHUNK_COLS + at / 4;
    if column < coeffs.len() {
        coeffs[column].coords()[at % 4].0
    } else {
        0
    }
}

/// The parameters of a dispatch.
pub fn dispatch_params(batch: &NumeratorBatch, chunk: usize) -> (r: AccumulateParams)
    requires
        batch.valid(),
        chunk < batch.dispatches(),
    ensures
        r.n_rows == batch.n_rows,
        r.n_cols == chunk_columns(batch.columns@.len(), chunk as nat),
        r.mode == (if chunk == 0 {
            1int
        } else {
            0
        }) + (if chunk == batch.dispatches() - 1 {
            2int
        } else {
            0
        }),
        word_element(r.init_acc) == batch.neg_b_sum,
        r.coeffs.len() == 64,
        forall|at: int|
            0 <= at < 64 ==> #[trigger] r.coeffs@[at] == coefficient_word(
                batch.coeffs@,
                chunk as nat,
                at,
            ),
{
    let len: usize = batch.columns.len();
    let n_chunks: usize = (len - 1) / CHUNK_COLS + 1;
    let start: usize = chunk * CHUNK_COLS;
    let rest: usize = len - start;
    let n_cols: u32 = if rest >= CHUNK_COLS {
        16
    } else {
        rest as u32
    };
    let mut coeffs: Vec<u32> = Vec::with_capacity(64);
    for at in 0..64usize
        invariant
            start == chunk * CHUNK_COLS,
            start <= len,
            len == batch.coeffs.len(),
            coeffs.len() == at,
            forall|i: int|
                0 <= i < at ==> #[trigger] coeffs@[i] == coefficient_word(
                    batch.coeffs@,
                    chunk as nat,
                    i,
                ),
    {
        let offset: usize = at / 4;
        if offset < len - start {
            let words = batch.coeffs[start + offset].to_m31_array();
            coeffs.push(words[at % 4].0);
        } else {
            coeffs.push(0);
        }
    }
    let first: u32 = if chunk == 0 {
        1
    } else {
        0
    };
    let last: u32 = if chunk == n_chunks - 1 {
        2
    } else {
        0
    };
    AccumulateParams {
        n_rows: batch.n_rows as u32,
        n_cols,
        mode: first + last,
        init_acc: element_words(batch.neg_b_sum),
        coeffs,
    }
}

/// Adds the columns from `start` to `end`, in order, to a running state.
fn accumulate_chunk(batch: &NumeratorBatch, start: usize, end: usize, state: &mut Vec<QM31>)
    requires
        batch.valid(),
        start <= end <= batch.columns.len(),
        old(state).len() == batch.n_rows,
        forall|row: int|
            0 <= row < batch.n_rows ==> #[trigger] old(state)@[row] == batch.value_part(
                row,
                start as nat,
            ),
    ensures
        final(state).len() == batch.n_rows,
        forall|row: int|
            0 <= row < batch.n_rows ==> #[trigger] final(state)@[row] == batch.value_part(
                row,
                end as nat,
            ),
{
    for k in start..end
        invariant
            batch.valid(),
            start <= k <= end,
            end <= batch.columns.len(),
            state.len() == batch.n_rows,
            forall|row: int|
                0 <= row < batch.n_rows ==> #[trigger] state@[row] == batch.value_part(
                    row,
                    k as nat,
                ),
    {
        let column = batch.columns[k];
        let c = batch.coeffs[k];
        assert(batch.columns@[k as int]@.len() >= batch.n_rows);
        for row in 0..batch.n_rows
            invariant
                k < batch.columns.len(),
                state.len() == batch.n_rows,
                column@ == batch.columns@[k as int]@,
                column@.len() >= batch.n_rows,
                c == batch.coeffs@[k as int],
                forall|i: int|
                    0 <= i < row ==> #[trigger] state@[i] == batch.value_part(
                        i,
                        (k + 1) as nat,
                    ),
                forall|i: int|
                    row <= i < batch.n_rows ==> #[trigger] state@[i] == batch.value_part(
                        i,
                        k as nat,
                    ),
        {
            let v = state[row].add(c.mul_m31(column[row]));
            state.set(row, v);
        }
    }
}

/// The accumulated values of one batch, in chunks of sixteen columns with a running state.
fn accumulate_one(batch: &NumeratorBatch) -> (r: SecureColumnByCoords)
    requires
        batch.valid(),
    ensures
        r.wf(),
        r.elements() == batch.values(),
{
    let mut state: Vec<QM31> = Vec::with_capacity(batch.n_rows);
    for row in 0..batch.n_rows
        invariant
            state.len() == row,
            forall|i: int| 0 <= i < row ==> #[trigger] state@[i] == batch.value_part(i, 0),
    {
        state.push(batch.neg_b_sum);
    }
    let len: usize = batch.columns.len();
    let mut start: usize = 0;
    while start < len
        invariant
            batch.valid(),
            len == batch.columns.len(),
            start <= len,
            state.len() == batch.n_rows,
            forall|row: int|
                0 <= row < batch.n_rows ==> #[trigger] state@[row] == batch.value_part(
                    row,
                    start as nat,
                ),
        decreases len - start,
    {
        let end: usize = if len - start > CHUNK_COLS {
            start + CHUNK_COLS
        } else {
            len
        };
        accumulate_chunk(batch, start, end, &mut state);
        start = end;
    }
    let mut r = SecureColumnByCoords::new_empty();
    for row in 0..batch.n_rows
        invariant
            state.len() == batch.n_rows,
            r.wf(),
            r.elements() == state@.take(row as int),
    {
        r.push(state[row]);
        assert(r.elements() =~= state@.take(row + 1));
    }
    assert(r.elements() =~= batch.values());
    r
}

/// What a submission of all batches comes to, once its command has ended. One that is not valid
/// is declined before it is submitted; a command that has not completed is a final failure.
pub fn settle_numerators(batches: &Vec<NumeratorBatch>, status: CommandStatus) -> (r: Result<
    Option<Vec<SecureColumnByCoords>>,
    QuotientMetalError,
>)
    ensures
        !batches_valid(batches@) ==> r is Ok && r->Ok_0 is None,
        batches_valid(batches@) && status != CommandStatus::Completed ==> r is Err && r->Err_0 == (
        QuotientMetalError::NumeratorCommandFailed {
            status,
            batch_count: batches.len(),
            dispatch_count: total_dispatches(batches@, batches.len() as int) as usize,
        }),
        batches_valid(batches@) && status == CommandStatus::Completed ==> r is Ok && r->Ok_0 is Some
            && r->Ok_0->0.len() == batches.len() && forall|k: int|
            0 <= k < batches.len() ==> (#[trigger] r->Ok_0->0@[k]).wf()
                && r->Ok_0->0@[k].elements() == batches@[k].values(),
{
    match preflight(batches) {
        None => Ok(None),
        Some(plan) => {
            if !completion_succeeded(status) {
                return Err(
                    QuotientMetalError::NumeratorCommandFailed {
                        status,
                        batch_count: batches.len(),
                        dispatch_count: plan.dispatch_count,
                    },
                );
            }
            let n: usize = batches.len();
            let mut outputs: Vec<SecureColumnByCoords> = Vec::with_capacity(n);
            for k in 0..n
                invariant
                    n == batches.len(),
                    batches_valid(batches@),
                    outputs.len() == k,
                    forall|i: int|
                        0 <= i < k ==> (#[trigger] outputs@[i]).wf() && outputs@[i].elements()
                            == batches@[i].values(),
            {
                assert(batches@[k as int].valid());
                outputs.push(accumulate_one(&batches[k]));
            }
            Ok(Some(outputs))
        },
    }
}

/// The accumulated values of all batches, in their order. A submission that is not valid is
/// declined.
pub fn accumulate_numerators_metal(batches: &Vec<NumeratorBatch>) -> (r: Result<
    Option<Vec<SecureColumnByCoords>>,
    QuotientMetalError,
>)
    ensures
        r is Ok,
        r->Ok_0 is Some <==> batches_valid(batches@),
        r->Ok_0 is Some ==> r->Ok_0->0.len() == batches.len() && forall|k: int|
            0 <= k < batches.len() ==> (#[trigger] r->Ok_0->0@[k]).wf()
                && r->Ok_0->0@[k].elements() == batches@[k].values(),
{
    settle_numerators(batches, CommandStatus::Completed)
}

/// The address of the first element of a column (`slice::as_ptr`, as a number).
///
/// Nothing is claimed of the address itself: it differs from run to run.
#[verifier::external_body]
fn column_address(column: &[M31]) -> (r: usize) {
    column.as_ptr() as usize
}

/// The key by which bound inputs are told apart: where a column starts, and how long it is.
pub fn input_key(column: &[M31]) -> (r: (usize, usize))
    ensures
        r.1 == column@.len(),
{
    (column_address(column), column.len())
}

/// Keys in the order of their first use, each once.
pub open spec fn first_uses(keys: Seq<(usize, usize)>) -> Seq<(usize, usize)>
    decreases keys.len(),
{
    if keys.len() == 0 {
        Seq::empty()
    } else {
        let before = first_uses(keys.drop_last());
        if before.contains(keys.last()) {
            before
        } else {
            before.push(keys.last())
        }
    }
}

/// Every key is a first use, and none comes twice among those.
pub proof fn lemma_first_uses(keys: Seq<(usize, usize)>)
    ensures
        first_uses(keys).no_duplicates(),
        forall|i: int| 0 <= i < keys.len() ==> first_uses(keys).contains(#[trigger] keys[i]),
        forall|a: int|
            0 <= a < first_uses(keys).len() ==> keys.contains(#[trigger] first_uses(keys)[a]),
    decreases keys.len(),
{
    if keys.len() > 0 {
        let rest = keys.drop_last();
        lemma_first_uses(rest);
        let before = first_uses(rest);
        let all = first_uses(keys);
        assert forall|i: int| 0 <= i < keys.len() implies all.contains(#[trigger] keys[i]) by {
            if i < rest.len() {
                assert(rest[i] == keys[i]);
                let a = choose|a: int| 0 <= a < before.len() && before[a] == keys[i];
                assert(all[a] == keys[i]);
            } else if !before.contains(keys.last()) {
                assert(all[before.len() as int] == keys[i]);
            }
        }
        assert forall|a: int| 0 <= a < all.len() implies keys.contains(#[trigger] all[a]) by {
            if a < before.len() {
                assert(rest.contains(before[a]));
                let i = choose|i: int| 0 <= i < rest.len() && rest[i] == before[a];
                assert(keys[i] == all[a]);
            } else {
                assert(keys[keys.len() - 1] == all[a]);
            }
        }
    }
}

/// The distinct keys in the order of first use, and the place of every key among them.
pub open spec fn deduplicated(
    keys: Seq<(usize, usize)>,
    distinct: Seq<(usize, usize)>,
    index: Seq<usize>,
) -> bool {
    &&& distinct == first_uses(keys)
    &&& index.len() == keys.len()
    &&& forall|i: int|
        0 <= i < keys.len() ==> (#[trigger] index[i]) < distinct.len() && distinct[index[i] as int]
            == keys[i]
}

/// Binds every distinct input once, in the order of first use.
pub fn deduplicate_inputs(keys: &Vec<(usize, usize)>) -> (r: (Vec<(usize, usize)>, Vec<usize>))
    ensures
        deduplicated(keys@, r.0@, r.1@),
{
    let mut distinct: Vec<(usize, usize)> = Vec::new();
    let mut index: Vec<usize> = Vec::new();
    let n: usize = keys.len();
    for i in 0..n
        invariant
            n == keys.len(),
            deduplicated(keys@.take(i as int), distinct@, index@),
    {
        let key = keys[i];
        let mut at: usize = 0;
        while at < distinct.len() && (distinct[at].0 != key.0 || distinct[at].1 != key.1)
            invariant
                at <= distinct.len(),
                forall|a: int| 0 <= a < at ==> #[trigger] distinct@[a] != key,
            decreases distinct.len() - at,
        {
            at = at + 1;
        }
        let ghost d0 = distinct@;
        let ghost x0 = index@;
        if at == distinct.len() {
            distinct.push(key);
        }
        index.push(at);
        proof {
            let ks = keys@.take(i + 1);
            assert(ks.drop_last() =~= keys@.take(i as int));
            assert(ks.last() == key);
            if at < d0.len() {
                assert(d0[at as int] == key);
            }
            assert(distinct@ == first_uses(ks));
            assert forall|j: int| 0 <= j < ks.len() implies (#[trigger] index@[j])
                < distinct@.len() && distinct@[index@[j] as int] == ks[j] by {
                if j < i {
                    assert(index@[j] == x0[j]);
                    assert(keys@.take(i as int)[j] == ks[j]);
                }
            }
        }
    }
    assert(keys@.take(n as int) =~= keys@);
    (distinct, index)
}

/// Whether the batches of a group are large enough to be submitted.
pub open spec fn group_selected(group: NumeratorBatchGroup, log_blowup_factor: nat) -> bool {
    subdomain_rows(group.columns@, log_blowup_factor) >= pow2(
        super::quotients::MIN_METAL_NUMERATOR_LOG_SIZE as nat,
    )
}

/// Whether the numerators of a group are accumulated on the GPU.
pub fn selects_group(group: &NumeratorBatchGroup, log_blowup_factor: u32) -> (r: bool)
    requires
        group.columns.len() > 0,
        log_blowup_factor <= 31,
        subdomain_rows(group.columns@, log_blowup_factor as nat) >= 1,
    ensures
        r == group_selected(*group, log_blowup_factor as nat),
{
    let size: usize = group.columns[0].values.len() / pow2_usize(log_blowup_factor);
    let log: u32 = ilog2(size);
    proof {
        if log >= 14 {
            lemma_pow2_le(14, log as nat);
        } else {
            lemma_pow2_le((log + 1) as nat, 14);
        }
    }
    should_use_metal_numerators(log)
}

/// The submission of one batch of a group: its columns in the order of the batch, the third
/// coefficients of its lines, and minus the sum of the second.
pub fn numerator_batch<'a>(
    columns: &Vec<&'a CircleEvaluation>,
    batch: &ColumnSampleBatch,
    n_rows: usize,
) -> (r: NumeratorBatch<'a>)
    requires
        batch.fits(columns@, n_rows as int),
    ensures
        r.n_rows == n_rows,
        r.neg_b_sum == b_sum(batch.lines()).opposite(),
        r.columns.len() == batch.cols_vals_randpows.len(),
        r.coeffs.len() == batch.cols_vals_randpows.len(),
        forall|k: int|
            0 <= k < r.columns.len() ==> (#[trigger] r.columns@[k])@
                == columns@[batch.cols_vals_randpows@[k].column_index as int].values@,
        forall|k: int| 0 <= k < r.coeffs.len() ==> #[trigger] r.coeffs@[k] == batch.lines()[k].c,
        forall|row: int|
            0 <= row < n_rows ==> #[trigger] r.value_part(row, r.columns@.len())
                == crate::quotients::numerator_part(
                columns@,
                *batch,
                row,
                batch.cols_vals_randpows@.len(),
            ),
{
    let lines = quotient_constants(batch);
    let n: usize = batch.cols_vals_randpows.len();
    let mut cols: Vec<&'a [M31]> = Vec::with_capacity(n);
    let mut coeffs: Vec<QM31> = Vec::with_capacity(n);
    for k in 0..n
        invariant
            n == batch.cols_vals_randpows.len(),
            batch.fits(columns@, n_rows as int),
            lines@ == batch.lines(),
            cols.len() == k,
            coeffs.len() == k,
            forall|i: int|
                0 <= i < k ==> (#[trigger] cols@[i])@
                    == columns@[batch.cols_vals_randpows@[i].column_index as int].values@,
            forall|i: int| 0 <= i < k ==> #[trigger] coeffs@[i] == batch.lines()[i].c,
    {
        let index = batch.cols_vals_randpows[k].column_index;
        assert(batch.cols_vals_randpows@[k as int].column_index == index);
        cols.push(columns[index].values.as_slice());
        coeffs.push(lines[k].c);
    }
    let neg_b_sum = crate::quotients::sum_b(&lines).neg();
    let r = NumeratorBatch { columns: cols, coeffs, neg_b_sum, n_rows };
    proof {
        assert forall|row: int| 0 <= row < n_rows implies #[trigger] r.value_part(
            row,
            r.columns@.len(),
        ) == crate::quotients::numerator_part(
            columns@,
            *batch,
            row,
            batch.cols_vals_randpows@.len(),
        ) by {
            lemma_value_part(r, columns@, *batch, row, n as nat);
        }
    }
    r
}

proof fn lemma_value_part(
    r: NumeratorBatch,
    columns: Seq<&CircleEvaluation>,
    batch: ColumnSampleBatch,
    row: int,
    k: nat,
)
    requires
        k <= batch.cols_vals_randpows@.len(),
        r.neg_b_sum == b_sum(batch.lines()).opposite(),
        r.columns@.len() == batch.cols_vals_randpows@.len(),
        r.coeffs@.len() == batch.cols_vals_randpows@.len(),
        forall|i: int|
            0 <= i < r.columns@.len() ==> (#[trigger] r.columns@[i])@
                == columns[batch.cols_vals_randpows@[i].column_index as int].values@,
        forall|i: int| 0 <= i < r.coeffs@.len() ==> #[trigger] r.coeffs@[i] == batch.lines()[i].c,
    ensures
        r.value_part(row, k) == crate::quotients::numerator_part(columns, batch, row, k),
    decreases k,
{
    if k > 0 {
        lemma_value_part(r, columns, batch, row, (k - 1) as nat);
        assert(r.coeffs@[k - 1] == batch.lines()[k - 1].c);
        assert(r.columns@[k - 1]@ == columns[batch.cols_vals_randpows@[k
            - 1].column_index as int].values@);
    }
}

} // verus!
