//! Merkle leaves and layers in device passes: sixteen columns are absorbed at a time into rolling
//! states, which are kept at the largest size met so far and lifted when later columns are larger.

use vstd::arithmetic::power2::{lemma2_to64, lemma_pow2_pos, pow2};
use vstd::prelude::*;

use crate::fields::m31::M31;
use crate::utils::{
    lemma_lifted_none, lemma_lifted_row, lemma_lifted_twice, lemma_log_of, lemma_pow2_bound,
    lemma_pow2_le, lifted_row, log_of, pow2_usize,
};
use crate::vcs::blake2s::{
    blake2s_s, blocks_before_last, bytes_of, chain_s, compress, flat_words, hash_with, initial,
    lemma_hash_with, output, output_s, padded_block, Blake2sHash, Blake2sMerkleHasherGeneric,
};
use crate::vcs::merkle::{
    build_leaves, hash_pairs, columns_fit, layer_above, leaves_s, lemma_run_length,
    lifted_value, next_layer_s, pack_leaves_input, piece_start, piece_values, pieces_from,
    row_pieces,
};

verus! {

/// How many columns one pass absorbs: the words of one block.
pub const CHUNK_COLS: usize = 16;

/// The least logarithmic size of a layer that is worth a pass.
pub const MIN_METAL_LOG_SIZE: u32 = 17;

/// The words that row `i` takes from the first `n` columns.
pub open spec fn lifted_words(columns: Seq<&Vec<M31>>, i: int, log_size: nat, n: nat) -> Seq<u32> {
    Seq::new(n, |c: int| lifted_value(columns[c]@, i, log_size).0)
}

proof fn lemma_piece_progress(columns: Seq<&Vec<M31>>, k: nat)
    requires
        k <= pieces_from(columns, 0),
    ensures
        0 <= piece_start(columns, k) <= columns.len(),
        pieces_from(columns, piece_start(columns, k)) + k == pieces_from(columns, 0),
        k > 0 ==> piece_start(columns, (k - 1) as nat) < piece_start(columns, k),
    decreases k,
{
    if k > 0 {
        lemma_piece_progress(columns, (k - 1) as nat);
    }
}

/// The pieces cover all columns.
proof fn lemma_pieces_cover(columns: Seq<&Vec<M31>>)
    ensures
        piece_start(columns, pieces_from(columns, 0)) == columns.len(),
{
    let k = pieces_from(columns, 0);
    lemma_piece_progress(columns, k);
    let start = piece_start(columns, k);
    if start < columns.len() {
        lemma_run_length(columns, start, 16);
    }
}

/// What a row absorbs, as words, piece by piece.
proof fn lemma_row_words(columns: Seq<&Vec<M31>>, i: int, log_size: nat, k: nat)
    requires
        k <= pieces_from(columns, 0),
    ensures
        flat_words(row_pieces(columns, i, log_size, k)) == lifted_words(
            columns,
            i,
            log_size,
            piece_start(columns, k) as nat,
        ),
    decreases k,
{
    lemma_piece_progress(columns, k);
    let words = lifted_words(columns, i, log_size, piece_start(columns, k) as nat);
    if k == 0 {
        assert(words =~= Seq::<u32>::empty());
    } else {
        let j = (k - 1) as nat;
        lemma_row_words(columns, i, log_size, j);
        lemma_piece_progress(columns, j);
        let (a, b) = (piece_start(columns, j), piece_start(columns, k));
        let pieces = row_pieces(columns, i, log_size, k);
        assert(pieces.drop_last() =~= row_pieces(columns, i, log_size, j));
        let piece = piece_values(columns, a, b, i, log_size).map_values(|m: M31| m.0);
        assert(lifted_words(columns, i, log_size, a as nat) + piece =~= words);
    }
}

/// A leaf is the digest of the row's words.
pub proof fn lemma_leaf_words<const IS_M31_OUTPUT: bool>(
    columns: Seq<&Vec<M31>>,
    log_size: nat,
    i: int,
)
    requires
        columns.len() > 0,
        0 <= i < pow2(log_size),
    ensures
        leaves_s::<Blake2sMerkleHasherGeneric<IS_M31_OUTPUT>>(columns, log_size).len() == pow2(
            log_size,
        ),
        leaves_s::<Blake2sMerkleHasherGeneric<IS_M31_OUTPUT>>(columns, log_size)[i] == hash_with(
            output_s(
                blake2s_s(lifted_words(columns, i, log_size, columns.len())),
                IS_M31_OUTPUT,
            ),
        ),
{
    lemma_pieces_cover(columns);
    lemma_row_words(columns, i, log_size, pieces_from(columns, 0));
}

/// The chain value depends only on the words that it has absorbed.
proof fn lemma_chain_prefix(a: Seq<u32>, b: Seq<u32>, k: nat)
    requires
        16 * k <= a.len(),
        16 * k <= b.len(),
        a.take(16 * k as int) == b.take(16 * k as int),
    ensures
        chain_s(a, k) == chain_s(b, k),
    decreases k,
{
    if k > 0 {
        let j = (k - 1) as nat;
        assert(a.take(16 * j as int) =~= a.take(16 * k as int).take(16 * j as int));
        assert(b.take(16 * j as int) =~= b.take(16 * k as int).take(16 * j as int));
        lemma_chain_prefix(a, b, j);
        assert(a.subrange(16 * j as int, 16 * k as int) =~= a.take(16 * k as int).subrange(
            16 * j as int,
            16 * k as int,
        ));
        assert(b.subrange(16 * j as int, 16 * k as int) =~= b.take(16 * k as int).subrange(
            16 * j as int,
            16 * k as int,
        ));
    }
}

/// One pass over sixteen columns, or the rest.
#[derive(Clone, Copy, Debug, PartialEq, Eq)]
pub struct CompactStage {
    /// The size at which the states are kept after this pass.
    pub destination_log: u32,
    pub n_rows: u32,
    /// The bytes of the states.
    pub state_bytes: u64,
    pub first_column: u32,
    pub n_cols: u32,
    /// Bit 0 marks the first pass, bit 1 the last.
    pub mode: u32,
    /// The size of the states before this pass.
    pub source_state_log: u32,
    /// The sizes of the columns; unused places hold the destination size.
    pub column_logs: [u32; 16],
}

/// How many passes `n` columns take.
pub open spec fn chunk_count(n: nat) -> nat {
    ((n + 15) / 16) as nat
}

pub open spec fn chunk_end(n: nat, k: int) -> int {
    if 16 * (k + 1) <= n {
        16 * (k + 1)
    } else {
        n as int
    }
}

/// The size of the states after the `k`-th pass: that of its largest column, and in the end that
/// of the tree.
pub open spec fn stage_log(logs: Seq<u32>, lifting_log: u32, k: int) -> u32 {
    if k + 1 == chunk_count(logs.len()) {
        lifting_log
    } else {
        logs[chunk_end(logs.len(), k) - 1]
    }
}

/// The columns are in order of their sizes, and as long as these say.
pub open spec fn compact_layout(lens: Seq<usize>, logs: Seq<u32>, lifting_log: u32) -> bool {
    &&& lens.len() > 0
    &&& lens.len() == logs.len()
    &&& forall|c: int| 0 <= c < logs.len() ==> 0 < #[trigger] logs[c] <= lifting_log
    &&& forall|b: int, c: int| 0 <= b <= c < logs.len() ==> logs[b] <= logs[c]
    &&& lifting_log < 32
    &&& lens.len() <= u32::MAX / 4
    &&& forall|c: int| 0 <= c < logs.len() ==> #[trigger] lens[c] == pow2(logs[c] as nat)
}

pub open spec fn is_stage(s: CompactStage, logs: Seq<u32>, lifting_log: u32, k: int) -> bool {
    let n = logs.len();
    &&& s.destination_log == stage_log(logs, lifting_log, k)
    &&& s.n_rows == pow2(s.destination_log as nat)
    &&& s.state_bytes == 32 * s.n_rows
    &&& s.first_column == 16 * k
    &&& s.n_cols == chunk_end(n, k) - 16 * k
    &&& s.mode == (if k == 0 {
        1int
    } else {
        0
    }) + (if k + 1 == chunk_count(n) {
        2int
    } else {
        0
    })
    &&& s.source_state_log == if k == 0 {
        s.destination_log
    } else {
        stage_log(logs, lifting_log, k - 1)
    }
    &&& forall|j: int|
        0 <= j < 16 ==> #[trigger] s.column_logs@[j] == if 16 * k + j < chunk_end(n, k) {
            logs[16 * k + j]
        } else {
            s.destination_log
        }
}

fn is_compact_layout(lens: &Vec<usize>, logs: &Vec<u32>, lifting_log: u32) -> (r: bool)
    ensures
        r == compact_layout(lens@, logs@, lifting_log),
{
    let n = lens.len();
    if n == 0 || n != logs.len() || lifting_log >= 32 || n > (u32::MAX / 4) as usize {
        return false;
    }
    let mut c: usize = 0;
    while c < n
        invariant
            c <= n == lens@.len(),
            n == logs@.len(),
            lifting_log < 32,
            forall|b: int| 0 <= b < c ==> 0 < #[trigger] logs@[b] <= lifting_log,
            forall|b: int, d: int| 0 <= b <= d < c ==> logs@[b] <= logs@[d],
            forall|b: int| 0 <= b < c ==> #[trigger] lens@[b] == pow2(logs@[b] as nat),
        decreases n - c,
    {
        let log = logs[c];
        if log == 0 || log > lifting_log {
            return false;
        }
        if c > 0 && logs[c - 1] > log {
            assert(logs@[c - 1] > logs@[c as int]);
            return false;
        }
        if lens[c] != pow2_usize(log) {
            assert(lens@[c as int] != pow2(logs@[c as int] as nat));
            return false;
        }
        c += 1;
    }
    true
}

/// The passes over columns of the given lengths and sizes, or nothing where these do not fit
/// together.
pub fn plan_compact(lens: &Vec<usize>, logs: &Vec<u32>, lifting_log: u32) -> (r: Option<
    Vec<CompactStage>,
>)
    ensures
        r is Some <==> compact_layout(lens@, logs@, lifting_log),
        match r {
            Some(stages) => stages@.len() == chunk_count(logs@.len()) && forall|k: int|
                0 <= k < stages@.len() ==> is_stage(
                    #[trigger] stages@[k],
                    logs@,
                    lifting_log,
                    k,
                ),
            None => true,
        },
{
    if !is_compact_layout(lens, logs, lifting_log) {
        return None;
    }
    let n = logs.len();
    let n_chunks = (n - 1) / 16 + 1;
    let mut stages: Vec<CompactStage> = Vec::new();
    let mut source_log: u32 = 0;
    let mut k: usize = 0;
    while k < n_chunks
        invariant
            k <= n_chunks == chunk_count(n as nat),
            n == logs@.len(),
            n <= u32::MAX / 4,
            compact_layout(lens@, logs@, lifting_log),
            stages@.len() == k,
            k > 0 ==> source_log == stage_log(logs@, lifting_log, k - 1),
            forall|j: int|
                0 <= j < k ==> is_stage(#[trigger] stages@[j], logs@, lifting_log, j),
        decreases n_chunks - k,
    {
        let first = 16 * k;
        let end = if n - first >= 16 {
            first + 16
        } else {
            n
        };
        let last = k + 1 == n_chunks;
        let destination_log = if last {
            lifting_log
        } else {
            logs[end - 1]
        };
        proof {
            lemma_pow2_bound(destination_log as nat);
        }
        let n_rows = pow2_usize(destination_log) as u32;
        let mut column_logs: [u32; 16] = [destination_log; 16];
        let mut j: usize = 0;
        while j < end - first
            invariant
                j <= end - first <= 16,
                end <= n == logs@.len(),
                first == 16 * k,
                forall|i: int| 0 <= i < j ==> #[trigger] column_logs@[i] == logs@[first + i],
                forall|i: int| j <= i < 16 ==> #[trigger] column_logs@[i] == destination_log,
            decreases end - first - j,
        {
            column_logs[j] = logs[first + j];
            j += 1;
        }
        let stage = CompactStage {
            destination_log,
            n_rows,
            state_bytes: 32 * n_rows as u64,
            first_column: first as u32,
            n_cols: (end - first) as u32,
            mode: (if k == 0 {
                1
            } else {
                0
            }) + (if last {
                2
            } else {
                0
            }),
            source_state_log: if k == 0 {
                destination_log
            } else {
                source_log
            },
            column_logs,
        };
        assert(is_stage(stage, logs@, lifting_log, k as int));
        stages.push(stage);
        source_log = destination_log;
        k += 1;
    }
    Some(stages)
}

/// The row that a larger layer's row is lifted from.
fn lifted_index(i: usize, log_ratio: u32) -> (r: usize)
    requires
        log_ratio <= 30,
    ensures
        r == lifted_row(i as int, log_ratio as nat),
{
    proof {
        lemma_pow2_pos(log_ratio as nat);
        lemma_pow2_le(log_ratio as nat, 30);
        lemma2_to64();
        assert(2 * (i as int / (2 * pow2(log_ratio as nat)) as int) + i as int % 2 <= i) by (nonlinear_arith)
            requires
                pow2(log_ratio as nat) >= 1,
                i >= 0,
        ;
    }
    2 * (i / (2 * pow2_usize(log_ratio))) + i % 2
}

/// A smaller layer's row takes the words that the rows lifted from it take.
proof fn lemma_words_lifted(columns: Seq<&Vec<M31>>, i: int, small: nat, large: nat, n: nat)
    requires
        i >= 0,
        small <= large,
        n <= columns.len(),
        forall|c: int| 0 <= c < n ==> log_of((#[trigger] columns[c])@.len()) <= small,
    ensures
        lifted_words(columns, lifted_row(i, (large - small) as nat), small, n) == lifted_words(
            columns,
            i,
            large,
            n,
        ),
{
    let low = lifted_row(i, (large - small) as nat);
    assert forall|c: int| 0 <= c < n implies lifted_words(columns, low, small, n)[c]
        == lifted_words(columns, i, large, n)[c] by {
        let l = log_of(columns[c]@.len());
        assert(l <= small);
        lemma_lifted_twice(i, (large - small) as nat, (small - l) as nat);
    }
    assert(lifted_words(columns, low, small, n) =~= lifted_words(columns, i, large, n));
}

/// What the states of a layer hold after the `k`-th pass.
spec fn states_after(
    states: Seq<[u32; 8]>,
    columns: Seq<&Vec<M31>>,
    logs: Seq<u32>,
    lifting_log: u32,
    k: int,
) -> bool {
    let d = stage_log(logs, lifting_log, k) as nat;
    let n = logs.len();
    &&& states.len() == pow2(d)
    &&& forall|i: int|
        0 <= i < states.len() ==> (#[trigger] states[i])@ == if k + 1 == chunk_count(n) {
            blake2s_s(lifted_words(columns, i, d, n))
        } else {
            chain_s(lifted_words(columns, i, d, (16 * (k + 1)) as nat), (k + 1) as nat)
        }
}

/// The words of one row that a pass absorbs, padded with zeros.
fn row_block(columns: &Vec<&Vec<M31>>, stage: &CompactStage, i: usize) -> (m: [u32; 16])
    requires
        stage.n_cols <= 16,
        stage.first_column + stage.n_cols <= columns@.len(),
        stage.destination_log <= 31,
        i < pow2(stage.destination_log as nat),
        forall|j: int|
            0 <= j < stage.n_cols ==> 1 <= #[trigger] stage.column_logs@[j]
                <= stage.destination_log && columns@[stage.first_column + j]@.len() == pow2(
                stage.column_logs@[j] as nat,
            ),
    ensures
        forall|j: int|
            0 <= j < 16 ==> #[trigger] m@[j] == if j < stage.n_cols {
                lifted_value(
                    columns@[stage.first_column + j]@,
                    i as int,
                    stage.destination_log as nat,
                ).0
            } else {
                0
            },
{
    let total = columns.len();
    let mut m: [u32; 16] = [0; 16];
    let mut j: usize = 0;
    while j < stage.n_cols as usize
        invariant
            total == columns@.len(),
            stage.first_column + stage.n_cols <= total,
            j <= stage.n_cols <= 16,
            stage.first_column + stage.n_cols <= columns@.len(),
            stage.destination_log <= 31,
            i < pow2(stage.destination_log as nat),
            forall|j: int|
                0 <= j < stage.n_cols ==> 1 <= #[trigger] stage.column_logs@[j]
                    <= stage.destination_log && columns@[stage.first_column + j]@.len() == pow2(
                    stage.column_logs@[j] as nat,
                ),
            forall|b: int|
                0 <= b < j ==> #[trigger] m@[b] == lifted_value(
                    columns@[stage.first_column + b]@,
                    i as int,
                    stage.destination_log as nat,
                ).0,
            forall|b: int| j <= b < 16 ==> #[trigger] m@[b] == 0,
        decreases stage.n_cols - j,
    {
        let log = stage.column_logs[j];
        let column = columns[stage.first_column as usize + j];
        let at = lifted_index(i, stage.destination_log - log);
        proof {
            assert(1 <= stage.column_logs@[j as int] <= stage.destination_log);
            lemma_log_of(column@.len(), log as nat);
            lemma_lifted_row(i as int, stage.destination_log as nat, log as nat);
        }
        m[j] = column[at].0;
        j += 1;
    }
    m
}

/// One pass: lifts the states and absorbs the next columns into them.
fn absorb_stage(
    columns: &Vec<&Vec<M31>>,
    stage: &CompactStage,
    source: &Vec<[u32; 8]>,
    Ghost(lens): Ghost<Seq<usize>>,
    Ghost(logs): Ghost<Seq<u32>>,
    Ghost(lifting_log): Ghost<u32>,
    Ghost(k): Ghost<int>,
) -> (r: Vec<[u32; 8]>)
    requires
        compact_layout(lens, logs, lifting_log),
        columns@.len() == lens.len(),
        forall|c: int| 0 <= c < lens.len() ==> (#[trigger] columns@[c])@.len() == lens[c],
        0 <= k < chunk_count(logs.len()),
        is_stage(*stage, logs, lifting_log, k),
        k > 0 ==> states_after(source@, columns@, logs, lifting_log, k - 1),
    ensures
        states_after(r@, columns@, logs, lifting_log, k),
{
    let d = stage.destination_log;
    let n_rows = stage.n_rows as usize;
    let first = stage.mode == 1 || stage.mode == 3;
    let last = stage.mode == 2 || stage.mode == 3;
    let ghost n = logs.len();
    let ghost end = chunk_end(n, k);
    let t: u64 = (stage.first_column as u64 + stage.n_cols as u64) * 4;
    assert(first == (k == 0));
    assert(last == (k + 1 == chunk_count(n)));
    assert(t == 4 * end);
    proof {
        assert(stage_log(logs, lifting_log, k) <= lifting_log);
        assert forall|c: int| 0 <= c < end implies log_of((#[trigger] columns@[c])@.len())
            == logs[c] && logs[c] <= d by {
            assert(lens[c] == pow2(logs[c] as nat));
            lemma_log_of(columns@[c]@.len(), logs[c] as nat);
        }
        assert forall|j: int| 0 <= j < stage.n_cols implies 1 <= #[trigger] stage.column_logs@[j]
            <= stage.destination_log && columns@[stage.first_column + j]@.len() == pow2(
            stage.column_logs@[j] as nat,
        ) by {
            assert(lens[16 * k + j] == pow2(logs[16 * k + j] as nat));
            assert(columns@[16 * k + j]@.len() == lens[16 * k + j]);
        }
    }
    let mut r: Vec<[u32; 8]> = Vec::new();
    let mut i: usize = 0;
    while i < n_rows
        invariant
            i <= n_rows == pow2(d as nat),
            d == stage.destination_log,
            d == stage_log(logs, lifting_log, k),
            d <= lifting_log < 32,
            n == logs.len() == columns@.len(),
            n <= u32::MAX / 4,
            end == chunk_end(n, k),
            0 <= k < chunk_count(n),
            is_stage(*stage, logs, lifting_log, k),
            first == (k == 0),
            last == (k + 1 == chunk_count(n)),
            t == 4 * end,
            compact_layout(lens, logs, lifting_log),
            k > 0 ==> states_after(source@, columns@, logs, lifting_log, k - 1),
            forall|c: int|
                0 <= c < end ==> log_of((#[trigger] columns@[c])@.len()) == logs[c] && logs[c]
                    <= d,
            forall|j: int|
                0 <= j < stage.n_cols ==> 1 <= #[trigger] stage.column_logs@[j]
                    <= stage.destination_log && columns@[stage.first_column + j]@.len() == pow2(
                    stage.column_logs@[j] as nat,
                ),
            r@.len() == i,
            forall|b: int|
                0 <= b < i ==> (#[trigger] r@[b])@ == if k + 1 == chunk_count(n) {
                    blake2s_s(lifted_words(columns@, b, d as nat, n))
                } else {
                    chain_s(
                        lifted_words(columns@, b, d as nat, (16 * (k + 1)) as nat),
                        (k + 1) as nat,
                    )
                },
        decreases n_rows - i,
    {
        let ghost words = lifted_words(columns@, i as int, d as nat, end as nat);
        let m = row_block(columns, stage, i);
        let h = if first {
            initial()
        } else {
            proof {
                let small = stage_log(logs, lifting_log, k - 1);
                assert(small == logs[16 * k - 1]);
                assert(small <= logs[end - 1]);
                assert(logs[16 * k - 1] >= 1);
                lemma_lifted_row(i as int, d as nat, small as nat);
            }
            source[lifted_index(i, d - stage.source_state_log)]
        };
        proof {
            if k > 0 {
                let small = stage_log(logs, lifting_log, k - 1) as nat;
                let low = lifted_row(i as int, (d - small) as nat);
                assert forall|c: int| 0 <= c < 16 * k implies log_of((#[trigger] columns@[c])@.len())
                    <= small by {
                    assert(logs[c] <= logs[16 * k - 1]);
                }
                lemma_words_lifted(columns@, i as int, small, d as nat, (16 * k) as nat);
                let short = lifted_words(columns@, i as int, d as nat, (16 * k) as nat);
                assert(source@[low]@ == chain_s(short, k as nat));
                assert(words.take(16 * k) =~= short.take(16 * k));
                lemma_chain_prefix(words, short, k as nat);
            }
            assert(h@ == chain_s(words, k as nat));
        }
        let state = compress(&h, &m, t, last);
        proof {
            if last {
                assert(end == n);
                assert(blocks_before_last(n) == k);
                assert(m@ =~= padded_block(words.skip(16 * k)));
                assert(bytes_of(n as int) == t);
                assert(state@ == blake2s_s(words));
            } else {
                assert(end == 16 * (k + 1));
                assert(m@ =~= words.subrange(16 * k, 16 * (k + 1)));
                assert(bytes_of(16 * (k + 1)) == t);
                assert(state@ == chain_s(words, (k + 1) as nat));
            }
        }
        r.push(state);
        i += 1;
    }
    r
}

/// The leaves of columns in order of their sizes, absorbed in passes: those of the tree.
pub fn compact_leaves<const IS_M31_OUTPUT: bool>(
    columns: &Vec<&Vec<M31>>,
    logs: &Vec<u32>,
    lifting_log: u32,
) -> (r: Option<Vec<Blake2sHash>>)
    ensures
        r is Some <==> compact_layout(
            Seq::new(columns@.len(), |c: int| columns@[c].len()),
            logs@,
            lifting_log,
        ),
        match r {
            Some(leaves) => leaves@ == leaves_s::<Blake2sMerkleHasherGeneric<IS_M31_OUTPUT>>(
                columns@,
                lifting_log as nat,
            ),
            None => true,
        },
{
    let ghost target = Seq::new(columns@.len(), |c: int| columns@[c].len());
    let mut lens: Vec<usize> = Vec::new();
    let mut c: usize = 0;
    while c < columns.len()
        invariant
            c <= columns@.len(),
            target == Seq::new(columns@.len(), |c: int| columns@[c].len()),
            lens@ == target.take(c as int),
        decreases columns@.len() - c,
    {
        lens.push(columns[c].len());
        c += 1;
        assert(lens@ =~= target.take(c as int));
    }
    assert(lens@ =~= target);
    let stages = match plan_compact(&lens, logs, lifting_log) {
        Some(stages) => stages,
        None => {
            return None;
        },
    };
    let n_stages = stages.len();
    let mut states: Vec<[u32; 8]> = Vec::new();
    let mut k: usize = 0;
    while k < n_stages
        invariant
            k <= n_stages == stages@.len(),
            n_stages == chunk_count(logs@.len()),
            compact_layout(lens@, logs@, lifting_log),
            columns@.len() == lens@.len(),
            forall|c: int| 0 <= c < lens@.len() ==> (#[trigger] columns@[c])@.len() == lens@[c],
            forall|j: int|
                0 <= j < n_stages ==> is_stage(#[trigger] stages@[j], logs@, lifting_log, j),
            k > 0 ==> states_after(states@, columns@, logs@, lifting_log, k - 1),
        decreases n_stages - k,
    {
        states =
        absorb_stage(
            columns,
            &stages[k],
            &states,
            Ghost(lens@),
            Ghost(logs@),
            Ghost(lifting_log),
            Ghost(k as int),
        );
        k += 1;
    }
    let mut leaves: Vec<Blake2sHash> = Vec::new();
    let ghost wanted = leaves_s::<Blake2sMerkleHasherGeneric<IS_M31_OUTPUT>>(
        columns@,
        lifting_log as nat,
    );
    let n_rows = states.len();
    let mut i: usize = 0;
    proof {
        lemma_pow2_pos(lifting_log as nat);
        lemma_leaf_words::<IS_M31_OUTPUT>(columns@, lifting_log as nat, 0);
    }
    while i < n_rows
        invariant
            i <= n_rows == states@.len(),
            n_rows == pow2(lifting_log as nat),
            columns@.len() > 0,
            columns@.len() == logs@.len(),
            states_after(states@, columns@, logs@, lifting_log, n_stages - 1),
            n_stages == chunk_count(logs@.len()),
            wanted == leaves_s::<Blake2sMerkleHasherGeneric<IS_M31_OUTPUT>>(
                columns@,
                lifting_log as nat,
            ),
            wanted.len() == n_rows,
            leaves@ == wanted.take(i as int),
        decreases n_rows - i,
    {
        let leaf = output(&states[i], IS_M31_OUTPUT);
        proof {
            lemma_leaf_words::<IS_M31_OUTPUT>(columns@, lifting_log as nat, i as int);
            lemma_hash_with(leaf);
        }
        leaves.push(leaf);
        i += 1;
        assert(leaves@ =~= wanted.take(i as int));
    }
    assert(leaves@ =~= wanted);
    Some(leaves)
}

/// The parameters of a pass over columns of one size.
#[derive(Clone, Copy, Debug, PartialEq, Eq, Structural)]
pub struct AbsorbParams {
    pub n_rows: u32,
    pub n_cols: u32,
    /// The bytes absorbed before this pass.
    pub byte_count_base: u32,
    /// Bit 0 marks the first pass, bit 1 the last.
    pub mode: u32,
    pub is_m31_output: u32,
}

pub open spec fn absorb_params_s(n_rows: u32, n_cols: nat, is_m31: bool, k: int) -> AbsorbParams {
    AbsorbParams {
        n_rows,
        n_cols: (chunk_end(n_cols, k) - 16 * k) as u32,
        byte_count_base: (64 * k) as u32,
        mode: ((if k == 0 {
            1int
        } else {
            0
        }) + (if k + 1 == chunk_count(n_cols) {
            2int
        } else {
            0
        })) as u32,
        is_m31_output: if is_m31 {
            1
        } else {
            0
        },
    }
}

/// The passes over columns of one size.
pub fn absorb_plan(n_rows: u32, n_cols: usize, is_m31: bool) -> (r: Vec<AbsorbParams>)
    requires
        0 < n_cols <= u32::MAX / 4,
    ensures
        r@ == Seq::new(
            chunk_count(n_cols as nat),
            |k: int| absorb_params_s(n_rows, n_cols as nat, is_m31, k),
        ),
{
    let n_chunks = (n_cols - 1) / 16 + 1;
    let ghost target = Seq::new(
        chunk_count(n_cols as nat),
        |k: int| absorb_params_s(n_rows, n_cols as nat, is_m31, k),
    );
    let mut r: Vec<AbsorbParams> = Vec::new();
    let mut k: usize = 0;
    while k < n_chunks
        invariant
            k <= n_chunks == chunk_count(n_cols as nat),
            0 < n_cols <= u32::MAX / 4,
            target == Seq::new(
                chunk_count(n_cols as nat),
                |k: int| absorb_params_s(n_rows, n_cols as nat, is_m31, k),
            ),
            r@ == target.take(k as int),
        decreases n_chunks - k,
    {
        let first = 16 * k;
        let end = if n_cols - first >= 16 {
            first + 16
        } else {
            n_cols
        };
        r.push(
            AbsorbParams {
                n_rows,
                n_cols: (end - first) as u32,
                byte_count_base: (first * 4) as u32,
                mode: (if k == 0 {
                    1
                } else {
                    0
                }) + (if k + 1 == n_chunks {
                    2
                } else {
                    0
                }),
                is_m31_output: if is_m31 {
                    1
                } else {
                    0
                },
            },
        );
        k += 1;
        assert(r@ =~= target.take(k as int));
    }
    assert(r@ =~= target);
    r
}

/// The leaves of columns of one size, or nothing where the sizes differ.
pub fn build_leaves_metal<const IS_M31_OUTPUT: bool>(columns: &Vec<&Vec<M31>>, log_rows: u32) -> (r:
    Option<Vec<Blake2sHash>>)
    requires
        0 < columns@.len() <= u32::MAX / 4,
        1 <= log_rows <= 31,
        columns@[0]@.len() == pow2(log_rows as nat),
    ensures
        r is None <==> exists|c: int|
            0 <= c < columns@.len() && (#[trigger] columns@[c])@.len() != columns@[0]@.len(),
        match r {
            Some(leaves) => leaves@ == leaves_s::<Blake2sMerkleHasherGeneric<IS_M31_OUTPUT>>(
                columns@,
                log_rows as nat,
            ),
            None => true,
        },
{
    let n_rows = columns[0].len();
    let mut c: usize = 0;
    while c < columns.len()
        invariant
            c <= columns@.len(),
            columns@.len() > 0,
            n_rows == columns@[0]@.len(),
            forall|b: int| 0 <= b < c ==> (#[trigger] columns@[b])@.len() == n_rows,
        decreases columns@.len() - c,
    {
        if columns[c].len() != n_rows {
            assert(columns@[c as int]@.len() != columns@[0]@.len());
            return None;
        }
        c += 1;
    }
    let mut logs: Vec<u32> = Vec::with_capacity(columns.len());
    for k in 0..columns.len()
        invariant
            logs@.len() == k,
            forall|j: int| 0 <= j < k ==> #[trigger] logs@[j] == log_rows,
    {
        logs.push(log_rows);
    }
    let ghost lens = Seq::new(columns@.len(), |c: int| columns@[c].len());
    proof {
        assert forall|c: int| 0 <= c < logs@.len() implies #[trigger] lens[c] == pow2(
            logs@[c] as nat,
        ) by {
            assert(columns@[c]@.len() == n_rows);
        }
        assert(compact_layout(lens, logs@, log_rows));
    }
    compact_leaves::<IS_M31_OUTPUT>(columns, &logs, log_rows)
}

/// The layer above, where it is large enough for a pass.
pub fn build_next_layer_metal<const IS_M31_OUTPUT: bool>(prev_layer: &Vec<Blake2sHash>) -> (r:
    Option<Vec<Blake2sHash>>)
    ensures
        r is Some <==> prev_layer@.len() / 2 >= pow2(17),
        match r {
            Some(layer) => layer@ == next_layer_s::<Blake2sMerkleHasherGeneric<IS_M31_OUTPUT>>(
                prev_layer@,
            ),
            None => true,
        },
{
    let n_out = prev_layer.len() / 2;
    if n_out < pow2_usize(MIN_METAL_LOG_SIZE) {
        return None;
    }
    Some(hash_pairs::<Blake2sMerkleHasherGeneric<IS_M31_OUTPUT>>(prev_layer, n_out))
}

/// The `k`-th layer above `n` leaves is large enough for a pass.
pub open spec fn is_large_layer(n: nat, k: nat) -> bool {
    n / pow2(k) >= pow2(17)
}

/// The sizes of the layers above `n` leaves that are built in passes: as long as they are large
/// enough, and no more than `limit`.
pub fn layer_sizes(n: usize, limit: usize) -> (r: Vec<usize>)
    ensures
        r@.len() <= limit,
        forall|k: int| 0 <= k < r@.len() ==> #[trigger] r@[k] == n as nat / pow2((k + 1) as nat),
        forall|k: int|
            0 <= k < r@.len() ==> is_large_layer(n as nat, #[trigger] ((k + 1) as nat)),
        r@.len() < limit ==> !is_large_layer(n as nat, r@.len() + 1),
{
    let least = pow2_usize(MIN_METAL_LOG_SIZE);
    let mut sizes: Vec<usize> = Vec::new();
    let mut m = n / 2;
    proof {
        lemma2_to64();
    }
    while m >= least && sizes.len() < limit
        invariant
            least == pow2(17),
            sizes@.len() <= limit,
            m == n as nat / pow2((sizes@.len() + 1) as nat),
            forall|k: int|
                0 <= k < sizes@.len() ==> #[trigger] sizes@[k] == n as nat / pow2((k + 1) as nat),
            forall|k: int|
                0 <= k < sizes@.len() ==> is_large_layer(n as nat, #[trigger] ((k + 1) as nat)),
        decreases m,
    {
        proof {
            let k = sizes@.len() + 1;
            crate::utils::lemma_pow2_double((k + 1) as nat);
            lemma_pow2_pos(k);
            lemma_pow2_pos(17);
            vstd::arithmetic::div_mod::lemma_div_denominator(n as int, pow2(k) as int, 2);
            assert(pow2(k) * 2 == pow2(k + 1));
        }
        sizes.push(m);
        m = m / 2;
    }
    sizes
}

/// The leaves and the layers above them that are built in passes, at most `n_layers`; the leaves
/// alone go back where there is no such layer.
pub fn build_layers_metal<const IS_M31_OUTPUT: bool>(
    leaves: Vec<Blake2sHash>,
    n_layers: u32,
) -> (r: Result<Vec<Vec<Blake2sHash>>, Vec<Blake2sHash>>)
    ensures
        r is Err <==> leaves@.len() / 2 < pow2(17),
        match r {
            Err(same) => same == leaves,
            Ok(layers) => {
                &&& 1 <= layers@.len() <= n_layers + 1
                &&& forall|k: int|
                    0 <= k < layers@.len() ==> (#[trigger] layers@[k])@ == layer_above::<
                        Blake2sMerkleHasherGeneric<IS_M31_OUTPUT>,
                    >(leaves@, k as nat)
                &&& forall|k: int|
                    1 <= k < layers@.len() ==> is_large_layer(leaves@.len(), #[trigger] (k as nat))
                &&& layers@.len() < n_layers + 1 ==> !is_large_layer(
                    leaves@.len(),
                    layers@.len(),
                )
            },
        },
{
    let n = leaves.len();
    if n / 2 < pow2_usize(MIN_METAL_LOG_SIZE) {
        return Err(leaves);
    }
    Ok(large_layers::<IS_M31_OUTPUT>(leaves, n_layers as usize))
}

fn large_layers<const IS_M31_OUTPUT: bool>(leaves: Vec<Blake2sHash>, limit: usize) -> (r: Vec<
    Vec<Blake2sHash>,
>)
    ensures
        1 <= r@.len() <= limit + 1,
        forall|k: int|
            0 <= k < r@.len() ==> (#[trigger] r@[k])@ == layer_above::<
                Blake2sMerkleHasherGeneric<IS_M31_OUTPUT>,
            >(leaves@, k as nat),
        forall|k: int| 1 <= k < r@.len() ==> is_large_layer(leaves@.len(), #[trigger] (k as nat)),
        r@.len() < limit + 1 ==> !is_large_layer(leaves@.len(), r@.len()),
{
    let ghost first = leaves@;
    let sizes = layer_sizes(leaves.len(), limit);
    let n_levels = sizes.len();
    let mut layers: Vec<Vec<Blake2sHash>> = Vec::new();
    layers.push(leaves);
    let mut k: usize = 0;
    while k < n_levels
        invariant
            k <= n_levels,
            layers@.len() == k + 1,
            forall|j: int|
                0 <= j < layers@.len() ==> (#[trigger] layers@[j])@ == layer_above::<
                    Blake2sMerkleHasherGeneric<IS_M31_OUTPUT>,
                >(first, j as nat),
        decreases n_levels - k,
    {
        assert(layers@[k as int]@ == layer_above::<Blake2sMerkleHasherGeneric<IS_M31_OUTPUT>>(
            first,
            k as nat,
        ));
        let half: usize = layers[k].len() / 2;
        let next = hash_pairs::<Blake2sMerkleHasherGeneric<IS_M31_OUTPUT>>(&layers[k], half);
        layers.push(next);
        k += 1;
    }
    proof {
        assert forall|j: int| 1 <= j < layers@.len() implies is_large_layer(
            first.len(),
            #[trigger] (j as nat),
        ) by {
            assert(is_large_layer(first.len(), ((j - 1) + 1) as nat));
        }
    }
    layers
}

/// `layers` are the leaves and all the layers above them that are large enough for a pass.
pub open spec fn is_large_tree<const IS_M31_OUTPUT: bool>(
    layers: Seq<Vec<Blake2sHash>>,
    leaves: Seq<Blake2sHash>,
) -> bool {
    &&& layers.len() >= 1
    &&& forall|k: int|
        0 <= k < layers.len() ==> (#[trigger] layers[k])@ == layer_above::<
            Blake2sMerkleHasherGeneric<IS_M31_OUTPUT>,
        >(leaves, k as nat)
    &&& forall|k: int|
        1 <= k < layers.len() ==> is_large_layer(leaves.len(), #[trigger] (k as nat))
    &&& !is_large_layer(leaves.len(), layers.len())
}

/// The leaves and all the large layers above them.
fn large_tree<const IS_M31_OUTPUT: bool>(leaves: Vec<Blake2sHash>) -> (r: Vec<Vec<Blake2sHash>>)
    ensures
        is_large_tree::<IS_M31_OUTPUT>(r@, leaves@),
{
    let n: usize = leaves.len();
    let ghost first = leaves@;
    let layers = large_layers::<IS_M31_OUTPUT>(leaves, 64);
    proof {
        if layers@.len() == 65 {
            lemma2_to64();
            lemma_pow2_pos(17);
            assert(n < pow2(64)) by {
                assert(pow2(64) == 0x10000000000000000) by {
                    vstd::arithmetic::power2::lemma2_to64_rest();
                }
            }
            let top = layers@.len() - 1;
            assert(is_large_layer(first.len(), top as nat));
            vstd::arithmetic::div_mod::lemma_basic_div(n as int, pow2(64) as int);
        }
    }
    layers
}

/// The leaves of columns as long as the tree is wide, and the large layers above them.
pub fn encode_tree<const IS_M31_OUTPUT: bool>(columns: &Vec<&Vec<M31>>, lifting_log: u32) -> (r:
    Vec<Vec<Blake2sHash>>)
    requires
        columns@.len() > 0,
        1 <= lifting_log <= 31,
        forall|c: int|
            0 <= c < columns@.len() ==> (#[trigger] columns@[c])@.len() == pow2(lifting_log as nat),
    ensures
        is_large_tree::<IS_M31_OUTPUT>(
            r@,
            leaves_s::<Blake2sMerkleHasherGeneric<IS_M31_OUTPUT>>(columns@, lifting_log as nat),
        ),
{
    proof {
        lemma_log_of(pow2(lifting_log as nat), lifting_log as nat);
        assert(columns_fit(columns@, lifting_log as nat));
    }
    let leaves = build_leaves::<Blake2sMerkleHasherGeneric<IS_M31_OUTPUT>>(columns, lifting_log);
    large_tree::<IS_M31_OUTPUT>(leaves)
}

/// The leaves of columns in order of their sizes, and the large layers above them. Columns that
/// are not laid out so are declined.
pub fn encode_tree_compact<const IS_M31_OUTPUT: bool>(
    columns: &Vec<&Vec<M31>>,
    column_logs: &Vec<u32>,
    lifting_log: u32,
) -> (r: Option<Vec<Vec<Blake2sHash>>>)
    ensures
        r is Some <==> compact_layout(
            Seq::new(columns@.len(), |c: int| columns@[c].len()),
            column_logs@,
            lifting_log,
        ),
        match r {
            Some(layers) => is_large_tree::<IS_M31_OUTPUT>(
                layers@,
                leaves_s::<Blake2sMerkleHasherGeneric<IS_M31_OUTPUT>>(
                    columns@,
                    lifting_log as nat,
                ),
            ),
            None => true,
        },
{
    match compact_leaves::<IS_M31_OUTPUT>(columns, column_logs, lifting_log) {
        Some(leaves) => Some(large_tree::<IS_M31_OUTPUT>(leaves)),
        None => None,
    }
}

/// The leaves of packed columns and the layers above them that are built in passes, where there
/// are leaves enough: each leaf takes four rows of the four coordinates.
pub fn build_packed_tree_metal<const IS_M31_OUTPUT: bool>(coords: &[Vec<M31>; 4], log_leaves: u32)
    -> (r: Option<Vec<Vec<Blake2sHash>>>)
    requires
        1 <= log_leaves <= 29,
        forall|k: int|
            0 <= k < 4 ==> (#[trigger] coords@[k])@.len() == 4 * pow2(log_leaves as nat),
    ensures
        r is Some <==> pow2(log_leaves as nat) >= pow2(17),
        match r {
            Some(layers) => layers@.len() > 0 && is_packed_leaves::<IS_M31_OUTPUT>(
                coords,
                log_leaves as nat,
                layers@[0]@,
            ) && is_large_tree::<IS_M31_OUTPUT>(layers@, layers@[0]@),
            None => true,
        },
{
    let n_leaves = pow2_usize(log_leaves);
    if n_leaves < pow2_usize(MIN_METAL_LOG_SIZE) {
        return None;
    }
    proof {
        assert(coords@[0]@.len() == 4 * pow2(log_leaves as nat));
        assert forall|k: int| 0 <= k < 4 implies (#[trigger] coords@[k])@.len()
            == coords@[0]@.len() by {}
    }
    let packed = pack_leaves_input(coords);
    let mut columns: Vec<&Vec<M31>> = Vec::new();
    let mut c: usize = 0;
    while c < 16
        invariant
            c <= 16 == packed@.len(),
            columns@ == Seq::new(16, |c: int| &packed@[c]).take(c as int),
        decreases 16 - c,
    {
        columns.push(&packed[c]);
        c += 1;
        assert(columns@ =~= Seq::new(16, |c: int| &packed@[c]).take(c as int));
    }
    proof {
        assert(columns@ =~= Seq::new(16, |c: int| &packed@[c]));
        lemma_log_of(pow2(log_leaves as nat), log_leaves as nat);
        assert forall|c: int| 0 <= c < 16 implies (#[trigger] columns@[c])@.len() == pow2(
            log_leaves as nat,
        ) by {
            assert(packed@[c]@.len() == coords@[0]@.len() / 4);
        }
        assert(columns_fit(columns@, log_leaves as nat));
    }
    let leaves = build_leaves::<Blake2sMerkleHasherGeneric<IS_M31_OUTPUT>>(&columns, log_leaves);
    proof {
        assert forall|i: int| 0 <= i < pow2(log_leaves as nat) implies #[trigger] leaves@[i]
            == hash_with(output_s(blake2s_s(packed_words(coords, i)), IS_M31_OUTPUT)) by {
            lemma_leaf_words::<IS_M31_OUTPUT>(columns@, log_leaves as nat, i);
            let words = lifted_words(columns@, i, log_leaves as nat, 16);
            assert forall|c: int| 0 <= c < 16 implies words[c] == packed_words(coords, i)[c] by {
                assert(packed@[c]@.len() == pow2(log_leaves as nat));
                lemma_log_of(columns@[c]@.len(), log_leaves as nat);
                lemma_lifted_none(i);
                assert(columns@[c]@[i] == coords@[c % 4]@[4 * i + c / 4]);
            }
            assert(words =~= packed_words(coords, i));
        }
        lemma_pow2_pos(log_leaves as nat);
        lemma_leaf_words::<IS_M31_OUTPUT>(columns@, log_leaves as nat, 0);
    }
    let layers = large_tree::<IS_M31_OUTPUT>(leaves);
    assert(layers@[0]@ == leaves@);
    Some(layers)
}

/// The sixteen words of a packed leaf.
pub open spec fn packed_words(coords: &[Vec<M31>; 4], i: int) -> Seq<u32> {
    Seq::new(16, |c: int| coords@[c % 4]@[4 * i + c / 4].0)
}

/// The leaves of packed columns.
pub open spec fn is_packed_leaves<const IS_M31_OUTPUT: bool>(
    coords: &[Vec<M31>; 4],
    log_leaves: nat,
    leaves: Seq<Blake2sHash>,
) -> bool {
    &&& leaves.len() == pow2(log_leaves)
    &&& forall|i: int|
        0 <= i < pow2(log_leaves) ==> #[trigger] leaves[i] == hash_with(
            output_s(blake2s_s(packed_words(coords, i)), IS_M31_OUTPUT),
        )
}

} // verus!
