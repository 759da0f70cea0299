//! Lifted Merkle trees over columns of different sizes.
//!
//! Columns are read as evaluations in bit-reversed order, and lifted to the size of the tree: row
//! `i` of the tree takes from a column `2^r` times smaller its row `2 (i / 2^(r+1)) + i % 2`.

use vstd::arithmetic::power2::{lemma2_to64, lemma_pow2_pos, pow2};
use vstd::prelude::*;

use super::hasher::MerkleHasherLifted;
use crate::fields::m31::M31;
use crate::utils::{
    floor_log, ilog2, is_pow2, lemma_floor_log, lemma_lifted_none, lemma_lifted_row, lemma_lifted_twice, lemma_log_of,
    lemma_log_unique, lemma_pow2_bound, lemma_pow2_double, lemma_pow2_le, lifted_row, log_of, pow2_usize,
};

verus! {

/// Values absorbed at once.
pub const ABSORB_WIDTH: usize = 16;

/// Whether columns can be committed: powers of two of at least two rows, the short ones first, and
/// none larger than the tree.
pub open spec fn columns_fit(columns: Seq<&Vec<M31>>, lifting_log_size: nat) -> bool {
    &&& forall|k: int|
        0 <= k < columns.len() ==> is_pow2((#[trigger] columns[k])@.len()) && 1 <= log_of(
            columns[k]@.len(),
        ) <= lifting_log_size
    &&& forall|j: int, k: int|
        0 <= j <= k < columns.len() ==> (#[trigger] columns[j])@.len() <= (
        #[trigger] columns[k])@.len()
}

/// The length of the run of columns of one size that starts at `start`, counted up to `limit`.
pub open spec fn run_length(columns: Seq<&Vec<M31>>, start: int, limit: nat) -> nat
    decreases limit,
{
    if limit == 0 || start + limit > columns.len() {
        if limit == 0 {
            0
        } else {
            run_length(columns, start, (limit - 1) as nat)
        }
    } else if run_length(columns, start, (limit - 1) as nat) == limit - 1 && columns[start + limit
        - 1]@.len() == columns[start]@.len() {
        limit
    } else {
        run_length(columns, start, (limit - 1) as nat)
    }
}

/// Where the piece that starts at `start` ends: after sixteen columns, or where the size changes.
pub open spec fn piece_end(columns: Seq<&Vec<M31>>, start: int) -> int {
    start + run_length(columns, start, ABSORB_WIDTH as nat)
}

/// The start of the `k`-th piece.
pub open spec fn piece_start(columns: Seq<&Vec<M31>>, k: nat) -> int
    decreases k,
{
    if k == 0 {
        0
    } else {
        piece_end(columns, piece_start(columns, (k - 1) as nat))
    }
}

/// The number of pieces from `start` on.
pub open spec fn pieces_from(columns: Seq<&Vec<M31>>, start: int) -> nat
    decreases columns.len() - start,
{
    if start >= columns.len() || piece_end(columns, start) <= start || piece_end(columns, start)
        > columns.len() {
        0
    } else {
        1 + pieces_from(columns, piece_end(columns, start))
    }
}

/// The value that row `i` of a tree takes from a column.
pub open spec fn lifted_value(column: Seq<M31>, i: int, log_size: nat) -> M31 {
    column[lifted_row(i, (log_size - log_of(column.len())) as nat)]
}

/// The values that row `i` takes from the columns from `start` to `end`.
pub open spec fn piece_values(
    columns: Seq<&Vec<M31>>,
    start: int,
    end: int,
    i: int,
    log_size: nat,
) -> Seq<M31> {
    Seq::new(
        (end - start) as nat,
        |j: int| lifted_value(columns[start + j]@, i, log_size),
    )
}

/// What row `i` absorbs from the first `k` pieces.
pub open spec fn row_pieces(columns: Seq<&Vec<M31>>, i: int, log_size: nat, k: nat) -> Seq<
    Seq<M31>,
>
    decreases k,
{
    if k == 0 {
        Seq::empty()
    } else {
        row_pieces(columns, i, log_size, (k - 1) as nat).push(
            piece_values(
                columns,
                piece_start(columns, (k - 1) as nat),
                piece_start(columns, k),
                i,
                log_size,
            ),
        )
    }
}

/// The leaves of the tree.
pub open spec fn leaves_s<H: MerkleHasherLifted>(
    columns: Seq<&Vec<M31>>,
    lifting_log_size: nat,
) -> Seq<H::Hash> {
    if columns.len() == 0 {
        seq![H::leaf_hash(Seq::empty())]
    } else {
        Seq::new(
            pow2(lifting_log_size),
            |i: int|
                H::leaf_hash(row_pieces(columns, i, lifting_log_size, pieces_from(columns, 0))),
        )
    }
}

pub proof fn lemma_run_length(columns: Seq<&Vec<M31>>, start: int, limit: nat)
    requires
        0 <= start <= columns.len(),
    ensures
        run_length(columns, start, limit) <= limit,
        start + run_length(columns, start, limit) <= columns.len(),
        forall|j: int|
            start <= j < start + run_length(columns, start, limit) ==> (
            #[trigger] columns[j])@.len() == columns[start]@.len(),
        start < columns.len() && limit >= 1 ==> run_length(columns, start, limit) >= 1,
    decreases limit,
{
    if limit > 0 {
        lemma_run_length(columns, start, (limit - 1) as nat);
    }
}

/// A run that ended stays ended.
proof fn lemma_run_stops(columns: Seq<&Vec<M31>>, start: int, n: nat, limit: nat)
    requires
        0 <= start,
        n <= limit,
        run_length(columns, start, n) == n,
        start + n == columns.len() || (start + n < columns.len() && columns[start + n]@.len()
            != columns[start]@.len()) || n == limit,
    ensures
        run_length(columns, start, limit) == n,
    decreases limit - n,
{
    if n < limit {
        if limit - 1 >= n {
            lemma_run_stops_below(columns, start, n, limit);
        }
    }
}

proof fn lemma_run_stops_below(columns: Seq<&Vec<M31>>, start: int, n: nat, limit: nat)
    requires
        0 <= start,
        n < limit,
        run_length(columns, start, n) == n,
        start + n == columns.len() || (start + n < columns.len() && columns[start + n]@.len()
            != columns[start]@.len()),
    ensures
        run_length(columns, start, limit) == n,
    decreases limit,
{
    if limit > n + 1 {
        lemma_run_stops_below(columns, start, n, (limit - 1) as nat);
    }
}

/// Where the piece that starts at `start` ends.
fn find_piece_end(columns: &Vec<&Vec<M31>>, start: usize) -> (r: usize)
    requires
        start < columns.len(),
    ensures
        r == piece_end(columns@, start as int),
        start < r <= columns.len(),
        r - start <= ABSORB_WIDTH,
        forall|j: int| start <= j < r ==> (#[trigger] columns@[j])@.len() == columns@[start as int]@.len(),
{
    let len: usize = columns[start].len();
    let total: usize = columns.len();
    let mut n: usize = 1;
    assert(run_length(columns@, start as int, 0) == 0);
    assert(run_length(columns@, start as int, 1) == 1);
    while n < ABSORB_WIDTH && n < total - start && columns[start + n].len() == len
        invariant
            1 <= n <= ABSORB_WIDTH,
            n <= total - start,
            total == columns.len(),
            start < total,
            len == columns@[start as int]@.len(),
            run_length(columns@, start as int, n as nat) == n,
        decreases ABSORB_WIDTH - n,
    {
        n = n + 1;
        assert(run_length(columns@, start as int, n as nat) == n);
    }
    proof {
        lemma_run_stops(columns@, start as int, n as nat, ABSORB_WIDTH as nat);
        lemma_run_length(columns@, start as int, ABSORB_WIDTH as nat);
    }
    start + n
}

/// A row of a smaller tree has absorbed what its lifted rows absorb.
proof fn lemma_row_pieces_lifted(columns: Seq<&Vec<M31>>, i: int, small: nat, large: nat, k: nat)
    requires
        small <= large,
        0 <= i,
        piece_start(columns, k) <= columns.len(),
        forall|m: nat| m <= k ==> 0 <= #[trigger] piece_start(columns, m) <= columns.len(),
        forall|j: int|
            0 <= j < piece_start(columns, k) ==> log_of((#[trigger] columns[j])@.len()) <= small,
        forall|m: nat, n: nat|
            m <= n <= k ==> #[trigger] piece_start(columns, m) <= #[trigger] piece_start(
                columns,
                n,
            ),
    ensures
        row_pieces(columns, lifted_row(i, (large - small) as nat), small, k) == row_pieces(
            columns,
            i,
            large,
            k,
        ),
    decreases k,
{
    if k > 0 {
        let k1 = (k - 1) as nat;
        assert(piece_start(columns, k1) <= piece_start(columns, k));
        lemma_row_pieces_lifted(columns, i, small, large, k1);
        let a = piece_start(columns, k1);
        let b = piece_start(columns, k);
        let low = lifted_row(i, (large - small) as nat);
        assert(piece_values(columns, a, b, low, small) =~= piece_values(columns, a, b, i, large))
            by {
            assert forall|j: int| 0 <= j < b - a implies #[trigger] piece_values(
                columns,
                a,
                b,
                low,
                small,
            )[j] == piece_values(columns, a, b, i, large)[j] by {
                let l = log_of(columns[a + j]@.len());
                assert(l <= small);
                lemma_lifted_twice(i, (large - small) as nat, (small - l) as nat);
            }
        }
    }
}

/// The states of the rows of a larger layer, each taken from the row it is lifted from.
fn lift_layer<H: MerkleHasherLifted>(layer: &Vec<H>, from: u32, to: u32) -> (r: Vec<H>)
    requires
        1 <= from <= to <= 31,
        layer.len() == pow2(from as nat),
    ensures
        r.len() == pow2(to as nat),
        forall|i: int|
            0 <= i < r.len() ==> (#[trigger] r@[i]).pieces() == layer@[lifted_row(
                i,
                (to - from) as nat,
            )].pieces(),
{
    let n: usize = pow2_usize(to);
    proof {
        lemma_pow2_le((to - from) as nat, 30);
        lemma2_to64();
        lemma_pow2_pos((to - from) as nat);
    }
    let step: usize = 2 * pow2_usize(to - from);
    let mut r: Vec<H> = Vec::with_capacity(n);
    for i in 0..n
        invariant
            1 <= from <= to <= 31,
            n == pow2(to as nat),
            step == 2 * pow2((to - from) as nat),
            step > 0,
            layer.len() == pow2(from as nat),
            r.len() == i,
            forall|j: int|
                0 <= j < i ==> (#[trigger] r@[j]).pieces() == layer@[lifted_row(
                    j,
                    (to - from) as nat,
                )].pieces(),
    {
        proof {
            lemma_lifted_row(i as int, to as nat, from as nat);
        }
        let at: usize = 2 * (i / step) + i % 2;
        r.push(layer[at].duplicate());
    }
    r
}

/// Absorbs one piece into every row of a layer of the size of its columns.
fn absorb_piece<H: MerkleHasherLifted>(
    layer: &mut Vec<H>,
    columns: &Vec<&Vec<M31>>,
    start: usize,
    end: usize,
    Ghost(log_size): Ghost<nat>,
    Ghost(k): Ghost<nat>,
)
    requires
        start < end <= columns.len(),
        end - start <= ABSORB_WIDTH,
        start == piece_start(columns@, k),
        end == piece_start(columns@, k + 1),
        old(layer).len() == pow2(log_size),
        forall|j: int|
            start <= j < end ==> (#[trigger] columns@[j])@.len() == pow2(log_size),
        forall|i: int|
            0 <= i < old(layer).len() ==> (#[trigger] old(layer)@[i]).pieces() == row_pieces(
                columns@,
                i,
                log_size,
                k,
            ),
    ensures
        final(layer).len() == pow2(log_size),
        forall|i: int|
            0 <= i < final(layer).len() ==> (#[trigger] final(layer)@[i]).pieces() == row_pieces(
                columns@,
                i,
                log_size,
                k + 1,
            ),
{
    let n: usize = layer.len();
    for i in 0..n
        invariant
            n == layer.len(),
            n == pow2(log_size),
            start < end <= columns.len(),
            start == piece_start(columns@, k),
            end == piece_start(columns@, k + 1),
            forall|j: int|
                start <= j < end ==> (#[trigger] columns@[j])@.len() == pow2(log_size),
            forall|j: int|
                0 <= j < i ==> (#[trigger] layer@[j]).pieces() == row_pieces(
                    columns@,
                    j,
                    log_size,
                    k + 1,
                ),
            forall|j: int|
                i <= j < n ==> (#[trigger] layer@[j]).pieces() == row_pieces(
                    columns@,
                    j,
                    log_size,
                    k,
                ),
    {
        let mut row: Vec<M31> = Vec::with_capacity(ABSORB_WIDTH);
        for c in start..end
            invariant
                start <= c <= end,
                end <= columns.len(),
                i < n,
                n == pow2(log_size),
                forall|j: int|
                    start <= j < end ==> (#[trigger] columns@[j])@.len() == pow2(log_size),
                row.len() == c - start,
                forall|j: int|
                    0 <= j < row.len() ==> #[trigger] row@[j] == columns@[start + j]@[i as int],
        {
            assert(columns@[c as int]@.len() == pow2(log_size));
            let column = columns[c];
            row.push(column[i]);
        }
        proof {
            assert(row@ =~= piece_values(
                columns@,
                start as int,
                end as int,
                i as int,
                log_size,
            )) by {
                assert forall|j: int| 0 <= j < end - start implies #[trigger] row@[j]
                    == lifted_value(columns@[start + j]@, i as int, log_size) by {
                    lemma_log_of(columns@[start + j]@.len(), log_size);
                    lemma_lifted_none(i as int);
                }
            }
        }
        layer[i].update_leaf(row.as_slice());
    }
}

/// The hashes of the rows of all columns, lifted to the size of the tree.
pub fn build_leaves<H: MerkleHasherLifted>(columns: &Vec<&Vec<M31>>, lifting_log_size: u32) -> (r:
    Vec<H::Hash>)
    requires
        lifting_log_size <= 31,
        columns_fit(columns@, lifting_log_size as nat),
    ensures
        r@ == leaves_s::<H>(columns@, lifting_log_size as nat),
{
    let total: usize = columns.len();
    if total == 0 {
        let mut r: Vec<H::Hash> = Vec::new();
        r.push(H::fresh().finalize());
        assert(r@ =~= leaves_s::<H>(columns@, lifting_log_size as nat));
        return r;
    }
    proof {
        lemma2_to64();
        assert(columns_fit(columns@, lifting_log_size as nat));
        let len0 = columns@[0]@.len();
    }
    let mut layer: Vec<H> = Vec::new();
    layer.push(H::fresh());
    layer.push(H::fresh());
    let mut layer_log: u32 = 1;
    let mut start: usize = 0;
    let ghost mut k: nat = 0;
    let ghost lg = lifting_log_size as nat;
    while start < total
        invariant
            total == columns.len(),
            total > 0,
            lg == lifting_log_size,
            lifting_log_size <= 31,
            columns_fit(columns@, lg),
            start <= total,
            start == piece_start(columns@, k),
            forall|m: nat| m <= k ==> 0 <= #[trigger] piece_start(columns@, m) <= total,
            forall|m: nat, n: nat|
                m <= n <= k ==> #[trigger] piece_start(columns@, m) <= #[trigger] piece_start(
                    columns@,
                    n,
                ),
            pieces_from(columns@, 0) == k + pieces_from(columns@, start as int),
            1 <= layer_log <= lifting_log_size,
            forall|j: int|
                0 <= j < start ==> log_of((#[trigger] columns@[j])@.len()) <= layer_log,
            start < total ==> layer_log <= log_of(columns@[start as int]@.len()),
            layer.len() == pow2(layer_log as nat),
            forall|i: int|
                0 <= i < layer.len() ==> (#[trigger] layer@[i]).pieces() == row_pieces(
                    columns@,
                    i,
                    layer_log as nat,
                    k,
                ),
        decreases total - start,
    {
        let end = find_piece_end(columns, start);
        let ghost log = log_of(columns@[start as int]@.len());
        proof {
            assert(is_pow2(columns@[start as int]@.len()));
            lemma_pow2_bound(log);
            lemma_pow2_le(1, log);
        }
        let log_size: u32 = ilog2(columns[start].len());
        proof {
            lemma_log_unique(log_size as nat, log);
            assert(piece_start(columns@, k + 1) == end);
        }
        let lifted = lift_layer(&layer, layer_log, log_size);
        proof {
            assert forall|i: int| 0 <= i < lifted.len() implies (#[trigger] lifted@[i]).pieces()
                == row_pieces(columns@, i, log_size as nat, k) by {
                lemma_lifted_row(i, log_size as nat, layer_log as nat);
                lemma_row_pieces_lifted(
                    columns@,
                    i,
                    layer_log as nat,
                    log_size as nat,
                    k,
                );
            }
        }
        layer = lifted;
        absorb_piece(&mut layer, columns, start, end, Ghost(log_size as nat), Ghost(k));
        proof {
            assert forall|j: int| 0 <= j < end implies log_of((#[trigger] columns@[j])@.len())
                <= log_size by {
                if j < start {
                }
            }
            if end < total {
                let len1 = columns@[end as int]@.len();
                assert(columns@[start as int]@.len() <= len1);
                let l1 = log_of(len1);
                assert(is_pow2(len1));
                if l1 < log_size {
                    vstd::arithmetic::power2::lemma_pow2_strictly_increases(l1, log_size as nat);
                }
            }
            k = k + 1;
        }
        start = end;
        layer_log = log_size;
    }
    let lifted = lift_layer(&layer, layer_log, lifting_log_size);
    proof {
        assert forall|i: int| 0 <= i < lifted.len() implies (#[trigger] lifted@[i]).pieces()
            == row_pieces(columns@, i, lg, k) by {
            lemma_lifted_row(i, lg, layer_log as nat);
            lemma_row_pieces_lifted(columns@, i, layer_log as nat, lg, k);
        }
    }
    finalize_layer(lifted, Ghost(columns@), Ghost(lg), Ghost(k))
}

fn finalize_layer<H: MerkleHasherLifted>(
    layer: Vec<H>,
    Ghost(columns): Ghost<Seq<&Vec<M31>>>,
    Ghost(log_size): Ghost<nat>,
    Ghost(k): Ghost<nat>,
) -> (r: Vec<H::Hash>)
    requires
        columns.len() > 0,
        k == pieces_from(columns, 0),
        layer.len() == pow2(log_size),
        forall|i: int|
            0 <= i < layer.len() ==> (#[trigger] layer@[i]).pieces() == row_pieces(
                columns,
                i,
                log_size,
                k,
            ),
    ensures
        r@ == leaves_s::<H>(columns, log_size),
{
    let ghost all = layer@;
    let mut r: Vec<H::Hash> = Vec::with_capacity(layer.len());
    for hasher in iter: layer
        invariant
            iter.seq() == all,
            all.len() == pow2(log_size),
            forall|i: int|
                0 <= i < all.len() ==> (#[trigger] all[i]).pieces() == row_pieces(
                    columns,
                    i,
                    log_size,
                    k,
                ),
            r.len() == iter.index(),
            forall|i: int|
                0 <= i < r.len() ==> #[trigger] r@[i] == H::leaf_hash(
                    row_pieces(columns, i, log_size, k),
                ),
    {
        assert(hasher == all[iter.index() as int]);
        r.push(hasher.finalize());
    }
    assert(r@ =~= leaves_s::<H>(columns, log_size));
    r
}

/// The parents of a layer.
pub open spec fn next_layer_s<H: MerkleHasherLifted>(layer: Seq<H::Hash>) -> Seq<H::Hash> {
    Seq::new(layer.len() / 2, |i: int| H::children_hash(layer[2 * i], layer[2 * i + 1]))
}

/// The front of a layer that its parents are built over: as many hashes as the largest power of two
/// that there are.
pub open spec fn full_front<T>(layer: Seq<T>) -> Seq<T> {
    layer.take(pow2(floor_log(layer.len())) as int)
}

/// A layer of a power of two is built over whole.
pub proof fn lemma_full_front<T>(layer: Seq<T>, log: nat)
    requires
        layer.len() == pow2(log),
    ensures
        full_front(layer) == layer,
{
    lemma_pow2_double(log + 1);
    lemma_pow2_pos(log);
    lemma_floor_log(layer.len(), log);
    assert(full_front(layer) =~= layer);
}

/// Hashes the first `n` pairs of neighbours.
pub(crate) fn hash_pairs<H: MerkleHasherLifted>(layer: &Vec<H::Hash>, n: usize) -> (r: Vec<H::Hash>)
    requires
        2 * n <= layer.len(),
    ensures
        r@ == next_layer_s::<H>(layer@.take(2 * n)),
{
    let mut r: Vec<H::Hash> = Vec::with_capacity(n);
    for i in 0..n
        invariant
            2 * n <= layer.len(),
            r@ == next_layer_s::<H>(layer@.take(2 * n)).take(i as int),
    {
        r.push(H::hash_children(layer[2 * i], layer[2 * i + 1]));
        assert(r@ =~= next_layer_s::<H>(layer@.take(2 * n)).take(i + 1));
    }
    assert(r@ =~= next_layer_s::<H>(layer@.take(2 * n)));
    r
}

/// Hashes neighbours into their parents: half as many as the largest power of two of hashes that
/// the layer has.
pub fn build_next_layer<H: MerkleHasherLifted>(prev_layer: &Vec<H::Hash>) -> (r: Vec<H::Hash>)
    requires
        prev_layer.len() >= 2,
    ensures
        r@ == next_layer_s::<H>(full_front(prev_layer@)),
        r@.len() == pow2((floor_log(prev_layer@.len()) - 1) as nat),
{
    let len: usize = prev_layer.len();
    let mut n: usize = 1;
    let ghost mut log: nat = 0;
    proof {
        lemma2_to64();
    }
    while n <= len / 4
        invariant
            n == pow2(log),
            2 * n <= len,
        decreases len - n,
    {
        n = 2 * n;
        proof {
            log = log + 1;
            lemma_pow2_double(log);
        }
    }
    proof {
        lemma_pow2_double(log + 1);
        lemma_pow2_double(log + 2);
        lemma_floor_log(len as nat, log + 1);
    }
    hash_pairs::<H>(prev_layer, n)
}

/// The layer `k` steps above the leaves.
pub open spec fn layer_above<H: MerkleHasherLifted>(leaves: Seq<H::Hash>, k: nat) -> Seq<H::Hash>
    decreases k,
{
    if k == 0 {
        leaves
    } else {
        next_layer_s::<H>(layer_above::<H>(leaves, (k - 1) as nat))
    }
}

/// The leaves and the layers above them, `n_layers` of them.
pub fn build_layers<H: MerkleHasherLifted>(leaves: Vec<H::Hash>, n_layers: u32) -> (r: Vec<
    Vec<H::Hash>,
>)
    requires
        n_layers > 0 ==> n_layers <= floor_log(leaves@.len()),
    ensures
        r.len() == n_layers + 1,
        r@[0] == leaves,
        forall|k: int|
            1 <= k < r.len() ==> (#[trigger] r@[k])@ == layer_above::<H>(
                full_front(leaves@),
                k as nat,
            ),
{
    let ghost log = floor_log(leaves@.len());
    let ghost first = full_front(leaves@);
    let ghost all = leaves@;
    let mut layers: Vec<Vec<H::Hash>> = Vec::new();
    layers.push(leaves);
    for k in 0..n_layers
        invariant
            n_layers <= log,
            log == floor_log(all.len()),
            first == full_front(all),
            layers.len() == k + 1,
            layers@[0] == leaves,
            all == leaves@,
            forall|j: int|
                1 <= j < layers.len() ==> (#[trigger] layers@[j])@ == layer_above::<H>(
                    first,
                    j as nat,
                ) && layers@[j]@.len() == pow2((log - j) as nat),
    {
        proof {
            lemma_layer_front::<H>(all, layers@[k as int]@, k as nat);
        }
        let next = build_next_layer::<H>(&layers[k as usize]);
        layers.push(next);
    }
    layers
}

/// The front of a layer above is the layer, and that of the leaves is what the layers are over.
proof fn lemma_layer_front<H: MerkleHasherLifted>(
    leaves: Seq<H::Hash>,
    layer: Seq<H::Hash>,
    k: nat,
)
    requires
        k < floor_log(leaves.len()),
        k == 0 ==> layer == leaves,
        k > 0 ==> layer == layer_above::<H>(full_front(leaves), k) && layer.len() == pow2(
            (floor_log(leaves.len()) - k) as nat,
        ),
    ensures
        layer.len() >= 2,
        floor_log(layer.len()) == floor_log(leaves.len()) - k,
        full_front(layer) == layer_above::<H>(full_front(leaves), k),
{
    let m = (floor_log(leaves.len()) - k) as nat;
    lemma_pow2_double(m);
    lemma_pow2_pos((m - 1) as nat);
    if k > 0 {
        lemma_full_front(layer, m);
        lemma_pow2_double(m + 1);
        lemma_floor_log(layer.len(), m);
    }
}

/// Rows that are packed into one leaf.
pub const PACKED_LEAF_SIZE: usize = 4;

/// The packed columns: column `c` holds, for each group of four rows, coordinate `c % 4` of row
/// `c / 4` of the group.
pub fn pack_leaves_input(values: &[Vec<M31>; 4]) -> (r: Vec<Vec<M31>>)
    requires
        values@[0]@.len() % 4 == 0,
        forall|k: int| 0 <= k < 4 ==> (#[trigger] values@[k])@.len() == values@[0]@.len(),
    ensures
        r.len() == 16,
        forall|c: int|
            0 <= c < 16 ==> (#[trigger] r@[c])@ == Seq::new(
                values@[0]@.len() / 4,
                |row: int| values@[c % 4]@[4 * row + c / 4],
            ),
{
    let len: usize = values[0].len();
    let packed_len: usize = len / PACKED_LEAF_SIZE;
    let mut r: Vec<Vec<M31>> = Vec::with_capacity(16);
    for c in 0..16usize
        invariant
            len == values@[0]@.len(),
            packed_len == len / 4,
            values@[0]@.len() % 4 == 0,
            forall|k: int| 0 <= k < 4 ==> (#[trigger] values@[k])@.len() == values@[0]@.len(),
            r.len() == c,
            forall|d: int|
                0 <= d < c ==> (#[trigger] r@[d])@ == Seq::new(
                    values@[0]@.len() / 4,
                    |row: int| values@[d % 4]@[4 * row + d / 4],
                ),
    {
        let coord: usize = c % 4;
        let offset: usize = c / 4;
        assert(values@[coord as int]@.len() == values@[0]@.len());
        let mut column: Vec<M31> = Vec::with_capacity(packed_len);
        for row in 0..packed_len
            invariant
                len == values@[0]@.len(),
            packed_len == len / 4,
                values@[0]@.len() % 4 == 0,
                coord < 4,
                offset < 4,
                values@[coord as int]@.len() == values@[0]@.len(),
                column.len() == row,
                forall|i: int|
                    0 <= i < row ==> #[trigger] column@[i] == values@[coord as int]@[4 * i
                        + offset],
        {
            column.push(values[coord][4 * row + offset]);
        }
        assert(column@ =~= Seq::new(
            values@[0]@.len() / 4,
            |row: int| values@[c as int % 4]@[4 * row + c as int / 4],
        ));
        r.push(column);
    }
    r
}

} // verus!
