//! Quotient work for the GPU: admission, parameters, and what the kernels compute.

use vstd::arithmetic::power2::{
    lemma2_to64, lemma_pow2_pos, lemma_pow2_strictly_increases, pow2,
};
use vstd::prelude::*;

use super::context::{completion_succeeded, CommandStatus};
use crate::circle::CirclePoint;
use crate::fields::cm31::CM31;
use crate::fields::m31::M31;
use crate::fields::qm31::QM31;
use crate::fields::Field;
use crate::poly::domain::CircleDomain;
use crate::quotients::{
    combine_rows, denominator, denominator_s, domain_xy, no_row_pole, numerator_ratio, row_quotients,
    AccumulatedNumerators,
};
use crate::secure_column::SecureColumnByCoords;
use crate::utils::{exact_log, lemma_pow2_bound, lemma_pow2_le, pow2_usize};

verus! {

/// The smallest size, as a logarithm, at which quotients are combined on the GPU.
pub const MIN_METAL_QUOTIENT_LOG_SIZE: u32 = 16;

/// The smallest size, as a logarithm, at which numerators are accumulated on the GPU.
pub const MIN_METAL_NUMERATOR_LOG_SIZE: u32 = 14;

/// Columns per dispatch.
pub const CHUNK_COLS: usize = 16;

/// The largest number of samples that are combined.
pub const MAX_SAMPLES: usize = 6;

pub fn should_use_metal_quotients(log_size: u32) -> (r: bool)
    ensures
        r == (log_size >= MIN_METAL_QUOTIENT_LOG_SIZE),
{
    log_size >= MIN_METAL_QUOTIENT_LOG_SIZE
}

pub fn should_use_metal_numerators(log_size: u32) -> (r: bool)
    ensures
        r == (log_size >= MIN_METAL_NUMERATOR_LOG_SIZE),
{
    log_size >= MIN_METAL_NUMERATOR_LOG_SIZE
}

/// A failure that was found only after submission. Each is final: there is no falling back to the
/// CPU from it.
#[derive(Clone, Debug)]
pub enum QuotientMetalError {
    NumeratorCommandFailed { status: CommandStatus, batch_count: usize, dispatch_count: usize },
    CommandFailed { status: CommandStatus },
    Pole { sample_mask: u32, first_row: usize, sample_first_rows: [Option<usize>; 6] },
}

/// Whether a column has a power of two of rows, at most `2^log_size`, in all its coordinates.
pub open spec fn column_fits(column: SecureColumnByCoords, log_size: nat) -> bool {
    &&& column.wf()
    &&& exists|k: nat| k <= log_size && column.len_s() == #[trigger] pow2(k)
}

/// Whether a combination can be submitted. The number of rows of the subdomain must fit a word of
/// the machine, and every row must have a numerator to be lifted from: a column of a single row has
/// one for the first row alone.
pub open spec fn shape_valid(
    accs: Seq<AccumulatedNumerators>,
    log_size: nat,
    n_rows: int,
    xs: int,
    ys: int,
) -> bool {
    &&& log_size < usize::BITS
    &&& 1 <= accs.len() <= MAX_SAMPLES
    &&& 1 <= n_rows <= u32::MAX
    &&& n_rows <= pow2(log_size)
    &&& n_rows <= xs
    &&& n_rows <= ys
    &&& forall|k: int|
        0 <= k < accs.len() ==> column_fits((#[trigger] accs[k]).partial_numerators_acc, log_size)
            && (n_rows <= 1 || accs[k].partial_numerators_acc.len_s() >= 2)
}

fn column_is_valid(column: &SecureColumnByCoords, log_size: u32) -> (r: bool)
    ensures
        r == column_fits(*column, log_size as nat),
{
    let len: usize = column.columns[0].len();
    if column.columns[1].len() != len || column.columns[2].len() != len
        || column.columns[3].len() != len {
        return false;
    }
    match exact_log(len) {
        Some(log) => {
            proof {
                if log > log_size {
                    assert forall|k: nat| k <= log_size implies len != #[trigger] pow2(k) by {
                        lemma_pow2_strictly_increases(k, log as nat);
                    }
                }
            }
            log <= log_size
        },
        None => false,
    }
}

/// Whether a combination can be submitted.
pub fn shape_is_valid(
    accs: &Vec<AccumulatedNumerators>,
    log_size: u32,
    n_rows: usize,
    xs: usize,
    ys: usize,
) -> (r: bool)
    ensures
        r == shape_valid(accs@, log_size as nat, n_rows as int, xs as int, ys as int),
{
    let n: usize = accs.len();
    if log_size >= usize::BITS || n == 0 || n > MAX_SAMPLES || n_rows == 0 || n_rows
        > u32::MAX as usize || n_rows > xs || n_rows > ys {
        return false;
    }
    if log_size < 32 {
        if n_rows > pow2_usize(log_size) {
            return false;
        }
    } else {
        proof {
            lemma2_to64();
            lemma_pow2_le(32, log_size as nat);
        }
    }
    for k in 0..n
        invariant
            n == accs.len(),
            forall|i: int|
                0 <= i < k ==> column_fits(
                    (#[trigger] accs@[i]).partial_numerators_acc,
                    log_size as nat,
                ) && (n_rows <= 1 || accs@[i].partial_numerators_acc.len_s() >= 2),
    {
        if !column_is_valid(&accs[k].partial_numerators_acc, log_size) {
            assert(!column_fits(accs@[k as int].partial_numerators_acc, log_size as nat));
            return false;
        }
        assert(column_fits(accs@[k as int].partial_numerators_acc, log_size as nat));
        if n_rows > 1 && accs[k].partial_numerators_acc.len() < 2 {
            assert(accs@[k as int].partial_numerators_acc.len_s() < 2);
            return false;
        }
    }
    true
}

/// `row` is the first row where the denominator of a sample is zero, if there is one.
pub open spec fn is_first_pole(
    sample: CirclePoint<QM31>,
    xs: Seq<M31>,
    ys: Seq<M31>,
    rows: int,
    row: Option<usize>,
) -> bool {
    match row {
        Some(i) => {
            &&& i < rows
            &&& denominator_s(sample, xs[i as int], ys[i as int]).canon() == CM31::zero_el()
            &&& forall|j: int|
                0 <= j < i ==> (#[trigger] denominator_s(sample, xs[j], ys[j])).canon()
                    != CM31::zero_el()
        },
        None => forall|j: int|
            0 <= j < rows ==> (#[trigger] denominator_s(sample, xs[j], ys[j])).canon()
                != CM31::zero_el(),
    }
}

fn first_pole(sample: CirclePoint<QM31>, xs: &[M31], ys: &[M31], n_rows: usize) -> (r: Option<
    usize,
>)
    requires
        n_rows <= xs.len(),
        n_rows <= ys.len(),
    ensures
        is_first_pole(sample, xs@, ys@, n_rows as int, r),
{
    for i in 0..n_rows
        invariant
            n_rows <= xs.len(),
            n_rows <= ys.len(),
            forall|j: int|
                0 <= j < i ==> (#[trigger] denominator_s(sample, xs@[j], ys@[j])).canon()
                    != CM31::zero_el(),
    {
        if denominator(sample, xs[i], ys[i]).is_zero() {
            return Some(i);
        }
    }
    None
}

/// The first poles of the samples; places without a sample have none.
pub open spec fn first_poles(
    accs: Seq<AccumulatedNumerators>,
    xs: Seq<M31>,
    ys: Seq<M31>,
    rows: int,
    firsts: Seq<Option<usize>>,
) -> bool {
    &&& firsts.len() == MAX_SAMPLES
    &&& forall|k: int|
        0 <= k < MAX_SAMPLES ==> if k < accs.len() {
            is_first_pole(accs[k].sample_point, xs, ys, rows, #[trigger] firsts[k])
        } else {
            firsts[k] is None
        }
}

/// `2^k` if sample `k` has a pole.
pub open spec fn mask_bit(firsts: Seq<Option<usize>>, k: int) -> nat {
    if firsts[k] is Some {
        pow2(k as nat)
    } else {
        0
    }
}

/// The mask of the samples that have a pole.
pub open spec fn pole_mask(firsts: Seq<Option<usize>>, n: int) -> nat
    decreases n,
{
    if n <= 0 {
        0
    } else {
        pole_mask(firsts, n - 1) + mask_bit(firsts, n - 1)
    }
}

/// `row` is the least of the first rows.
pub open spec fn is_least(firsts: Seq<Option<usize>>, row: usize) -> bool {
    &&& exists|k: int| 0 <= k < firsts.len() && #[trigger] firsts[k] == Some(row)
    &&& forall|k: int| 0 <= k < firsts.len() && (#[trigger] firsts[k]) is Some ==> row
        <= firsts[k]->0
}

/// The words of a pole report: the mask, and the first row of each sample or the largest word.
pub open spec fn report_rows(report: Seq<u32>) -> Seq<Option<usize>> {
    Seq::new(
        MAX_SAMPLES as nat,
        |k: int|
            if report[1 + k] != u32::MAX {
                Some(report[1 + k] as usize)
            } else {
                None
            },
    )
}

fn row_of(word: u32) -> (r: Option<usize>)
    ensures
        r == if word != u32::MAX {
            Some(word as usize)
        } else {
            None
        },
{
    if word != u32::MAX {
        Some(word as usize)
    } else {
        None
    }
}

/// Reads a pole report: no mask bit is no error; otherwise the first rows of the samples and the
/// least of them, or the largest word if none is given.
pub fn decode_pole_report(report: &[u32]) -> (r: Result<(), QuotientMetalError>)
    requires
        report.len() == 7,
    ensures
        report@[0] == 0 ==> r is Ok,
        report@[0] != 0 ==> r is Err && (r->Err_0 matches QuotientMetalError::Pole {
            sample_mask,
            first_row,
            sample_first_rows,
        } && sample_mask == report@[0] && sample_first_rows@ == report_rows(report@) && if exists|
            k: int,
        | 0 <= k < MAX_SAMPLES && (#[trigger] report_rows(report@)[k]) is Some {
            is_least(report_rows(report@), first_row)
        } else {
            first_row == usize::MAX
        }),
{
    if report[0] == 0 {
        return Ok(());
    }
    let rows: [Option<usize>; 6] = [
        row_of(report[1]),
        row_of(report[2]),
        row_of(report[3]),
        row_of(report[4]),
        row_of(report[5]),
        row_of(report[6]),
    ];
    let ghost rr = report_rows(report@);
    assert(rows@ =~= rr);
    let mut least: Option<usize> = None;
    for k in 0..6usize
        invariant
            rows@ == rr,
            rr.len() == 6,
            match least {
                Some(row) => {
                    &&& exists|i: int| 0 <= i < k && #[trigger] rr[i] == Some(row)
                    &&& forall|i: int| 0 <= i < k && (#[trigger] rr[i]) is Some ==> row <= rr[i]->0
                },
                None => forall|i: int| 0 <= i < k ==> (#[trigger] rr[i]) is None,
            },
    {
        let ghost before = least;
        match rows[k] {
            Some(row) => {
                assert(rr[k as int] == Some(row));
                match least {
                    Some(l) => {
                        if row < l {
                            least = Some(row);
                        }
                    },
                    None => {
                        least = Some(row);
                    },
                }
            },
            None => {
                assert(rr[k as int] is None);
            },
        }
        proof {
            if before is Some && least == before {
                let w = choose|i: int| 0 <= i < k && #[trigger] rr[i] == Some(before->0);
                assert(rr[w] == Some(before->0));
            }
        }
    }
    let first_row: usize = match least {
        Some(row) => row,
        None => usize::MAX,
    };
    Err(QuotientMetalError::Pole { sample_mask: report[0], first_row, sample_first_rows: rows })
}

/// The pole report of a combination.
fn scan_poles(accs: &Vec<AccumulatedNumerators>, xs: &[M31], ys: &[M31], n_rows: usize) -> (r: Vec<
    u32,
>)
    requires
        1 <= accs.len() <= MAX_SAMPLES,
        n_rows <= u32::MAX,
        n_rows <= xs.len(),
        n_rows <= ys.len(),
    ensures
        r.len() == 7,
        first_poles(accs@, xs@, ys@, n_rows as int, report_rows(r@)),
        r@[0] == pole_mask(report_rows(r@), 6),
{
    let mut report: Vec<u32> = Vec::with_capacity(7);
    report.push(0);
    let n: usize = accs.len();
    let mut mask: u32 = 0;
    let mut bit: u32 = 1;
    let ghost mut firsts: Seq<Option<usize>> = Seq::empty();
    proof {
        lemma2_to64();
    }
    for k in 0..6usize
        invariant
            n == accs.len(),
            n <= 6,
            n_rows <= u32::MAX,
            n_rows <= xs.len(),
            n_rows <= ys.len(),
            report.len() == k + 1,
            report@[0] == 0,
            firsts.len() == k,
            bit == pow2(k as nat),
            mask == pole_mask(firsts, k as int),
            mask < pow2(k as nat),
            forall|i: int|
                0 <= i < k ==> if i < n {
                    is_first_pole(
                        accs@[i].sample_point,
                        xs@,
                        ys@,
                        n_rows as int,
                        #[trigger] firsts[i],
                    )
                } else {
                    firsts[i] is None
                },
            forall|i: int|
                0 <= i < k ==> #[trigger] firsts[i] == if report@[1 + i] != u32::MAX {
                    Some(report@[1 + i] as usize)
                } else {
                    None
                },
    {
        let ghost f0 = firsts;
        let ghost r0 = report@;
        let first: Option<usize> = if k < n {
            first_pole(accs[k].sample_point, xs, ys, n_rows)
        } else {
            None
        };
        proof {
            firsts = firsts.push(first);
            lemma_mask_prefix(f0, firsts, k as int);
            lemma2_to64();
            crate::utils::lemma_pow2_double((k + 1) as nat);
            lemma_pow2_bound((k + 1) as nat);
        }
        match first {
            Some(row) => {
                report.push(row as u32);
                mask = mask + bit;
            },
            None => {
                report.push(u32::MAX);
            },
        }
        bit = 2 * bit;
        proof {
            assert forall|i: int| 0 <= i < k + 1 implies #[trigger] firsts[i] == if report@[1 + i]
                != u32::MAX {
                Some(report@[1 + i] as usize)
            } else {
                None
            } by {
                if i < k {
                    assert(firsts[i] == f0[i]);
                    assert(report@[1 + i] == r0[1 + i]);
                }
            }
            assert forall|i: int| 0 <= i < k + 1 implies if i < n {
                is_first_pole(
                    accs@[i].sample_point,
                    xs@,
                    ys@,
                    n_rows as int,
                    #[trigger] firsts[i],
                )
            } else {
                firsts[i] is None
            } by {
                if i < k {
                    assert(firsts[i] == f0[i]);
                }
            }
        }
    }
    report.set(0, mask);
    assert(report_rows(report@) =~= firsts);
    report
}

proof fn lemma_mask_prefix(a: Seq<Option<usize>>, b: Seq<Option<usize>>, n: int)
    requires
        n <= a.len(),
        n <= b.len(),
        forall|i: int| 0 <= i < n ==> a[i] == b[i],
    ensures
        pole_mask(a, n) == pole_mask(b, n),
    decreases n,
{
    if n > 0 {
        lemma_mask_prefix(a, b, n - 1);
    }
}

proof fn lemma_mask_zero(firsts: Seq<Option<usize>>, n: int)
    requires
        0 <= n <= firsts.len(),
    ensures
        pole_mask(firsts, n) == 0 <==> forall|k: int| 0 <= k < n ==> (#[trigger] firsts[k]) is None,
    decreases n,
{
    if n > 0 {
        lemma_mask_zero(firsts, n - 1);
        lemma_pow2_pos((n - 1) as nat);
        if firsts[n - 1] is Some {
            assert(pole_mask(firsts, n) > 0);
        }
    }
}

/// The parameters of one sample: the real and imaginary parts of its point's coordinates, the
/// first linear term in two pairs, and how much smaller its numerators are than the subdomain.
#[derive(Clone, Copy, Debug, PartialEq, Eq)]
pub struct SampleParams {
    pub prx: [u32; 2],
    pub pix: [u32; 2],
    pub pry: [u32; 2],
    pub piy: [u32; 2],
    pub flt0: [u32; 2],
    pub flt1: [u32; 2],
    pub log_ratio: u32,
    pub pad: u32,
}

/// The element that two words hold.
pub open spec fn pair_element(w: [u32; 2]) -> CM31 {
    CM31(M31(w@[0]), M31(w@[1]))
}

fn pair_words(v: CM31) -> (r: [u32; 2])
    ensures
        pair_element(r) == v,
{
    [v.0.0, v.1.0]
}

impl SampleParams {
    /// Whether the parameters are those of a sample.
    pub open spec fn describes(self, acc: AccumulatedNumerators, log_size: nat) -> bool {
        &&& pair_element(self.prx) == acc.sample_point.x.0
        &&& pair_element(self.pix) == acc.sample_point.x.1
        &&& pair_element(self.pry) == acc.sample_point.y.0
        &&& pair_element(self.piy) == acc.sample_point.y.1
        &&& pair_element(self.flt0) == acc.first_linear_term_acc.0
        &&& pair_element(self.flt1) == acc.first_linear_term_acc.1
        &&& self.log_ratio == acc.log_ratio(log_size)
        &&& self.pad == 0
    }
}

/// The parameters of one sample.
pub fn sample_params(acc: &AccumulatedNumerators, subdomain_log_size: u32) -> (r: SampleParams)
    requires
        column_fits(acc.partial_numerators_acc, subdomain_log_size as nat),
    ensures
        r.describes(*acc, subdomain_log_size as nat),
{
    let log_ratio: u32 = numerator_ratio(acc, subdomain_log_size);
    SampleParams {
        prx: pair_words(acc.sample_point.x.0),
        pix: pair_words(acc.sample_point.x.1),
        pry: pair_words(acc.sample_point.y.0),
        piy: pair_words(acc.sample_point.y.1),
        flt0: pair_words(acc.first_linear_term_acc.0),
        flt1: pair_words(acc.first_linear_term_acc.1),
        log_ratio,
        pad: 0,
    }
}

/// What a combination of the first `n_rows` rows comes to, once its command has ended. A shape
/// that cannot be submitted is declined before; a command that has not completed is a final
/// failure, and so is a zero denominator, whose samples and rows are named.
pub fn settle_quotients(
    accumulations: &Vec<AccumulatedNumerators>,
    subdomain_log_size: u32,
    n_rows: usize,
    xs: &[M31],
    ys: &[M31],
    status: CommandStatus,
) -> (r: Result<Option<SecureColumnByCoords>, QuotientMetalError>)
    ensures
        ({
            let valid = shape_valid(
                accumulations@,
                subdomain_log_size as nat,
                n_rows as int,
                xs@.len() as int,
                ys@.len() as int,
            );
            let clear = no_row_pole(accumulations@, xs@, ys@, n_rows as int);
            let done = status == CommandStatus::Completed;
            &&& !valid ==> r is Ok && r->Ok_0 is None
            &&& valid && !done ==> r is Err && r->Err_0 == (
            QuotientMetalError::CommandFailed { status })
            &&& valid && done && clear ==> r is Ok && r->Ok_0 is Some
                && r->Ok_0->0.wf() && r->Ok_0->0.elements() == row_quotients(
                accumulations@,
                subdomain_log_size as nat,
                xs@,
                ys@,
                n_rows as nat,
            )
            &&& valid && done && !clear ==> r is Err && (r->Err_0 matches QuotientMetalError::Pole {
                sample_mask,
                first_row,
                sample_first_rows,
            } && first_poles(accumulations@, xs@, ys@, n_rows as int, sample_first_rows@)
                && sample_mask == pole_mask(sample_first_rows@, 6) && is_least(
                sample_first_rows@,
                first_row,
            ))
        }),
{
    if !shape_is_valid(accumulations, subdomain_log_size, n_rows, xs.len(), ys.len()) {
        return Ok(None);
    }
    if !completion_succeeded(status) {
        return Err(QuotientMetalError::CommandFailed { status });
    }
    let report = scan_poles(accumulations, xs, ys, n_rows);
    let ghost firsts = report_rows(report@);
    proof {
        lemma_mask_zero(firsts, 6);
        if report@[0] == 0 {
            assert forall|row: int, k: int|
                #![trigger denominator_s(accumulations@[k].sample_point, xs@[row], ys@[row])]
                0 <= row < n_rows && 0 <= k < accumulations@.len() implies denominator_s(
                accumulations@[k].sample_point,
                xs@[row],
                ys@[row],
            ).canon() != CM31::zero_el() by {
                assert(is_first_pole(
                    accumulations@[k].sample_point,
                    xs@,
                    ys@,
                    n_rows as int,
                    firsts[k],
                ));
            }
        } else {
            let k = choose|k: int| 0 <= k < 6 && (#[trigger] firsts[k]) is Some;
            assert(is_first_pole(
                accumulations@[k].sample_point,
                xs@,
                ys@,
                n_rows as int,
                firsts[k],
            ));
            let row = firsts[k]->0 as int;
            assert(denominator_s(accumulations@[k].sample_point, xs@[row], ys@[row]).canon()
                == CM31::zero_el());
        }
    }
    match decode_pole_report(report.as_slice()) {
        Err(error) => Err(error),
        Ok(()) => {
            proof {
                assert forall|k: int| 0 <= k < accumulations.len() implies (
                #[trigger] accumulations@[k]).fits_rows(
                    subdomain_log_size as nat,
                    n_rows as int,
                ) by {
                    assert(column_fits(
                        accumulations@[k].partial_numerators_acc,
                        subdomain_log_size as nat,
                    ));
                }
            }
            Ok(Some(combine_rows(accumulations, subdomain_log_size, n_rows, xs, ys)))
        },
    }
}

/// The quotients of the first `n_rows` rows with the given coordinates. A shape that cannot be
/// submitted is declined; a zero denominator is an error that names the samples and rows.
pub fn combine_quotients_metal_with_xy(
    accumulations: &Vec<AccumulatedNumerators>,
    subdomain_log_size: u32,
    n_rows: usize,
    xs: &[M31],
    ys: &[M31],
) -> (r: Result<Option<SecureColumnByCoords>, QuotientMetalError>)
    ensures
        ({
            let valid = shape_valid(
                accumulations@,
                subdomain_log_size as nat,
                n_rows as int,
                xs@.len() as int,
                ys@.len() as int,
            );
            let clear = no_row_pole(accumulations@, xs@, ys@, n_rows as int);
            &&& !valid ==> r is Ok && r->Ok_0 is None
            &&& valid && clear ==> r is Ok && r->Ok_0 is Some && r->Ok_0->0.wf()
                && r->Ok_0->0.elements() == row_quotients(
                accumulations@,
                subdomain_log_size as nat,
                xs@,
                ys@,
                n_rows as nat,
            )
            &&& valid && !clear ==> r is Err && (r->Err_0 matches QuotientMetalError::Pole {
                sample_mask,
                first_row,
                sample_first_rows,
            } && first_poles(accumulations@, xs@, ys@, n_rows as int, sample_first_rows@)
                && sample_mask == pole_mask(sample_first_rows@, 6) && is_least(
                sample_first_rows@,
                first_row,
            ))
        }),
{
    settle_quotients(accumulations, subdomain_log_size, n_rows, xs, ys, CommandStatus::Completed)
}

/// The quotients of the first `n_rows` rows of a domain, in bit-reversed order.
pub fn combine_quotients_metal(
    accumulations: &Vec<AccumulatedNumerators>,
    subdomain: CircleDomain,
    n_rows: usize,
) -> (r: Result<Option<SecureColumnByCoords>, QuotientMetalError>)
    requires
        subdomain.wf(),
    ensures
        ({
            let xs = Seq::new(subdomain.size_s(), |j: int| subdomain.reversed_at(j).x);
            let ys = Seq::new(subdomain.size_s(), |j: int| subdomain.reversed_at(j).y);
            let log_size = subdomain.log_size_s();
            let valid = shape_valid(
                accumulations@,
                log_size,
                n_rows as int,
                xs.len() as int,
                ys.len() as int,
            );
            let clear = no_row_pole(accumulations@, xs, ys, n_rows as int);
            &&& !valid ==> r is Ok && r->Ok_0 is None
            &&& valid && clear ==> r is Ok && r->Ok_0 is Some && r->Ok_0->0.wf()
                && r->Ok_0->0.elements() == row_quotients(
                accumulations@,
                log_size,
                xs,
                ys,
                n_rows as nat,
            )
            &&& valid && !clear ==> r is Err && (r->Err_0 matches QuotientMetalError::Pole {
                sample_mask,
                first_row,
                sample_first_rows,
            } && first_poles(accumulations@, xs, ys, n_rows as int, sample_first_rows@)
                && sample_mask == pole_mask(sample_first_rows@, 6) && is_least(
                sample_first_rows@,
                first_row,
            ))
        }),
{
    let xy = domain_xy(subdomain);
    let ghost xs = Seq::new(subdomain.size_s(), |j: int| subdomain.reversed_at(j).x);
    let ghost ys = Seq::new(subdomain.size_s(), |j: int| subdomain.reversed_at(j).y);
    assert(xy.xs@ =~= xs);
    assert(xy.ys@ =~= ys);
    combine_quotients_metal_with_xy(
        accumulations,
        subdomain.log_size(),
        n_rows,
        xy.xs.as_slice(),
        xy.ys.as_slice(),
    )
}

} // verus!
