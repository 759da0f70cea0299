//! Lookup columns: running sums of fractions.

use vstd::arithmetic::power2::{lemma_pow2_adds, pow2};
use vstd::prelude::*;

use crate::fields::batch::batch_inverse;
use crate::fields::m31::M31;
use crate::fields::qm31::QM31;
use crate::fields::{inv_of, lemma_inv_of, Field};
use crate::framework::packed::{PackedQM31, PackedSecureField, LOG_N_LANES};
use crate::framework::rows::{
    coset_row, coset_row_index, lemma_circle_index, lemma_coset_row_injective,
};
use crate::parallel::par_map;
use crate::poly::circle_poly::CircleEvaluation;
use crate::poly::domain::{canonic_domain, CanonicCoset};
use crate::secure_column::SecureColumnByCoords;
use crate::utils::{lemma_pow2_bound, pow2_usize};

verus! {

/// A denominator has a zero lane: the fraction has a pole there.
#[derive(Clone, Copy, Debug, PartialEq, Eq, Structural)]
pub struct LogupPole;

/// The element of a row, where sixteen rows are packed together.
pub open spec fn packed_at(column: Seq<PackedQM31>, row: int) -> QM31 {
    column[row / 16].lane(row % 16)
}

/// Packed numerators and denominators side by side.
pub open spec fn numerators(fracs: Seq<(PackedQM31, PackedQM31)>) -> Seq<PackedQM31> {
    fracs.map_values(|f: (PackedQM31, PackedQM31)| f.0)
}

pub open spec fn denominators(fracs: Seq<(PackedQM31, PackedQM31)>) -> Seq<PackedQM31> {
    fracs.map_values(|f: (PackedQM31, PackedQM31)| f.1)
}

pub open spec fn has_pole(denominators: Seq<PackedQM31>) -> bool {
    exists|i: int| 0 <= i < denominators.len() && (#[trigger] denominators[i]).has_zero_lane()
}

/// The column behind another one: in each row its fraction is added to what was there.
pub open spec fn next_column(
    numerators: Seq<PackedQM31>,
    denominators: Seq<PackedQM31>,
    before: Option<Seq<QM31>>,
) -> Seq<QM31> {
    Seq::new(
        16 * numerators.len(),
        |row: int|
            packed_at(numerators, row).times(inv_of(packed_at(denominators, row))).plus(
                match before {
                    Some(column) => column[row],
                    None => QM31::zero_el(),
                },
            ),
    )
}

/// The last column of a trace, if it has one.
pub open spec fn last_elements(trace: Seq<SecureColumnByCoords>) -> Option<Seq<QM31>> {
    if trace.len() == 0 {
        None
    } else {
        Some(trace.last().elements())
    }
}

/// The trace grows by the column of the given fractions.
pub open spec fn column_added(
    before: Seq<SecureColumnByCoords>,
    after: Seq<SecureColumnByCoords>,
    fracs: Seq<(PackedQM31, PackedQM31)>,
) -> bool {
    &&& after.len() == before.len() + 1
    &&& after.drop_last() == before
    &&& after.last().elements() == next_column(
        numerators(fracs),
        denominators(fracs),
        last_elements(before),
    )
}

/// The column behind `before`.
fn fraction_column(
    numerators: &Vec<PackedQM31>,
    denominators: &Vec<PackedQM31>,
    before: Option<&SecureColumnByCoords>,
) -> (r: SecureColumnByCoords)
    requires
        numerators@.len() == denominators@.len(),
        16 * numerators@.len() <= usize::MAX,
        !has_pole(denominators@),
        match before {
            Some(column) => column.wf() && column.len_s() == 16 * numerators@.len(),
            None => true,
        },
    ensures
        r.wf(),
        r.elements() == next_column(
            numerators@,
            denominators@,
            match before {
                Some(column) => Some(column.elements()),
                None => None,
            },
        ),
{
    let n = numerators.len() * 16;
    let mut flat: Vec<QM31> = Vec::new();
    let mut row: usize = 0;
    while row < n
        invariant
            row <= n == 16 * denominators@.len(),
            !has_pole(denominators@),
            flat@.len() == row,
            forall|j: int| 0 <= j < row ==> #[trigger] flat@[j] == packed_at(denominators@, j),
            forall|j: int| 0 <= j < row ==> (#[trigger] flat@[j]).canon() != QM31::zero_el(),
        decreases n - row,
    {
        let d = denominators[row / 16].0[row % 16];
        assert(d == packed_at(denominators@, row as int));
        proof {
            if d.canon() == QM31::zero_el() {
                let p = denominators@[row as int / 16];
                assert(p.lane(row as int % 16).canon() == QM31::zero_el());
                assert(p.has_zero_lane());
            }
        }
        flat.push(d);
        row += 1;
    }
    let inverses = batch_inverse(&flat);
    let mut r = SecureColumnByCoords::new_empty();
    let ghost previous = match before {
        Some(column) => Some(column.elements()),
        None => None,
    };
    let ghost target = next_column(numerators@, denominators@, previous);
    let mut row: usize = 0;
    while row < n
        invariant
            row <= n == 16 * numerators@.len(),
            numerators@.len() == denominators@.len(),
            flat@.len() == n,
            inverses@.len() == n,
            forall|j: int| 0 <= j < n ==> #[trigger] flat@[j] == packed_at(denominators@, j),
            forall|j: int| 0 <= j < n ==> flat@[j].times(#[trigger] inverses@[j]) == QM31::one_el(),
            forall|j: int| 0 <= j < n ==> (#[trigger] inverses@[j]).canon() == inverses@[j],
            match before {
                Some(column) => column.wf() && column.len_s() == n,
                None => true,
            },
            previous == match before {
                Some(column) => Some(column.elements()),
                None => None,
            },
            target == next_column(numerators@, denominators@, previous),
            r.wf(),
            r.elements() == target.take(row as int),
        decreases n - row,
    {
        let inverse = inverses[row];
        proof {
            lemma_inv_of(flat@[row as int], inverse);
        }
        let value = numerators[row / 16].0[row % 16].mul(inverse);
        let previous_value = match before {
            Some(column) => column.at(row),
            None => QM31::zero(),
        };
        r.push(value.add(previous_value));
        row += 1;
        assert(r.elements() =~= target.take(row as int));
    }
    assert(target.take(n as int) =~= target);
    r
}

/// Generates lookup columns, each on top of the one before it.
pub struct LogupTraceGenerator {
    log_size: u32,
    trace: Vec<SecureColumnByCoords>,
    denom: Vec<PackedSecureField>,
}

impl LogupTraceGenerator {
    pub closed spec fn log_size_s(self) -> nat {
        self.log_size as nat
    }

    /// The columns generated so far.
    pub closed spec fn columns(self) -> Seq<SecureColumnByCoords> {
        self.trace@
    }

    /// The denominators of the column at hand, and of the last one where not yet written.
    pub closed spec fn denoms(self) -> Seq<PackedQM31> {
        self.denom@
    }

    pub open spec fn wf(self) -> bool {
        &&& 4 <= self.log_size_s() <= 30
        &&& 16 * self.denoms().len() == pow2(self.log_size_s())
        &&& forall|c: int|
            0 <= c < self.columns().len() ==> (#[trigger] self.columns()[c]).wf()
                && self.columns()[c].len_s() == pow2(self.log_size_s())
    }

    pub fn new(log_size: u32) -> (r: LogupTraceGenerator)
        requires
            4 <= log_size <= 30,
        ensures
            r.wf(),
            r.log_size_s() == log_size,
            r.columns().len() == 0,
            forall|i: int, k: int|
                0 <= i < r.denoms().len() && 0 <= k < 16 ==> #[trigger] r.denoms()[i].lane(k)
                    == QM31::zero_el(),
    {
        let n = pow2_usize(log_size - LOG_N_LANES);
        proof {
            vstd::arithmetic::power2::lemma2_to64();
            lemma_pow2_adds(4, (log_size - 4) as nat);
        }
        let zero = PackedQM31([QM31::zero(); 16]);
        let mut denom: Vec<PackedQM31> = Vec::new();
        let mut i: usize = 0;
        while i < n
            invariant
                i <= n,
                denom@.len() == i,
                forall|j: int| 0 <= j < i ==> #[trigger] denom@[j] == zero,
                forall|k: int| 0 <= k < 16 ==> #[trigger] zero.lane(k) == QM31::zero_el(),
            decreases n - i,
        {
            denom.push(zero);
            i += 1;
        }
        LogupTraceGenerator { log_size, trace: Vec::new(), denom }
    }

    /// A generator whose buffers hold anything until its first column is written.
    pub fn uninitialized(log_size: u32) -> (r: LogupTraceGenerator)
        requires
            4 <= log_size <= 30,
        ensures
            r.wf(),
            r.log_size_s() == log_size,
            r.columns().len() == 0,
    {
        Self::new(log_size)
    }

    /// The logarithm of the number of rows.
    pub fn log_size(&self) -> (r: u32)
        ensures
            r == self.log_size_s(),
    {
        self.log_size
    }

    /// Starts a new column.
    pub fn new_col(&mut self) -> (r: LogupColGenerator<'_>)
        requires
            old(self).wf(),
        ensures
            *r.gen == *old(self),
            *final(self) == *final(r.gen),
            r.numerator@.len() == old(self).denoms().len(),
            r.denom@ == old(self).denoms(),
    {
        let n = self.denom.len();
        let zero = PackedQM31([QM31::zero(); 16]);
        let mut numerator: Vec<PackedQM31> = Vec::new();
        let mut denom: Vec<PackedQM31> = Vec::new();
        let mut i: usize = 0;
        while i < n
            invariant
                i <= n == self.denom@.len(),
                *self == *old(self),
                numerator@.len() == i,
                denom@ == self.denom@.take(i as int),
            decreases n - i,
        {
            numerator.push(zero);
            denom.push(self.denom[i]);
            i += 1;
            assert(denom@ =~= self.denom@.take(i as int));
        }
        assert(denom@ =~= self.denom@);
        LogupColGenerator { gen: self, numerator, denom }
    }

    /// Appends the column of the given fractions, unless one of them has a pole.
    pub fn col_from_iter(&mut self, fracs: Vec<(PackedSecureField, PackedSecureField)>) -> (r:
        Result<(), LogupPole>)
        requires
            old(self).wf(),
            16 * fracs@.len() == pow2(old(self).log_size_s()),
        ensures
            final(self).wf(),
            final(self).log_size_s() == old(self).log_size_s(),
            r is Err <==> has_pole(denominators(fracs@)),
            r is Err ==> final(self).columns() == old(self).columns(),
            r is Ok ==> column_added(old(self).columns(), final(self).columns(), fracs@),
    {
        let ghost before = *self;
        let n = fracs.len();
        let mut numerator: Vec<PackedQM31> = Vec::new();
        let mut denom: Vec<PackedQM31> = Vec::new();
        let mut i: usize = 0;
        while i < n
            invariant
                i <= n == fracs@.len(),
                numerator@ == numerators(fracs@).take(i as int),
                denom@ == denominators(fracs@).take(i as int),
                !has_pole(denom@),
                *self == before,
                *old(self) == before,
                before.wf(),
            decreases n - i,
        {
            let f = fracs[i];
            if f.1.contains_zero_lane() {
                assert(denominators(fracs@)[i as int].has_zero_lane());
                return Err(LogupPole);
            }
            let ghost short = denom@;
            numerator.push(f.0);
            denom.push(f.1);
            proof {
                assert forall|j: int| 0 <= j < denom@.len() implies !(
                #[trigger] denom@[j]).has_zero_lane() by {
                    if j < i {
                        assert(!short[j].has_zero_lane());
                    }
                }
            }
            i += 1;
            assert(numerator@ =~= numerators(fracs@).take(i as int));
            assert(denom@ =~= denominators(fracs@).take(i as int));
        }
        assert(numerator@ =~= numerators(fracs@));
        assert(denom@ =~= denominators(fracs@));
        proof {
            lemma_pow2_bound(self.log_size as nat);
        }
        let m = self.trace.len();
        assert(m > 0 ==> before.columns()[m - 1].wf());
        let column = if m == 0 {
            fraction_column(&numerator, &denom, None)
        } else {
            fraction_column(&numerator, &denom, Some(&self.trace[m - 1]))
        };
        let ghost elements = column.elements();
        assert(elements.len() == pow2(self.log_size as nat));
        self.denom = denom;
        self.trace.push(column);
        proof {
            assert(self.trace@.drop_last() =~= before.trace@);
            assert forall|c: int| 0 <= c < self.columns().len() implies (
            #[trigger] self.columns()[c]).wf() && self.columns()[c].len_s() == pow2(
                self.log_size_s(),
            ) by {
                if c < m {
                    assert(before.columns()[c].wf());
                }
            }
        }
        Ok(())
    }
}

/// One lookup column being written. A denominator that is not written is that of the last column.
pub struct LogupColGenerator<'a> {
    pub gen: &'a mut LogupTraceGenerator,
    pub numerator: Vec<PackedSecureField>,
    pub denom: Vec<PackedSecureField>,
}

impl<'a> LogupColGenerator<'a> {
    /// Writes the fractions of sixteen rows, unless one of them has a pole.
    pub fn write_frac(
        &mut self,
        vec_row: usize,
        numerator: PackedSecureField,
        denom: PackedSecureField,
    ) -> (r: Result<(), LogupPole>)
        requires
            vec_row < old(self).numerator@.len(),
            vec_row < old(self).denom@.len(),
        ensures
            r is Err <==> denom.has_zero_lane(),
            r is Ok ==> final(self).numerator@ == old(self).numerator@.update(
                vec_row as int,
                numerator,
            ) && final(self).denom@ == old(self).denom@.update(vec_row as int, denom),
            r is Err ==> final(self).numerator@ == old(self).numerator@ && final(self).denom@ == old(
                self).denom@,
            final(self).gen == old(self).gen,
    {
        if denom.contains_zero_lane() {
            return Err(LogupPole);
        }
        self.numerator.set(vec_row, numerator);
        self.denom.set(vec_row, denom);
        Ok(())
    }

    /// A writer for the fractions of sixteen rows.
    pub fn writer(&mut self, vec_row: usize) -> (r: FractionWriter<'_>)
        requires
            vec_row < old(self).numerator@.len(),
            vec_row < old(self).denom@.len(),
        ensures
            *r.numerator == old(self).numerator@[vec_row as int],
            *r.denom == old(self).denom@[vec_row as int],
            final(self).numerator@ == old(self).numerator@.update(
                vec_row as int,
                *final(r.numerator),
            ),
            final(self).denom@ == old(self).denom@.update(vec_row as int, *final(r.denom)),
            final(self).gen == old(self).gen,
    {
        FractionWriter {
            numerator: &mut self.numerator[vec_row],
            denom: &mut self.denom[vec_row],
        }
    }

    /// Appends the column to the trace.
    pub fn finalize_col(self)
        requires
            old(self.gen).wf(),
            self.numerator@.len() == old(self.gen).denoms().len(),
            self.denom@.len() == old(self.gen).denoms().len(),
            !has_pole(self.denom@),
        ensures
            final(self.gen).wf(),
            final(self.gen).log_size_s() == old(self.gen).log_size_s(),
            final(self.gen).denoms() == self.denom@,
            final(self.gen).columns().len() == old(self.gen).columns().len() + 1,
            final(self.gen).columns().drop_last() == old(self.gen).columns(),
            final(self.gen).columns().last().elements() == next_column(
                self.numerator@,
                self.denom@,
                last_elements(old(self.gen).columns()),
            ),
    {
        let LogupColGenerator { gen, numerator, denom } = self;
        proof {
            lemma_pow2_bound(gen.log_size as nat);
        }
        let ghost before = gen.trace@;
        let m = gen.trace.len();
        let column = if m == 0 {
            fraction_column(&numerator, &denom, None)
        } else {
            fraction_column(&numerator, &denom, Some(&gen.trace[m - 1]))
        };
        assert(column.elements().len() == pow2(gen.log_size as nat));
        gen.denom = denom;
        gen.trace.push(column);
        assert(gen.trace@.drop_last() =~= before);
    }
}

/// Writes the fractions of sixteen rows of one column.
pub struct FractionWriter<'a> {
    pub numerator: &'a mut PackedSecureField,
    pub denom: &'a mut PackedSecureField,
}

impl<'a> FractionWriter<'a> {
    /// Writes the fractions, unless one of them has a pole.
    pub fn write_frac(self, numerator: PackedSecureField, denom: PackedSecureField) -> (r: Result<
        (),
        LogupPole,
    >)
        ensures
            r is Err <==> denom.has_zero_lane(),
            r is Ok ==> *final(self.numerator) == numerator && *final(self.denom) == denom,
            r is Err ==> *final(self.numerator) == *old(self.numerator) && *final(self.denom) == *old(
                self.denom),
    {
        let FractionWriter { numerator: to_numerator, denom: to_denom } = self;
        if denom.contains_zero_lane() {
            return Err(LogupPole);
        }
        *to_numerator = numerator;
        *to_denom = denom;
        Ok(())
    }
}

/// The fractions that a function gives, by column and packed row.
pub open spec fn given_by<F: Fn(usize, usize) -> (PackedSecureField, PackedSecureField)>(
    frac_at: F,
    column: int,
    fracs: Seq<(PackedQM31, PackedQM31)>,
) -> bool {
    forall|i: int|
        0 <= i < fracs.len() ==> call_ensures(
            frac_at,
            (column as usize, i as usize),
            #[trigger] fracs[i],
        )
}

/// The columns of a table of fractions, each on top of the one before it.
pub open spec fn stacked(
    table: Seq<Seq<(PackedQM31, PackedQM31)>>,
    below: Option<Seq<QM31>>,
    c: int,
) -> Option<Seq<QM31>>
    decreases c + 1,
{
    if c < 0 {
        below
    } else {
        Some(
            next_column(
                numerators(table[c]),
                denominators(table[c]),
                stacked(table, below, c - 1),
            ),
        )
    }
}

/// The table holds, column by column, fractions that the function gives.
pub open spec fn tabulates<F: Fn(usize, usize) -> (PackedSecureField, PackedSecureField)>(
    frac_at: F,
    table: Seq<Seq<(PackedQM31, PackedQM31)>>,
    n_cols: nat,
    n_rows: nat,
) -> bool {
    &&& table.len() == n_cols
    &&& forall|c: int|
        0 <= c < n_cols ==> (#[trigger] table[c]).len() == n_rows && given_by(frac_at, c, table[c])
}

/// The trace grows by the columns of the table.
pub open spec fn grown_by(
    before: Seq<SecureColumnByCoords>,
    after: Seq<SecureColumnByCoords>,
    table: Seq<Seq<(PackedQM31, PackedQM31)>>,
) -> bool {
    &&& after.len() == before.len() + table.len()
    &&& after.take(before.len() as int) == before
    &&& forall|c: int|
        0 <= c < table.len() ==> !has_pole(denominators(#[trigger] table[c])) && Some(
            after[before.len() + c].elements(),
        ) == stacked(table, last_elements(before), c)
}

impl LogupTraceGenerator {
    /// Appends the column of the fractions that a function gives row by row, computed in
    /// parallel, unless one of them has a pole.
    pub fn col_from_par_iter<
        F: Fn(usize) -> (PackedSecureField, PackedSecureField) + Sync + Send,
    >(&mut self, frac_at: F) -> (r: Result<(), LogupPole>)
        requires
            old(self).wf(),
            forall|i: usize| i < old(self).denoms().len() ==> call_requires(frac_at, (i,)),
        ensures
            final(self).wf(),
            final(self).log_size_s() == old(self).log_size_s(),
            exists|fracs: Seq<(PackedQM31, PackedQM31)>|
                {
                    &&& fracs.len() == old(self).denoms().len()
                    &&& forall|i: usize|
                        i < fracs.len() ==> call_ensures(frac_at, (i,), #[trigger] fracs[i as int])
                    &&& r is Err <==> has_pole(#[trigger] denominators(fracs))
                    &&& r is Err ==> final(self).columns() == old(self).columns()
                    &&& r is Ok ==> final(self).columns() == old(self).columns().push(
                        final(self).columns().last(),
                    ) && final(self).columns().last().elements() == next_column(
                        numerators(fracs),
                        denominators(fracs),
                        last_elements(old(self).columns()),
                    )
                },
    {
        let n_rows: usize = self.denom.len();
        let fracs = par_map(n_rows, frac_at);
        let ghost given = fracs@;
        let r = self.col_from_iter(fracs);
        proof {
            assert(r is Err <==> has_pole(denominators(given)));
            if r is Ok {
                assert(self.columns() =~= old(self).columns().push(self.columns().last()));
            }
        }
        r
    }

    /// Appends `n_cols` columns of fractions that a function gives, as so many columns appended
    /// one by one would be. A pole is met where the function gives one; nothing is appended then.
    pub fn cols_from_fn<F: Fn(usize, usize) -> (PackedSecureField, PackedSecureField)>(
        &mut self,
        n_cols: usize,
        frac_at: F,
    ) -> (r: Result<(), LogupPole>)
        requires
            old(self).wf(),
            forall|c: usize, i: usize|
                c < n_cols && i < old(self).denoms().len() ==> call_requires(frac_at, (c, i)),
        ensures
            final(self).wf(),
            final(self).log_size_s() == old(self).log_size_s(),
            r is Ok ==> exists|table: Seq<Seq<(PackedQM31, PackedQM31)>>|
                #![trigger grown_by(old(self).columns(), final(self).columns(), table)]
                tabulates(frac_at, table, n_cols as nat, old(self).denoms().len()) && grown_by(
                    old(self).columns(),
                    final(self).columns(),
                    table,
                ),
            r is Err ==> final(self).columns() == old(self).columns() && exists|
                c: usize,
                i: usize,
                f: (PackedQM31, PackedQM31),
            |
                #![trigger call_ensures(frac_at, (c, i), f)]
                c < n_cols && i < old(self).denoms().len() && call_ensures(frac_at, (c, i), f)
                    && f.1.has_zero_lane(),
    {
        let ghost before = *self;
        let ghost below = last_elements(before.trace@);
        let n_rows = self.denom.len();
        let mut new_cols: Vec<SecureColumnByCoords> = Vec::new();
        let ghost mut table: Seq<Seq<(PackedQM31, PackedQM31)>> = Seq::empty();
        proof {
            lemma_pow2_bound(self.log_size as nat);
        }
        let mut c: usize = 0;
        while c < n_cols
            invariant
                c <= n_cols,
                *self == before,
                *old(self) == before,
                before.wf(),
                below == last_elements(before.trace@),
                n_rows == before.denoms().len(),
                16 * n_rows <= usize::MAX,
                forall|c: usize, i: usize|
                    c < n_cols && i < n_rows ==> call_requires(frac_at, (c, i)),
                new_cols@.len() == c,
                tabulates(frac_at, table, c as nat, n_rows as nat),
                forall|k: int|
                    0 <= k < c ==> (#[trigger] new_cols@[k]).wf() && new_cols@[k].len_s() == pow2(
                        before.log_size_s(),
                    ),
                forall|k: int|
                    0 <= k < c ==> !has_pole(denominators(#[trigger] table[k])) && Some(
                        new_cols@[k].elements(),
                    ) == stacked(table, below, k),
            decreases n_cols - c,
        {
            let mut numerator: Vec<PackedQM31> = Vec::new();
            let mut denom: Vec<PackedQM31> = Vec::new();
            let ghost mut fracs: Seq<(PackedQM31, PackedQM31)> = Seq::empty();
            let mut i: usize = 0;
            while i < n_rows
                invariant
                    i <= n_rows,
                    c < n_cols,
                    *self == before,
                    *old(self) == before,
                    before.wf(),
                    n_rows == before.denoms().len(),
                    forall|c: usize, i: usize|
                        c < n_cols && i < n_rows ==> call_requires(frac_at, (c, i)),
                    fracs.len() == i,
                    given_by(frac_at, c as int, fracs),
                    numerator@ == numerators(fracs),
                    denom@ == denominators(fracs),
                    !has_pole(denom@),
                decreases n_rows - i,
            {
                let f = frac_at(c, i);
                if f.1.contains_zero_lane() {
                    assert(call_ensures(frac_at, (c, i), f));
                    return Err(LogupPole);
                }
                let ghost short = denom@;
                numerator.push(f.0);
                denom.push(f.1);
                proof {
                    let longer = fracs.push(f);
                    assert(numerator@ =~= numerators(longer));
                    assert(denom@ =~= denominators(longer));
                    assert forall|j: int| 0 <= j < denom@.len() implies !(
                    #[trigger] denom@[j]).has_zero_lane() by {
                        if j < i {
                            assert(!short[j].has_zero_lane());
                        }
                    }
                    assert forall|j: int| 0 <= j < longer.len() implies call_ensures(
                        frac_at,
                        (c as int as usize, j as usize),
                        #[trigger] longer[j],
                    ) by {
                        if j < i {
                            assert(longer[j] == fracs[j]);
                        }
                    }
                    fracs = longer;
                }
                i += 1;
            }
            let m = self.trace.len();
            assert(m > 0 ==> before.columns()[m - 1].wf());
            let column = if c > 0 {
                fraction_column(&numerator, &denom, Some(&new_cols[c - 1]))
            } else if m > 0 {
                fraction_column(&numerator, &denom, Some(&self.trace[m - 1]))
            } else {
                fraction_column(&numerator, &denom, None)
            };
            let ghost short_table = table;
            let ghost short_cols = new_cols@;
            proof {
                table = table.push(fracs);
                assert(short_table =~= table.take(short_table.len() as int));
                if c > 0 {
                    assert(Some(new_cols@[c - 1].elements()) == stacked(
                        short_table,
                        below,
                        c - 1,
                    )) by {
                        assert(!has_pole(denominators(short_table[c - 1])));
                    }
                }
                lemma_stacked_prefix(short_table, table, below, c - 1);
                assert(column.elements().len() == pow2(before.log_size_s()));
            }
            new_cols.push(column);
            proof {
                assert forall|k: int| 0 <= k <= c implies !has_pole(
                    denominators(#[trigger] table[k]),
                ) && Some(new_cols@[k].elements()) == stacked(table, below, k) by {
                    if k < c {
                        assert(table[k] == short_table[k]);
                        assert(new_cols@[k] == short_cols[k]);
                        lemma_stacked_prefix(short_table, table, below, k);
                    } else {
                        assert(new_cols@[k] == column);
                    }
                }
                assert forall|k: int| 0 <= k <= c implies (#[trigger] table[k]).len() == n_rows
                    && given_by(frac_at, k, table[k]) by {
                    if k < c {
                        assert(table[k] == short_table[k]);
                    }
                }
            }
            c += 1;
        }
        let ghost columns = new_cols@;
        self.trace.append(&mut new_cols);
        proof {
            let after = self.trace@;
            assert(after == before.trace@ + columns);
            assert(after.take(before.trace@.len() as int) =~= before.trace@);
            assert forall|k: int| 0 <= k < table.len() implies !has_pole(
                denominators(#[trigger] table[k]),
            ) && Some(after[before.trace@.len() + k].elements()) == stacked(table, below, k) by {
                assert(after[before.trace@.len() + k] == columns[k]);
            }
            assert(grown_by(before.columns(), self.columns(), table));
            assert forall|k: int| 0 <= k < self.columns().len() implies (
            #[trigger] self.columns()[k]).wf() && self.columns()[k].len_s() == pow2(
                self.log_size_s(),
            ) by {
                if k < before.trace@.len() {
                    assert(after[k] == before.trace@[k]);
                    assert(before.columns()[k].wf());
                } else {
                    assert(after[k] == columns[k - before.trace@.len()]);
                }
            }
        }
        Ok(())
    }
}

/// Later columns do not change earlier ones.
proof fn lemma_stacked_prefix(
    short: Seq<Seq<(PackedQM31, PackedQM31)>>,
    long: Seq<Seq<(PackedQM31, PackedQM31)>>,
    below: Option<Seq<QM31>>,
    c: int,
)
    requires
        c < short.len() <= long.len(),
        short == long.take(short.len() as int),
    ensures
        stacked(short, below, c) == stacked(long, below, c),
    decreases c + 1,
{
    if c >= 0 {
        lemma_stacked_prefix(short, long, below, c - 1);
        assert(short[c] == long[c]);
    }
}

/// The sum of the first `n` elements.
pub open spec fn total(column: Seq<QM31>, n: nat) -> QM31
    decreases n,
{
    if n == 0 {
        QM31::zero_el()
    } else {
        total(column, (n - 1) as nat).plus(column[n - 1])
    }
}

/// A sum spread evenly over `2^log_size` rows.
pub open spec fn even_share(sum: QM31, log_size: nat) -> QM31 {
    sum.scaled(inv_of(M31(pow2(log_size) as u32)))
}

/// The running sum up to the `i`-th point of the coset, each element lowered by the shift.
pub open spec fn running(column: Seq<QM31>, shift: QM31, log_size: nat, i: int) -> QM31
    decreases i + 1,
{
    if i < 0 {
        QM31::zero_el()
    } else {
        running(column, shift, log_size, i - 1).plus(
            column[coset_row(i, log_size)].minus(shift),
        )
    }
}

/// `r` holds the running sums of a column, at the rows of the coset's points.
pub open spec fn is_running_sum(
    r: Seq<QM31>,
    column: Seq<QM31>,
    shift: QM31,
    log_size: nat,
) -> bool {
    &&& r.len() == pow2(log_size)
    &&& forall|i: int|
        0 <= i < pow2(log_size) ==> r[#[trigger] coset_row(i, log_size)] == running(
            column,
            shift,
            log_size,
            i,
        )
}

/// The running sum of a column in the order of the coset.
fn shifted_prefix_sum(column: &SecureColumnByCoords, shift: QM31, log_size: u32) -> (r:
    SecureColumnByCoords)
    requires
        1 <= log_size <= 30,
        column.wf(),
        column.len_s() == pow2(log_size as nat),
    ensures
        r.wf(),
        is_running_sum(r.elements(), column.elements(), shift, log_size as nat),
{
    let n = pow2_usize(log_size);
    let mut r = SecureColumnByCoords::zeros(n);
    let mut sum = QM31::zero();
    let mut i: usize = 0;
    let ghost log = log_size as nat;
    while i < n
        invariant
            i <= n == pow2(log),
            log == log_size,
            1 <= log_size <= 30,
            column.wf(),
            column.len_s() == n,
            r.wf(),
            r.elements().len() == n,
            sum == running(column.elements(), shift, log, i - 1),
            forall|j: int|
                0 <= j < i ==> r.elements()[#[trigger] coset_row(j, log)] == running(
                    column.elements(),
                    shift,
                    log,
                    j,
                ),
        decreases n - i,
    {
        let row = coset_row_index(i, log_size);
        let ghost before = r.elements();
        sum = sum.add(column.at(row).sub(shift));
        r.set(row, sum);
        proof {
            assert forall|j: int| 0 <= j < i + 1 implies r.elements()[#[trigger] coset_row(j, log)]
                == running(column.elements(), shift, log, j) by {
                lemma_circle_index(j, log);
                if j < i && coset_row(j, log) == row {
                    lemma_coset_row_injective(i as int, j, log);
                }
            }
        }
        i += 1;
    }
    r
}

/// The four coordinates of a column as evaluations on the canonic domain.
pub open spec fn is_spread(
    r: Seq<CircleEvaluation>,
    trace: Seq<SecureColumnByCoords>,
    log_size: nat,
) -> bool {
    &&& r.len() == 4 * trace.len()
    &&& forall|j: int|
        0 <= j < r.len() ==> (#[trigger] r[j]).domain == canonic_domain(log_size) && r[j].values@
            == trace[j / 4].columns@[j % 4]@
}

fn copied(column: &Vec<M31>) -> (r: Vec<M31>)
    ensures
        r@ == column@,
{
    let mut r: Vec<M31> = Vec::new();
    let mut i: usize = 0;
    while i < column.len()
        invariant
            i <= column@.len(),
            r@ == column@.take(i as int),
        decreases column@.len() - i,
    {
        r.push(column[i]);
        i += 1;
        assert(r@ =~= column@.take(i as int));
    }
    assert(r@ =~= column@);
    r
}

/// What finalizing columns gives: their coordinates as evaluations, the last column replaced by
/// its lowered running sum, and the sum of the last column.
pub open spec fn finalized(
    columns: Seq<SecureColumnByCoords>,
    log_size: nat,
    evals: Seq<CircleEvaluation>,
    sum: QM31,
) -> bool {
    &&& sum == total(columns.last().elements(), pow2(log_size))
    &&& exists|last: SecureColumnByCoords|
        #![trigger columns.drop_last().push(last)]
        last.wf() && is_running_sum(
            last.elements(),
            columns.last().elements(),
            even_share(sum, log_size),
            log_size,
        ) && is_spread(evals, columns.drop_last().push(last), log_size)
}

impl LogupTraceGenerator {
    /// The columns, and the sum of the last one. The last column is replaced by its running sum,
    /// lowered in each row by an even share of the sum.
    pub fn finalize_last(self) -> (r: (Vec<CircleEvaluation>, QM31))
        requires
            self.wf(),
            self.columns().len() > 0,
        ensures
            finalized(self.columns(), self.log_size_s(), r.0@, r.1),
    {
        let log_size = self.log_size;
        let ghost log = log_size as nat;
        let m = self.trace.len();
        proof {
            lemma_pow2_bound(log);
            assert(self.columns()[m - 1].wf());
        }
        let n = pow2_usize(log_size);
        let last = &self.trace[m - 1];
        let mut claimed_sum = QM31::zero();
        let mut i: usize = 0;
        while i < n
            invariant
                i <= n == pow2(log),
                last.wf(),
                last.len_s() == n,
                claimed_sum == total(last.elements(), i as nat),
            decreases n - i,
        {
            claimed_sum = claimed_sum.add(last.at(i));
            i += 1;
        }
        let size = M31::from_u32_unchecked(n as u32);
        proof {
            lemma_size_nonzero(log);
        }
        let inverse = size.inverse();
        proof {
            lemma_inv_of(size, inverse);
        }
        let shift = claimed_sum.mul_m31(inverse);
        let prefix = shifted_prefix_sum(last, shift, log_size);
        let ghost prefix_g = prefix;
        let domain = CanonicCoset::new(log_size).circle_domain();
        let mut r: Vec<CircleEvaluation> = Vec::new();
        let ghost target = self.trace@.drop_last().push(prefix_g);
        let mut c: usize = 0;
        while c < m
            invariant
                c <= m == self.trace@.len() == target.len(),
                target == self.trace@.drop_last().push(prefix),
                domain == canonic_domain(log),
                domain.wf(),
                domain.size_s() == pow2(log),
                prefix.wf(),
                prefix.len_s() == pow2(log),
                self.wf(),
                log == self.log_size_s(),
                r@.len() == 4 * c,
                forall|j: int|
                    0 <= j < r@.len() ==> (#[trigger] r@[j]).domain == canonic_domain(log)
                        && r@[j].values@ == target[j / 4].columns@[j % 4]@,
            decreases m - c,
        {
            let column = if c + 1 == m {
                &prefix
            } else {
                &self.trace[c]
            };
            assert(*column == target[c as int]);
            assert(self.columns()[c as int].wf());
            let ghost short = r@;
            r.push(CircleEvaluation::new(domain, copied(&column.columns[0])));
            r.push(CircleEvaluation::new(domain, copied(&column.columns[1])));
            r.push(CircleEvaluation::new(domain, copied(&column.columns[2])));
            r.push(CircleEvaluation::new(domain, copied(&column.columns[3])));
            proof {
                assert forall|j: int| 0 <= j < r@.len() implies (#[trigger] r@[j]).domain
                    == canonic_domain(log) && r@[j].values@ == target[j / 4].columns@[j % 4]@ by {
                    if j < 4 * c {
                        assert(r@[j] == short[j]);
                    } else {
                        assert(j / 4 == c);
                        assert(j == 4 * c || j == 4 * c + 1 || j == 4 * c + 2 || j == 4 * c + 3);
                    }
                }
            }
            c += 1;
        }
        assert(is_spread(r@, self.columns().drop_last().push(prefix_g), self.log_size_s()));
        assert(is_running_sum(
            prefix_g.elements(),
            self.columns().last().elements(),
            even_share(claimed_sum, log),
            log,
        ));
        (r, claimed_sum)
    }
}

pub proof fn lemma_size_nonzero(log_size: nat)
    requires
        log_size <= 30,
    ensures
        M31(pow2(log_size) as u32).canon() != M31::zero_el(),
        pow2(log_size) <= 0x4000_0000,
{
    vstd::arithmetic::power2::lemma2_to64();
    crate::utils::lemma_pow2_le(log_size, 30);
    let n = pow2(log_size) as u32;
    assert(0 < n < 2147483647);
    vstd::arithmetic::div_mod::lemma_small_mod(n as nat, 2147483647);
}

} // verus!
