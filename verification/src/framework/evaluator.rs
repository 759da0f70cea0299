//! An evaluator that writes down the constraints of a component as expressions.

use vstd::prelude::*;

use crate::fields::m31::M31;
use crate::fields::qm31::QM31;
use crate::fields::Field;
use crate::framework::expr::{
    BaseExpr, ColumnExpr, ExtExpr, PreProcessedColumnId, PreprocessedColumnExpr,
};
use crate::framework::intermediates::lemma_combination_known;
use crate::framework::names::{append_decimal, decimal_s, lemma_decimal_injective, NameMap};
use crate::framework::relation::{Relation, RelationEntry};
use crate::framework::{INTERACTION_TRACE_IDX, MAX_N_INTERACTIONS, ORIGINAL_TRACE_IDX};

verus! {

/// A numerator over a denominator.
#[derive(Clone, Copy, Debug, PartialEq, Eq)]
pub struct Fraction<N, D> {
    pub numerator: N,
    pub denominator: D,
}

impl<N, D> Fraction<N, D> {
    pub fn new(numerator: N, denominator: D) -> (r: Fraction<N, D>)
        ensures
            r == (Fraction { numerator, denominator }),
    {
        Fraction { numerator, denominator }
    }
}

/// `a/b + c/d = (d*a + b*c) / (b*d)`.
pub open spec fn formal_sum(
    a: Fraction<ExtExpr, ExtExpr>,
    b: Fraction<ExtExpr, ExtExpr>,
) -> Fraction<ExtExpr, ExtExpr> {
    Fraction {
        numerator: ExtExpr::Add(
            Box::new(ExtExpr::Mul(Box::new(b.denominator), Box::new(a.numerator))),
            Box::new(ExtExpr::Mul(Box::new(a.denominator), Box::new(b.numerator))),
        ),
        denominator: ExtExpr::Mul(Box::new(a.denominator), Box::new(b.denominator)),
    }
}

/// The sum of the fractions `from .. to`, of which there is at least one.
pub open spec fn batch_sum(
    fracs: Seq<Fraction<ExtExpr, ExtExpr>>,
    from: int,
    to: int,
) -> Fraction<ExtExpr, ExtExpr>
    decreases to - from,
{
    if to <= from + 1 {
        fracs[from]
    } else {
        formal_sum(batch_sum(fracs, from, to - 1), fracs[to - 1])
    }
}

/// The lookup side of a component.
pub struct FormalLogupAtRow {
    pub interaction: usize,
    pub claimed_sum: ExtExpr,
    pub fracs: Vec<Fraction<ExtExpr, ExtExpr>>,
    pub is_finalized: bool,
    pub is_first: BaseExpr,
    pub cumsum_shift: ExtExpr,
}

/// `claimed_sum / column_size`.
pub open spec fn is_formal_shift(e: ExtExpr) -> bool {
    match e {
        ExtExpr::Mul(a, b) => match *a {
            ExtExpr::Param(sum) => sum@ == "claimed_sum"@ && match *b {
                ExtExpr::SecureCol(x, y, z, w) => *b == ExtExpr::from_base_s(*x) && match *x {
                    BaseExpr::Inv(n) => match *n {
                        BaseExpr::Param(size) => size@ == "column_size"@,
                        _ => false,
                    },
                    _ => false,
                },
                _ => false,
            },
            _ => false,
        },
        _ => false,
    }
}

impl FormalLogupAtRow {
    /// No fraction yet, the sum claimed under the name `claimed_sum`, spread evenly over the rows.
    pub fn new(interaction: usize) -> (r: FormalLogupAtRow)
        ensures
            r.interaction == interaction,
            r.claimed_sum is Param && r.claimed_sum->Param_0@ == "claimed_sum"@,
            r.fracs@.len() == 0,
            r.is_finalized,
            r.is_first == BaseExpr::Const(M31(0)),
            is_formal_shift(r.cumsum_shift),
    {
        let claimed_sum_name = String::from_str("claimed_sum");
        let column_size_name = String::from_str("column_size");
        FormalLogupAtRow {
            interaction,
            claimed_sum: ExtExpr::Param(claimed_sum_name.clone()),
            fracs: Vec::new(),
            is_finalized: true,
            is_first: BaseExpr::zero(),
            cumsum_shift: ExtExpr::Param(claimed_sum_name).mul(
                ExtExpr::from_base(BaseExpr::Param(column_size_name).inverse()),
            ),
        }
    }
}

/// `e` is the parameter `<relation>_alpha<i>`.
pub open spec fn is_alpha(e: ExtExpr, relation: Seq<char>, i: int) -> bool {
    e is Param && e->Param_0@ == relation + "_alpha"@ + decimal_s(i as nat)
}

/// `e` is `sum_i alpha_i * values[i]` over the first `n` values, summed onto zero.
pub open spec fn is_weighted(e: ExtExpr, relation: Seq<char>, values: Seq<BaseExpr>, n: nat) -> bool
    decreases n,
{
    if n == 0 {
        e == ExtExpr::Const(QM31::zero_el())
    } else {
        match e {
            ExtExpr::Add(a, b) => is_weighted(*a, relation, values, (n - 1) as nat) && match *b {
                ExtExpr::Mul(p, v) => is_alpha(*p, relation, n - 1) && *v == ExtExpr::from_base_s(
                    values[n - 1],
                ),
                _ => false,
            },
            _ => false,
        }
    }
}

/// `e` is `value[0] * <relation>_alpha0 + value[1] * <relation>_alpha1 + ... - <relation>_z`.
pub open spec fn is_combination(e: ExtExpr, relation: Seq<char>, values: Seq<BaseExpr>) -> bool {
    match e {
        ExtExpr::Sub(a, b) => is_weighted(*a, relation, values, values.len()) && (*b) is Param
            && (*b)->Param_0@ == relation + "_z"@,
        _ => false,
    }
}

/// The formal combination of values by a relation.
fn combine_formal<R: Relation>(relation: &R, values: &[BaseExpr]) -> (r: ExtExpr)
    requires
        values@.len() <= relation.size_s(),
    ensures
        is_combination(r, relation.name_s(), values@),
{
    let name = relation.get_name();
    let mut z_name = name.clone();
    z_name.append("_z");
    let z = ExtExpr::Param(z_name);
    let mut sum = ExtExpr::zero();
    let mut i: usize = 0;
    while i < values.len()
        invariant
            i <= values@.len(),
            name@ == relation.name_s(),
            is_weighted(sum, name@, values@, i as nat),
        decreases values@.len() - i,
    {
        let mut alpha_name = name.clone();
        alpha_name.append("_alpha");
        append_decimal(&mut alpha_name, i as u64);
        let power = ExtExpr::Param(alpha_name);
        assert(is_alpha(power, name@, i as int));
        let term = power.mul(ExtExpr::from_base(values[i].duplicate()));
        sum = sum.add(term);
        i += 1;
    }
    sum.sub(z)
}

/// The name of the `k`-th intermediate.
pub open spec fn intermediate_name(k: nat) -> Seq<char> {
    "intermediate"@ + decimal_s(k)
}

fn intermediate_text(k: usize) -> (r: String)
    ensures
        r@ == intermediate_name(k as nat),
{
    let mut name = String::from_str("intermediate");
    append_decimal(&mut name, k as u64);
    name
}

/// The four coordinate columns of a secure column from `first` on, at an offset.
pub open spec fn secure_mask(interaction: usize, first: int, offset: isize) -> ExtExpr {
    let at = |j: int|
        Box::new(
            BaseExpr::Col(ColumnExpr { interaction, idx: (first + j) as usize, offset }),
        );
    ExtExpr::SecureCol(at(0), at(1), at(2), at(3))
}

/// How many batches of `size` hold `n` fractions.
pub open spec fn batch_count(n: nat, size: nat) -> nat {
    if n == 0 {
        0
    } else {
        ((n - 1) / size as int + 1) as nat
    }
}

pub open spec fn smaller(a: int, b: int) -> int {
    if a <= b {
        a
    } else {
        b
    }
}

impl FormalLogupAtRow {
    /// The sum of the `i`-th batch.
    pub open spec fn batch(self, i: int, size: nat) -> Fraction<ExtExpr, ExtExpr> {
        batch_sum(self.fracs@, i * size, smaller((i + 1) * size, self.fracs@.len() as int))
    }

    /// The constraint of the `i`-th batch, where the lookup columns start at `first`: the step
    /// from the previous column is the batch's sum. The last column also steps from the previous
    /// row, and its step is lowered by the shift.
    pub open spec fn batch_constraint(self, first: int, i: int, size: nat) -> ExtExpr {
        let sum = self.batch(i, size);
        let current = secure_mask(self.interaction, first + 4 * i, 0);
        let before = if i == 0 {
            ExtExpr::Const(QM31::zero_el())
        } else {
            secure_mask(self.interaction, first + 4 * (i - 1), 0)
        };
        let step = if i + 1 < batch_count(self.fracs@.len(), size) {
            ExtExpr::Sub(Box::new(current), Box::new(before))
        } else {
            let previous_row = secure_mask(self.interaction, first + 4 * i, (-1) as isize);
            ExtExpr::Add(
                Box::new(
                    ExtExpr::Sub(
                        Box::new(ExtExpr::Sub(Box::new(current), Box::new(previous_row))),
                        Box::new(before),
                    ),
                ),
                Box::new(self.cumsum_shift),
            )
        };
        ExtExpr::Sub(
            Box::new(ExtExpr::Mul(Box::new(step), Box::new(sum.denominator))),
            Box::new(sum.numerator),
        )
    }
}

/// An evaluator that keeps every constraint as an expression.
pub struct ExprEvaluator {
    pub column_index_per_interaction: [usize; 4],
    pub preprocessed_column_access_index: usize,
    pub constraints: Vec<ExtExpr>,
    pub logup: FormalLogupAtRow,
    pub intermediates: NameMap<BaseExpr>,
    pub ext_intermediates: NameMap<ExtExpr>,
    pub ordered: Vec<String>,
}

impl Default for ExprEvaluator {
    fn default() -> (r: ExprEvaluator)
        ensures
            r.wf(),
            r.column_index_per_interaction@ == seq![0usize, 0, 0, 0],
            r.preprocessed_column_access_index == 0,
            r.constraints@.len() == 0,
            r.ordered@.len() == 0,
            r.orderly(),
            r.logup.interaction == INTERACTION_TRACE_IDX,
            r.logup.fracs@.len() == 0,
            r.logup.is_finalized,
            is_formal_shift(r.logup.cumsum_shift),
    {
        ExprEvaluator::new()
    }
}

impl ExprEvaluator {
    /// The intermediates are named in order, and each name stands for one expression.
    pub open spec fn wf(self) -> bool {
        &&& self.ordered@.len() == self.intermediates.size() + self.ext_intermediates.size()
        &&& forall|k: int|
            0 <= k < self.ordered@.len() ==> (#[trigger] self.ordered@[k])@ == intermediate_name(
                k as nat,
            )
        &&& forall|n: Seq<char>|
            (#[trigger] self.intermediates.value_of(n)) is Some
                ==> self.ext_intermediates.value_of(n) is None && self.is_intermediate(n)
        &&& forall|n: Seq<char>|
            (#[trigger] self.ext_intermediates.value_of(n)) is Some ==> self.is_intermediate(n)
        &&& forall|k: int|
            0 <= k < self.ordered@.len() ==> self.intermediates.value_of(
                (#[trigger] self.ordered@[k])@,
            ) is Some || self.ext_intermediates.value_of(self.ordered@[k]@) is Some
    }

    pub open spec fn is_intermediate(self, n: Seq<char>) -> bool {
        exists|k: int| 0 <= k < self.ordered@.len() && (#[trigger] self.ordered@[k])@ == n
    }

    pub fn new() -> (r: ExprEvaluator)
        ensures
            r.wf(),
            r.column_index_per_interaction@ == seq![0usize, 0, 0, 0],
            r.preprocessed_column_access_index == 0,
            r.constraints@.len() == 0,
            r.ordered@.len() == 0,
            r.orderly(),
            r.logup.interaction == INTERACTION_TRACE_IDX,
            r.logup.fracs@.len() == 0,
            r.logup.is_finalized,
            is_formal_shift(r.logup.cumsum_shift),
    {
        let r = ExprEvaluator {
            column_index_per_interaction: [0, 0, 0, 0],
            preprocessed_column_access_index: 0,
            constraints: Vec::new(),
            logup: FormalLogupAtRow::new(INTERACTION_TRACE_IDX),
            intermediates: NameMap::new(),
            ext_intermediates: NameMap::new(),
            ordered: Vec::new(),
        };
        assert(r.column_index_per_interaction@ =~= seq![0usize, 0, 0, 0]);
        r
    }

    /// The names of the intermediates, each behind those it may depend on.
    pub fn ordered_intermediates(&self) -> (r: &[String])
        ensures
            r@ == self.ordered@,
    {
        self.ordered.as_slice()
    }

    /// The next column of an interaction, at the given offsets.
    pub fn next_interaction_mask(&mut self, interaction: usize, offsets: &[isize]) -> (r: Vec<
        BaseExpr,
    >)
        requires
            interaction < MAX_N_INTERACTIONS,
            old(self).column_index_per_interaction@[interaction as int] < usize::MAX,
        ensures
            r@ == Seq::new(
                offsets@.len(),
                |i: int|
                    BaseExpr::Col(
                        ColumnExpr {
                            interaction,
                            idx: old(self).column_index_per_interaction@[interaction as int],
                            offset: offsets@[i],
                        },
                    ),
            ),
            *final(self) == (ExprEvaluator {
                column_index_per_interaction: final(self).column_index_per_interaction,
                ..*old(self)
            }),
            final(self).column_index_per_interaction@ == old(self).column_index_per_interaction@.update(
                interaction as int,
                (old(self).column_index_per_interaction@[interaction as int] + 1) as usize,
            ),
    {
        let column_index = self.column_index_per_interaction[interaction];
        self.column_index_per_interaction[interaction] = column_index + 1;
        let mut r: Vec<BaseExpr> = Vec::new();
        let mut i: usize = 0;
        while i < offsets.len()
            invariant
                i <= offsets@.len(),
                r@.len() == i,
                forall|j: int|
                    0 <= j < i ==> #[trigger] r@[j] == BaseExpr::Col(
                        ColumnExpr { interaction, idx: column_index, offset: offsets@[j] },
                    ),
            decreases offsets@.len() - i,
        {
            r.push(BaseExpr::Col(ColumnExpr { interaction, idx: column_index, offset: offsets[i] }));
            i += 1;
        }
        assert(r@ =~= Seq::new(
            offsets@.len(),
            |i: int|
                BaseExpr::Col(
                    ColumnExpr {
                        interaction,
                        idx: old(self).column_index_per_interaction@[interaction as int],
                        offset: offsets@[i],
                    },
                ),
        ));
        r
    }

    /// The next column of the execution trace, at the current row.
    pub fn next_trace_mask(&mut self) -> (r: BaseExpr)
        requires
            old(self).column_index_per_interaction@[ORIGINAL_TRACE_IDX as int] < usize::MAX,
        ensures
            r == BaseExpr::Col(
                ColumnExpr {
                    interaction: ORIGINAL_TRACE_IDX,
                    idx: old(self).column_index_per_interaction@[ORIGINAL_TRACE_IDX as int],
                    offset: 0,
                },
            ),
            *final(self) == (ExprEvaluator {
                column_index_per_interaction: final(self).column_index_per_interaction,
                ..*old(self)
            }),
            final(self).column_index_per_interaction@ == old(self).column_index_per_interaction@.update(
                ORIGINAL_TRACE_IDX as int,
                (old(self).column_index_per_interaction@[ORIGINAL_TRACE_IDX as int] + 1) as usize,
            ),
    {
        let offsets: [isize; 1] = [0];
        let mut mask = self.next_interaction_mask(ORIGINAL_TRACE_IDX, &offsets);
        mask.swap_remove(0)
    }

    pub fn add_constraint(&mut self, constraint: ExtExpr)
        ensures
            *final(self) == (ExprEvaluator {
                constraints: final(self).constraints,
                ..*old(self)
            }),
            final(self).constraints@ == old(self).constraints@.push(constraint),
    {
        self.constraints.push(constraint);
    }

    /// The secure element with the given coordinates.
    pub fn combine_ef(a: BaseExpr, b: BaseExpr, c: BaseExpr, d: BaseExpr) -> (r: ExtExpr)
        ensures
            r == ExtExpr::SecureCol(Box::new(a), Box::new(b), Box::new(c), Box::new(d)),
    {
        ExtExpr::SecureCol(Box::new(a), Box::new(b), Box::new(c), Box::new(d))
    }

    /// The next access to a preprocessed column.
    pub fn get_preprocessed_column(&mut self, column: PreProcessedColumnId) -> (r: BaseExpr)
        requires
            old(self).preprocessed_column_access_index < usize::MAX,
        ensures
            r == BaseExpr::PreprocessedColumn(
                PreprocessedColumnExpr {
                    id: column,
                    index: old(self).preprocessed_column_access_index,
                },
            ),
            *final(self) == (ExprEvaluator {
                preprocessed_column_access_index: (old(self).preprocessed_column_access_index
                    + 1) as usize,
                ..*old(self)
            }),
    {
        let access_index = self.preprocessed_column_access_index;
        self.preprocessed_column_access_index = access_index + 1;
        BaseExpr::PreprocessedColumn(PreprocessedColumnExpr::new(column, access_index))
    }

    proof fn lemma_fresh_name(self)
        requires
            self.wf(),
        ensures
            !self.is_intermediate(intermediate_name(self.ordered@.len())),
            self.intermediates.value_of(intermediate_name(self.ordered@.len())) is None,
            self.ext_intermediates.value_of(intermediate_name(self.ordered@.len())) is None,
    {
        let n = self.ordered@.len();
        let name = intermediate_name(n);
        if self.is_intermediate(name) {
            let k = choose|k: int|
                0 <= k < self.ordered@.len() && (#[trigger] self.ordered@[k])@ == name;
            let prefix = "intermediate"@;
            let other = intermediate_name(k as nat);
            assert(name.subrange(prefix.len() as int, name.len() as int) =~= decimal_s(n));
            assert(other.subrange(prefix.len() as int, other.len() as int) =~= decimal_s(k as nat));
            lemma_decimal_injective(k as nat, n);
        }
    }

    proof fn lemma_named(self, before: ExprEvaluator, name: String)
        requires
            before.wf(),
            self.ordered@ == before.ordered@.push(name),
            name@ == intermediate_name(before.ordered@.len()),
            self.intermediates.size() + self.ext_intermediates.size() == self.ordered@.len(),
            forall|n: Seq<char>|
                n != name@ ==> #[trigger] self.intermediates.value_of(n)
                    == before.intermediates.value_of(n),
            forall|n: Seq<char>|
                n != name@ ==> #[trigger] self.ext_intermediates.value_of(n)
                    == before.ext_intermediates.value_of(n),
            self.intermediates.value_of(name@) is Some != self.ext_intermediates.value_of(
                name@,
            ) is Some,
        ensures
            self.wf(),
    {
        assert(self.ordered@.last() == name);
        let m = before.ordered@.len();
        assert(self.ordered@[m as int] == name);
        assert forall|n: Seq<char>| before.is_intermediate(n) implies self.is_intermediate(n) by {
            let k = choose|k: int|
                0 <= k < before.ordered@.len() && (#[trigger] before.ordered@[k])@ == n;
            assert(self.ordered@[k]@ == n);
        }
        assert(self.is_intermediate(name@));
        assert forall|k: int| 0 <= k < self.ordered@.len() implies self.intermediates.value_of(
            (#[trigger] self.ordered@[k])@,
        ) is Some || self.ext_intermediates.value_of(self.ordered@[k]@) is Some by {
            if k < m {
                assert(self.ordered@[k] == before.ordered@[k]);
                before.lemma_fresh_name();
                assert(before.is_intermediate(before.ordered@[k]@));
            }
        }
        assert forall|k: int| 0 <= k < self.ordered@.len() implies (#[trigger] self.ordered@[k])@
            == intermediate_name(k as nat) by {
            if k < m {
                assert(self.ordered@[k] == before.ordered@[k]);
            }
        }
    }

    /// Gives a base expression a name.
    pub fn add_intermediate(&mut self, expr: BaseExpr) -> (r: BaseExpr)
        requires
            old(self).wf(),
        ensures
            final(self).wf(),
            r is Param && r->Param_0@ == intermediate_name(old(self).ordered@.len()),
            final(self).ordered@ == old(self).ordered@.push(r->Param_0),
            forall|n: Seq<char>|
                #[trigger] final(self).intermediates.value_of(n) == if n == r->Param_0@ {
                    Some(expr)
                } else {
                    old(self).intermediates.value_of(n)
                },
            *final(self) == (ExprEvaluator {
                intermediates: final(self).intermediates,
                ordered: final(self).ordered,
                ..*old(self)
            }),
            old(self).orderly() && old(self).knows_names(ExtExpr::from_base_s(expr))
                ==> final(self).orderly(),
    {
        let name = intermediate_text(self.ordered.len());
        proof {
            self.lemma_fresh_name();
        }
        let ghost given = ExtExpr::from_base_s(expr);
        self.intermediates.insert(name.clone(), expr);
        self.ordered.push(name.clone());
        proof {
            self.lemma_named(*old(self), name);
            if old(self).orderly() && old(self).knows_names(given) {
                self.lemma_orderly_grows(*old(self), name, given);
            }
        }
        BaseExpr::Param(name)
    }

    /// Gives an expression a name.
    pub fn add_extension_intermediate(&mut self, expr: ExtExpr) -> (r: ExtExpr)
        requires
            old(self).wf(),
        ensures
            final(self).wf(),
            r is Param && r->Param_0@ == intermediate_name(old(self).ordered@.len()),
            final(self).ordered@ == old(self).ordered@.push(r->Param_0),
            forall|n: Seq<char>|
                #[trigger] final(self).ext_intermediates.value_of(n) == if n == r->Param_0@ {
                    Some(expr)
                } else {
                    old(self).ext_intermediates.value_of(n)
                },
            *final(self) == (ExprEvaluator {
                ext_intermediates: final(self).ext_intermediates,
                ordered: final(self).ordered,
                ..*old(self)
            }),
            old(self).orderly() && old(self).knows_names(expr) ==> final(self).orderly(),
    {
        let name = intermediate_text(self.ordered.len());
        proof {
            self.lemma_fresh_name();
        }
        let ghost given = expr;
        self.ext_intermediates.insert(name.clone(), expr);
        self.ordered.push(name.clone());
        proof {
            self.lemma_named(*old(self), name);
            if old(self).orderly() && old(self).knows_names(given) {
                self.lemma_orderly_grows(*old(self), name, given);
            }
        }
        ExtExpr::Param(name)
    }

    /// Adds a fraction to the lookup sum.
    pub fn write_logup_frac(&mut self, fraction: Fraction<ExtExpr, ExtExpr>)
        ensures
            final(self).logup.fracs@ == old(self).logup.fracs@.push(fraction),
            final(self).logup.is_finalized == (old(self).logup.is_finalized && old(self).logup.fracs@.len() > 0),
            *final(self) == (ExprEvaluator {
                logup: (FormalLogupAtRow {
                    fracs: final(self).logup.fracs,
                    is_finalized: final(self).logup.is_finalized,
                    ..old(self).logup
                }),
                ..*old(self)
            }),
    {
        if self.logup.fracs.len() == 0 {
            self.logup.is_finalized = false;
        }
        self.logup.fracs.push(fraction);
    }

    /// Adds one use of a relation to the lookup sum. The combination of its values becomes an
    /// intermediate.
    pub fn add_to_relation<R: Relation>(&mut self, entry: RelationEntry<'_, BaseExpr, ExtExpr, R>)
        requires
            old(self).wf(),
            entry.values@.len() <= entry.relation.size_s(),
        ensures
            final(self).wf(),
            final(self).ordered@.len() == old(self).ordered@.len() + 1,
            final(self).ordered@.drop_last() == old(self).ordered@,
            match final(self).ext_intermediates.value_of(
                intermediate_name(old(self).ordered@.len()),
            ) {
                Some(e) => is_combination(e, entry.relation.name_s(), entry.values@),
                None => false,
            },
            forall|n: Seq<char>|
                n != intermediate_name(old(self).ordered@.len()) ==> #[trigger] final(self).ext_intermediates.value_of(n) == old(self).ext_intermediates.value_of(n),
            final(self).logup.fracs@.len() == old(self).logup.fracs@.len() + 1,
            final(self).logup.fracs@.drop_last() == old(self).logup.fracs@,
            final(self).logup.fracs@.last().numerator == entry.multiplicity,
            final(self).logup.fracs@.last().denominator is Param,
            final(self).logup.fracs@.last().denominator->Param_0@ == intermediate_name(
                old(self).ordered@.len(),
            ),
            final(self).logup.is_finalized == (old(self).logup.is_finalized && old(self).logup.fracs@.len() > 0),
            *final(self) == (ExprEvaluator {
                logup: (FormalLogupAtRow {
                    fracs: final(self).logup.fracs,
                    is_finalized: final(self).logup.is_finalized,
                    ..old(self).logup
                }),
                ext_intermediates: final(self).ext_intermediates,
                ordered: final(self).ordered,
                ..*old(self)
            }),
            old(self).orderly() && (forall|i: int|
                0 <= i < entry.values@.len() ==> old(self).knows_names(
                    ExtExpr::from_base_s(#[trigger] entry.values@[i]),
                )) ==> final(self).orderly(),
    {
        let combination = combine_formal(entry.relation, entry.values);
        let ghost combined = combination;
        let intermediate = self.add_extension_intermediate(combination);
        assert(self.ordered@.drop_last() =~= old(self).ordered@);
        let ghost named = *self;
        self.write_logup_frac(Fraction::new(entry.multiplicity, intermediate));
        assert(self.logup.fracs@.drop_last() =~= old(self).logup.fracs@);
        proof {
            if old(self).orderly() && (forall|i: int|
                0 <= i < entry.values@.len() ==> old(self).knows_names(
                    ExtExpr::from_base_s(#[trigger] entry.values@[i]),
                )) {
                lemma_combination_known(
                    *old(self),
                    combined,
                    entry.relation.name_s(),
                    entry.values@,
                );
                self.lemma_orderly_same(named);
            }
        }
    }

    /// The next four columns of an interaction as one secure column, at the given offsets.
    pub fn next_extension_interaction_mask(&mut self, interaction: usize, offsets: &[isize]) -> (r:
        Vec<ExtExpr>)
        requires
            interaction < MAX_N_INTERACTIONS,
            old(self).column_index_per_interaction@[interaction as int] + 4 <= usize::MAX,
        ensures
            r@.len() == offsets@.len(),
            forall|i: int|
                0 <= i < r@.len() ==> #[trigger] r@[i] == secure_mask(
                    interaction,
                    old(self).column_index_per_interaction@[interaction as int] as int,
                    offsets@[i],
                ),
            *final(self) == (ExprEvaluator {
                column_index_per_interaction: final(self).column_index_per_interaction,
                ..*old(self)
            }),
            final(self).column_index_per_interaction@ == old(self).column_index_per_interaction@.update(
                interaction as int,
                (old(self).column_index_per_interaction@[interaction as int] + 4) as usize,
            ),
    {
        let ghost first = self.column_index_per_interaction@[interaction as int];
        let a = self.next_interaction_mask(interaction, offsets);
        let b = self.next_interaction_mask(interaction, offsets);
        let c = self.next_interaction_mask(interaction, offsets);
        let d = self.next_interaction_mask(interaction, offsets);
        assert(self.column_index_per_interaction@ =~= old(self).column_index_per_interaction@.update(interaction as int, (first + 4) as usize));
        let mut r: Vec<ExtExpr> = Vec::new();
        let mut i: usize = 0;
        while i < offsets.len()
            invariant
                i <= offsets@.len(),
                first + 4 <= usize::MAX,
                a@.len() == offsets@.len(),
                b@.len() == offsets@.len(),
                c@.len() == offsets@.len(),
                d@.len() == offsets@.len(),
                forall|j: int|
                    0 <= j < offsets@.len() ==> #[trigger] a@[j] == BaseExpr::Col(
                        ColumnExpr { interaction, idx: first, offset: offsets@[j] },
                    ),
                forall|j: int|
                    0 <= j < offsets@.len() ==> #[trigger] b@[j] == BaseExpr::Col(
                        ColumnExpr { interaction, idx: (first + 1) as usize, offset: offsets@[j] },
                    ),
                forall|j: int|
                    0 <= j < offsets@.len() ==> #[trigger] c@[j] == BaseExpr::Col(
                        ColumnExpr { interaction, idx: (first + 2) as usize, offset: offsets@[j] },
                    ),
                forall|j: int|
                    0 <= j < offsets@.len() ==> #[trigger] d@[j] == BaseExpr::Col(
                        ColumnExpr { interaction, idx: (first + 3) as usize, offset: offsets@[j] },
                    ),
                r@.len() == i,
                forall|j: int|
                    0 <= j < i ==> #[trigger] r@[j] == secure_mask(
                        interaction,
                        first as int,
                        offsets@[j],
                    ),
            decreases offsets@.len() - i,
        {
            r.push(
                ExprEvaluator::combine_ef(
                    a[i].duplicate(),
                    b[i].duplicate(),
                    c[i].duplicate(),
                    d[i].duplicate(),
                ),
            );
            i += 1;
        }
        r
    }
}

} // verus!
