//! Lookup relations, and the recovery of their parameters.

use vstd::prelude::*;

use crate::fields::m31::M31;
use crate::fields::qm31::QM31;
use crate::fields::{lemma_canon_both, lemma_opposite_twice, Field};
use crate::framework::evaluator::Fraction;
use crate::framework::names::NameMap;
use crate::poly::eval::lemma_scaled_is_times;

verus! {

/// A named combination of up to `size_s` values into one secure element.
pub trait Relation {
    spec fn name_s(&self) -> Seq<char>;

    spec fn size_s(&self) -> nat;

    spec fn combine_s(&self, values: Seq<M31>) -> QM31;

    fn get_name(&self) -> (r: String)
        ensures
            r@ == self.name_s(),
    ;

    fn get_size(&self) -> (r: usize)
        ensures
            r == self.size_s(),
    ;

    fn combine(&self, values: &[M31]) -> (r: QM31)
        requires
            values@.len() <= self.size_s(),
        ensures
            r == self.combine_s(values@),
    ;
}

/// One use of a relation: with which multiplicity and on which values.
pub struct RelationEntry<'a, F, EF, R> {
    pub relation: &'a R,
    pub multiplicity: EF,
    pub values: &'a [F],
}

impl<'a, F, EF, R> RelationEntry<'a, F, EF, R> {
    pub fn new(relation: &'a R, multiplicity: EF, values: &'a [F]) -> (r: RelationEntry<
        'a,
        F,
        EF,
        R,
    >)
        ensures
            r.relation == relation,
            r.multiplicity == multiplicity,
            r.values@ == values@,
    {
        RelationEntry { relation, multiplicity, values }
    }
}

/// `sum_i alpha_i * v_i` over the first `n` values.
pub open spec fn weighted(alphas: Seq<QM31>, values: Seq<M31>, n: nat) -> QM31
    decreases n,
{
    if n == 0 {
        QM31::zero_el()
    } else {
        weighted(alphas, values, (n - 1) as nat).plus(alphas[n - 1].scaled(values[n - 1]))
    }
}

/// A relation given by its elements: `sum_i alpha_i * v_i - z`.
#[derive(Clone, Debug, PartialEq, Eq)]
pub struct LookupElements {
    pub name: String,
    pub z: QM31,
    pub alpha_powers: Vec<QM31>,
}

impl LookupElements {
    /// Elements that are all one.
    pub fn dummy(name: String, size: usize) -> (r: LookupElements)
        ensures
            r.name == name,
            r.z == QM31::one_el(),
            r.alpha_powers@ == Seq::new(size as nat, |i: int| QM31::one_el()),
    {
        let mut alpha_powers: Vec<QM31> = Vec::new();
        let mut i: usize = 0;
        while i < size
            invariant
                i <= size,
                alpha_powers@ == Seq::new(i as nat, |i: int| QM31::one_el()),
            decreases size - i,
        {
            alpha_powers.push(QM31::one());
            i += 1;
            assert(alpha_powers@ =~= Seq::new(i as nat, |i: int| QM31::one_el()));
        }
        LookupElements { name, z: QM31::one(), alpha_powers }
    }

    /// The elements of a drawn pair: `z` and the powers of `alpha`, from the zeroth.
    pub fn from_drawn(name: String, z: QM31, alpha: QM31, size: usize) -> (r: LookupElements)
        ensures
            r.name == name,
            r.z == z,
            r.alpha_powers@.len() == size,
            size > 0 ==> r.alpha_powers@[0] == QM31::one_el(),
            forall|i: int|
                0 <= i < size - 1 ==> #[trigger] r.alpha_powers@[i + 1] == r.alpha_powers@[i].times(
                    alpha,
                ),
    {
        let mut alpha_powers: Vec<QM31> = Vec::new();
        let mut power = QM31::one();
        let mut i: usize = 0;
        while i < size
            invariant
                i <= size,
                alpha_powers@.len() == i,
                i == 0 ==> power == QM31::one_el(),
                i > 0 ==> alpha_powers@[0] == QM31::one_el(),
                i > 0 ==> power == alpha_powers@[i - 1].times(alpha),
                forall|j: int|
                    0 <= j < i - 1 ==> #[trigger] alpha_powers@[j + 1] == alpha_powers@[j].times(
                        alpha,
                    ),
            decreases size - i,
        {
            alpha_powers.push(power);
            power = power.mul(alpha);
            i += 1;
        }
        LookupElements { name, z, alpha_powers }
    }
}

impl Relation for LookupElements {
    open spec fn name_s(&self) -> Seq<char> {
        self.name@
    }

    open spec fn size_s(&self) -> nat {
        self.alpha_powers@.len()
    }

    open spec fn combine_s(&self, values: Seq<M31>) -> QM31 {
        weighted(self.alpha_powers@, values, values.len()).minus(self.z)
    }

    fn get_name(&self) -> (r: String) {
        self.name.clone()
    }

    fn get_size(&self) -> (r: usize) {
        self.alpha_powers.len()
    }

    fn combine(&self, values: &[M31]) -> (r: QM31) {
        let mut sum = QM31::zero();
        let mut i: usize = 0;
        while i < values.len()
            invariant
                i <= values@.len() <= self.alpha_powers@.len(),
                sum == weighted(self.alpha_powers@, values@, i as nat),
            decreases values@.len() - i,
        {
            sum = sum.add(self.alpha_powers[i].mul_m31(values[i]));
            i += 1;
        }
        sum.sub(self.z)
    }
}

/// The `z` and `alpha_i` of one relation.
#[derive(Clone, Debug, PartialEq, Eq)]
pub struct RelationParameterSet {
    pub z: QM31,
    pub alphas: Vec<QM31>,
}

/// The unit vector with a one at `i`; all zero where `i` is no position.
pub open spec fn basis(n: nat, i: int) -> Seq<M31> {
    Seq::new(n, |j: int| if j == i { M31(1) } else { M31(0) })
}

/// The `z` that a relation's combinations reveal.
pub open spec fn revealed_z<R: Relation>(relation: &R) -> QM31 {
    relation.combine_s(basis(relation.size_s(), -1)).opposite()
}

/// The `alpha_i` that a relation's combinations reveal.
pub open spec fn revealed_alpha<R: Relation>(relation: &R, i: int) -> QM31 {
    relation.combine_s(basis(relation.size_s(), i)).plus(revealed_z(relation))
}

/// The parameters that a relation's combinations reveal.
pub open spec fn is_revealed<R: Relation>(relation: &R, p: RelationParameterSet) -> bool {
    p.z == revealed_z(relation) && p.alphas@ == Seq::new(
        relation.size_s(),
        |i: int| revealed_alpha(relation, i),
    )
}

/// Recovers the parameters of every relation that is used, by combining unit vectors.
#[derive(Clone, Debug)]
pub struct RelationParameterEvaluator {
    parameters: NameMap<RelationParameterSet>,
}

impl Default for RelationParameterEvaluator {
    fn default() -> (r: RelationParameterEvaluator)
        ensures
            forall|n: Seq<char>| #[trigger] r.recovered(n) is None,
            r.count() == 0,
    {
        RelationParameterEvaluator::new()
    }
}

impl RelationParameterEvaluator {
    /// What was recovered for a name.
    pub closed spec fn recovered(self, name: Seq<char>) -> Option<RelationParameterSet> {
        self.parameters.value_of(name)
    }

    /// How many names have parameters.
    pub closed spec fn count(self) -> nat {
        self.parameters.size()
    }

    pub fn new() -> (r: RelationParameterEvaluator)
        ensures
            forall|n: Seq<char>| #[trigger] r.recovered(n) is None,
            r.count() == 0,
    {
        RelationParameterEvaluator { parameters: NameMap::new() }
    }

    pub fn parameters(&self) -> (r: &NameMap<RelationParameterSet>)
        ensures
            forall|n: Seq<char>| #[trigger] r.value_of(n) == self.recovered(n),
            r.size() == self.count(),
    {
        &self.parameters
    }

    pub fn into_parameters(self) -> (r: NameMap<RelationParameterSet>)
        ensures
            forall|n: Seq<char>| #[trigger] r.value_of(n) == self.recovered(n),
            r.size() == self.count(),
    {
        self.parameters
    }

    /// The values of a mask: each column is one everywhere.
    pub fn next_interaction_mask(&mut self, _interaction: usize, offsets: &[isize]) -> (r: Vec<M31>)
        ensures
            r@ == Seq::new(offsets@.len(), |i: int| M31(1)),
            *final(self) == *old(self),
    {
        let mut r: Vec<M31> = Vec::new();
        let mut i: usize = 0;
        while i < offsets.len()
            invariant
                i <= offsets@.len(),
                r@ == Seq::new(i as nat, |i: int| M31(1)),
            decreases offsets@.len() - i,
        {
            r.push(M31(1));
            i += 1;
            assert(r@ =~= Seq::new(i as nat, |i: int| M31(1)));
        }
        r
    }

    /// The element with the given coordinates.
    pub fn combine_ef(values: [M31; 4]) -> (r: QM31)
        ensures
            r.coords() == values@,
    {
        let r = QM31::from_m31_array(values);
        assert(r.coords() =~= values@);
        r
    }

    /// Constraints have no parameters.
    pub fn add_constraint(&mut self, _constraint: QM31)
        ensures
            *final(self) == *old(self),
    {
    }

    /// Fractions have no parameters.
    pub fn write_logup_frac(&mut self, _fraction: Fraction<QM31, QM31>)
        ensures
            *final(self) == *old(self),
    {
    }

    pub fn finalize_logup_batched(&mut self, _batch_size: usize)
        ensures
            *final(self) == *old(self),
    {
    }

    pub fn finalize_logup(&mut self)
        ensures
            *final(self) == *old(self),
    {
    }

    pub fn finalize_logup_in_pairs(&mut self)
        ensures
            *final(self) == *old(self),
    {
    }

    /// Records the parameters of the relation of an entry. A relation met again under the same
    /// name has the same parameters.
    pub fn add_to_relation<R: Relation>(&mut self, entry: RelationEntry<'_, M31, QM31, R>)
        requires
            match old(self).recovered(entry.relation.name_s()) {
                Some(p) => is_revealed(entry.relation, p),
                None => true,
            },
        ensures
            match final(self).recovered(entry.relation.name_s()) {
                Some(p) => is_revealed(entry.relation, p),
                None => false,
            },
            forall|n: Seq<char>|
                n != entry.relation.name_s() ==> #[trigger] final(self).recovered(n) == old(
                    self,
                ).recovered(n),
            final(self).count() == old(self).count() + if old(self).recovered(
                entry.relation.name_s(),
            ) is Some {
                0nat
            } else {
                1
            },
    {
        let relation = entry.relation;
        let arity = relation.get_size();
        let mut vector: Vec<M31> = Vec::new();
        let mut i: usize = 0;
        while i < arity
            invariant
                i <= arity,
                vector@ == basis(i as nat, -1),
            decreases arity - i,
        {
            vector.push(M31(0));
            i += 1;
            assert(vector@ =~= basis(i as nat, -1));
        }
        let z = relation.combine(vector.as_slice()).neg();
        let mut alphas: Vec<QM31> = Vec::new();
        let mut i: usize = 0;
        while i < arity
            invariant
                i <= arity,
                arity == relation.size_s(),
                vector@ == basis(arity as nat, -1),
                z == revealed_z(relation),
                alphas@ == Seq::new(i as nat, |i: int| revealed_alpha(relation, i)),
            decreases arity - i,
        {
            vector.set(i, M31(1));
            assert(vector@ =~= basis(arity as nat, i as int));
            let alpha = relation.combine(vector.as_slice()).add(z);
            vector.set(i, M31(0));
            assert(vector@ =~= basis(arity as nat, -1));
            alphas.push(alpha);
            i += 1;
            assert(alphas@ =~= Seq::new(i as nat, |i: int| revealed_alpha(relation, i)));
        }
        self.parameters.insert(relation.get_name(), RelationParameterSet { z, alphas });
    }
}

proof fn lemma_scaled_unit(a: QM31)
    ensures
        a.scaled(M31(0)) == QM31::zero_el(),
        a.scaled(M31(1)) == a.canon(),
{
    crate::fields::qm31::lemma_coordinates(a, a, M31(0));
    crate::fields::qm31::lemma_coordinates(a, a, M31(1));
    assert(M31(0) == M31::zero_el() && M31(1) == M31::one_el());
    crate::fields::lemma_mul_zero(a.0.0);
    crate::fields::lemma_mul_zero(a.0.1);
    crate::fields::lemma_mul_zero(a.1.0);
    crate::fields::lemma_mul_zero(a.1.1);
    M31::law_mul_one(a.0.0);
    M31::law_mul_one(a.0.1);
    M31::law_mul_one(a.1.0);
    M31::law_mul_one(a.1.1);
}

proof fn lemma_weighted_basis(alphas: Seq<QM31>, size: nat, i: int, n: nat)
    requires
        n <= size == alphas.len(),
        i < size as int,
    ensures
        weighted(alphas, basis(size, i), n) == if 0 <= i < n {
            alphas[i].canon()
        } else {
            QM31::zero_el()
        },
    decreases n,
{
    if n > 0 {
        let k = n - 1;
        lemma_weighted_basis(alphas, size, i, k as nat);
        lemma_scaled_unit(alphas[k]);
        let z = QM31::zero_el();
        QM31::law_add_zero(z);
        QM31::law_canon_results(z, z);
        if 0 <= i < n {
            let a = alphas[i];
            QM31::law_canon_results(a, a);
            QM31::law_add_zero(a.canon());
            QM31::law_add_comm(z, a.canon());
        }
    }
}

/// A relation is affine in its values: `sum_i alpha_i * v_i - z`.
pub open spec fn is_affine<R: Relation>(relation: &R, alphas: Seq<QM31>, z: QM31) -> bool {
    &&& alphas.len() == relation.size_s()
    &&& forall|values: Seq<M31>|
        values.len() <= relation.size_s() ==> #[trigger] relation.combine_s(values) == weighted(
            alphas,
            values,
            values.len(),
        ).minus(z)
}

/// The recovered `z` of an affine relation is its own.
proof fn lemma_recovers_z<R: Relation>(relation: &R, alphas: Seq<QM31>, z: QM31)
    requires
        is_affine(relation, alphas, z),
    ensures
        revealed_z(relation) == z.canon(),
{
    let n = alphas.len();
    let zero = QM31::zero_el();
    assert(basis(n, -1).len() == n);
    lemma_weighted_basis(alphas, n, -1, n);
    QM31::law_sub(zero, z);
    QM31::law_add_comm(zero, z.opposite());
    QM31::law_add_zero(z.opposite());
    QM31::law_canon_results(z, z);
    lemma_opposite_twice(z);
}

/// The recovered parameters of an affine relation are its own.
pub proof fn lemma_recovers_parameters<R: Relation>(
    relation: &R,
    alphas: Seq<QM31>,
    z: QM31,
    i: int,
)
    requires
        is_affine(relation, alphas, z),
        0 <= i < alphas.len(),
    ensures
        revealed_z(relation) == z.canon(),
        revealed_alpha(relation, i) == alphas[i].canon(),
{
    let n = alphas.len();
    let a = alphas[i];
    lemma_recovers_z(relation, alphas, z);
    assert(basis(n, i).len() == n);
    lemma_weighted_basis(alphas, n, i, n);
    // (a - z) + z = a
    let c = a.canon();
    QM31::law_sub(c, z);
    QM31::law_add_assoc(c, z.opposite(), z.canon());
    QM31::law_add_comm(z.opposite(), z.canon());
    QM31::law_canon_args(z, z.opposite());
    QM31::law_add_opposite(z);
    QM31::law_add_zero(c);
    QM31::law_canon_results(a, a);
    lemma_canon_both(c, z);
}

/// Weights count by their elements, not by their representatives.
proof fn lemma_weighted_canonical(a: Seq<QM31>, b: Seq<QM31>, values: Seq<M31>, n: nat)
    requires
        n <= a.len(),
        n <= b.len(),
        forall|i: int| 0 <= i < n ==> a[i] == (#[trigger] b[i]).canon(),
    ensures
        weighted(a, values, n) == weighted(b, values, n),
    decreases n,
{
    if n > 0 {
        let k = n - 1;
        lemma_weighted_canonical(a, b, values, k as nat);
        assert(a[k] == b[k].canon());
        lemma_scaled_is_times(a[k], values[k]);
        lemma_scaled_is_times(b[k], values[k]);
        QM31::law_canon_args(b[k], crate::fields::qm31::embed(values[k]));
    }
}

/// The recovered parameters of an affine relation reproduce it: combining with them is combining
/// by the relation.
pub proof fn lemma_recovered_combines<R: Relation>(
    relation: &R,
    alphas: Seq<QM31>,
    z: QM31,
    p: RelationParameterSet,
    values: Seq<M31>,
)
    requires
        is_affine(relation, alphas, z),
        is_revealed(relation, p),
        values.len() <= relation.size_s(),
    ensures
        relation.combine_s(values) == weighted(p.alphas@, values, values.len()).minus(p.z),
{
    lemma_recovers_z(relation, alphas, z);
    assert forall|i: int| 0 <= i < values.len() implies p.alphas@[i] == (
    #[trigger] alphas[i]).canon() by {
        lemma_recovers_parameters(relation, alphas, z, i);
    }
    lemma_weighted_canonical(p.alphas@, alphas, values, values.len());
    let w = weighted(alphas, values, values.len());
    lemma_canon_both(w, z);
    lemma_canon_both(w, z.canon());
    QM31::law_canon_results(z, z);
}

/// The recovered parameters of lookup elements are the elements themselves.
pub proof fn lemma_recovers_elements(e: LookupElements, i: int)
    requires
        0 <= i < e.alpha_powers@.len(),
    ensures
        revealed_z(&e) == e.z.canon(),
        revealed_alpha(&e, i) == e.alpha_powers@[i].canon(),
{
    assert(is_affine(&e, e.alpha_powers@, e.z));
    lemma_recovers_parameters(&e, e.alpha_powers@, e.z, i);
}

/// One step of an evaluation: a relation is used, or nothing is recovered.
pub open spec fn is_step(
    before: RelationParameterEvaluator,
    after: RelationParameterEvaluator,
    used: Option<Seq<char>>,
) -> bool {
    match used {
        Some(name) => {
            &&& after.recovered(name) is Some
            &&& forall|n: Seq<char>|
                n != name ==> #[trigger] after.recovered(n) == before.recovered(n)
        },
        None => after == before,
    }
}

/// After any run of steps the names that have parameters are exactly those of the relations used.
pub proof fn lemma_names_used(
    states: Seq<RelationParameterEvaluator>,
    used: Seq<Option<Seq<char>>>,
    name: Seq<char>,
)
    requires
        states.len() == used.len() + 1,
        forall|n: Seq<char>| #[trigger] states[0].recovered(n) is None,
        forall|i: int|
            0 <= i < used.len() ==> is_step(states[i], states[i + 1], #[trigger] used[i]),
    ensures
        states.last().recovered(name) is Some <==> used.contains(Some(name)),
    decreases used.len(),
{
    if used.len() > 0 {
        let last = used.len() - 1;
        let (s, u) = (states.drop_last(), used.drop_last());
        assert forall|i: int| 0 <= i < u.len() implies is_step(s[i], s[i + 1], #[trigger] u[i]) by {
            assert(u[i] == used[i]);
        }
        lemma_names_used(s, u, name);
        assert(is_step(states[last], states[last + 1], used[last]));
        assert(s.last() == states[last]);
        if u.contains(Some(name)) {
            let i = choose|i: int| 0 <= i < u.len() && u[i] == Some(name);
            assert(used[i] == Some(name));
        }
        if used.contains(Some(name)) && used[last] != Some(name) {
            let i = choose|i: int| 0 <= i < used.len() && used[i] == Some(name);
            assert(u[i] == Some(name));
        }
    }
}

} // verus!
