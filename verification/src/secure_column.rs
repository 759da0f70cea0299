//! Columns of secure field elements, kept as four coordinate columns.

use vstd::prelude::*;

use crate::fields::cm31::CM31;
use crate::fields::m31::M31;
use crate::fields::qm31::QM31;
use crate::fields::Field;
use crate::poly::domain::CircleDomain;

verus! {

/// A column of secure field elements by its coordinates.
pub struct SecureColumnByCoords {
    pub columns: [Vec<M31>; 4],
}

impl SecureColumnByCoords {
    pub open spec fn wf(self) -> bool {
        &&& self.columns@[1].len() == self.columns@[0].len()
        &&& self.columns@[2].len() == self.columns@[0].len()
        &&& self.columns@[3].len() == self.columns@[0].len()
    }

    pub open spec fn len_s(self) -> nat {
        self.columns@[0]@.len()
    }

    /// The element in row `i`.
    pub open spec fn at_s(self, i: int) -> QM31 {
        QM31(
            CM31(self.columns@[0]@[i], self.columns@[1]@[i]),
            CM31(self.columns@[2]@[i], self.columns@[3]@[i]),
        )
    }

    /// The elements in order.
    pub open spec fn elements(self) -> Seq<QM31> {
        Seq::new(self.len_s(), |i: int| self.at_s(i))
    }

    pub fn new_empty() -> (r: SecureColumnByCoords)
        ensures
            r.wf(),
            r.elements() == Seq::<QM31>::empty(),
    {
        let r = SecureColumnByCoords { columns: [Vec::new(), Vec::new(), Vec::new(), Vec::new()] };
        assert(r.elements() =~= Seq::<QM31>::empty());
        r
    }

    /// `n` zeros.
    pub fn zeros(n: usize) -> (r: SecureColumnByCoords)
        ensures
            r.wf(),
            r.elements() == Seq::new(n as nat, |i: int| QM31::zero_el()),
    {
        let mut c0: Vec<M31> = Vec::with_capacity(n);
        let mut c1: Vec<M31> = Vec::with_capacity(n);
        let mut c2: Vec<M31> = Vec::with_capacity(n);
        let mut c3: Vec<M31> = Vec::with_capacity(n);
        for i in 0..n
            invariant
                c0.len() == i,
                c1.len() == i,
                c2.len() == i,
                c3.len() == i,
                forall|k: int| 0 <= k < i ==> #[trigger] c0@[k] == M31(0),
                forall|k: int| 0 <= k < i ==> #[trigger] c1@[k] == M31(0),
                forall|k: int| 0 <= k < i ==> #[trigger] c2@[k] == M31(0),
                forall|k: int| 0 <= k < i ==> #[trigger] c3@[k] == M31(0),
        {
            c0.push(M31(0));
            c1.push(M31(0));
            c2.push(M31(0));
            c3.push(M31(0));
        }
        let r = SecureColumnByCoords { columns: [c0, c1, c2, c3] };
        assert(r.elements() =~= Seq::new(n as nat, |i: int| QM31::zero_el()));
        r
    }

    pub fn len(&self) -> (r: usize)
        ensures
            r == self.len_s(),
    {
        self.columns[0].len()
    }

    /// The element in row `i`.
    pub fn at(&self, i: usize) -> (r: QM31)
        requires
            self.wf(),
            i < self.len_s(),
        ensures
            r == self.at_s(i as int),
            r == self.elements()[i as int],
    {
        QM31(
            CM31(self.columns[0][i], self.columns[1][i]),
            CM31(self.columns[2][i], self.columns[3][i]),
        )
    }

    /// Replaces the element in row `i`.
    pub fn set(&mut self, i: usize, value: QM31)
        requires
            old(self).wf(),
            i < old(self).len_s(),
        ensures
            final(self).wf(),
            final(self).elements() == old(self).elements().update(i as int, value),
    {
        let ghost before = self.elements();
        self.columns[0].set(i, value.0.0);
        self.columns[1].set(i, value.0.1);
        self.columns[2].set(i, value.1.0);
        self.columns[3].set(i, value.1.1);
        assert(self.elements() =~= before.update(i as int, value));
    }

    /// Appends an element.
    pub fn push(&mut self, value: QM31)
        requires
            old(self).wf(),
        ensures
            final(self).wf(),
            final(self).elements() == old(self).elements().push(value),
    {
        let ghost before = self.elements();
        self.columns[0].push(value.0.0);
        self.columns[1].push(value.0.1);
        self.columns[2].push(value.1.0);
        self.columns[3].push(value.1.1);
        assert(self.elements() =~= before.push(value));
    }
}

/// The values of a secure field polynomial on a domain, in bit-reversed order.
pub struct SecureEvaluation {
    pub domain: CircleDomain,
    pub values: SecureColumnByCoords,
}

impl SecureEvaluation {
    pub open spec fn wf(self) -> bool {
        &&& self.domain.wf()
        &&& self.values.wf()
        &&& self.values.len_s() == self.domain.size_s()
    }

    pub fn new(domain: CircleDomain, values: SecureColumnByCoords) -> (r: SecureEvaluation)
        requires
            domain.wf(),
            values.wf(),
            values.len_s() == domain.size_s(),
        ensures
            r.wf(),
            r.domain == domain,
            r.values == values,
    {
        SecureEvaluation { domain, values }
    }
}

} // verus!
