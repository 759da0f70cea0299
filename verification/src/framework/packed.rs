//! Field elements in lanes.

use vstd::prelude::*;

use crate::fields::m31::M31;
use crate::fields::qm31::QM31;
use crate::fields::Field;

verus! {

/// How many elements a packed element holds.
pub const N_LANES: usize = 16;

pub const LOG_N_LANES: u32 = 4;

/// How many packed elements a very packed element holds.
pub const N_VERY_PACKED_ELEMS: usize = 2;

pub const LOG_N_VERY_PACKED_ELEMS: u32 = 1;

/// How many rows are evaluated at once.
pub const BATCH_ROWS: usize = 32;

/// Sixteen secure elements.
#[derive(Clone, Copy, Debug, PartialEq, Eq)]
pub struct PackedQM31(pub [QM31; 16]);

pub type PackedSecureField = PackedQM31;

impl PackedQM31 {
    /// The element of a lane.
    pub open spec fn lane(self, i: int) -> QM31 {
        self.0@[i]
    }

    pub fn broadcast(value: QM31) -> (r: PackedQM31)
        ensures
            forall|i: int| 0 <= i < 16 ==> #[trigger] r.lane(i) == value,
    {
        PackedQM31([value; 16])
    }

    pub fn from_array(lanes: [QM31; 16]) -> (r: PackedQM31)
        ensures
            r.0 == lanes,
    {
        PackedQM31(lanes)
    }

    /// The elements of the lanes, in canonical form.
    pub fn to_array(self) -> (r: [QM31; 16])
        ensures
            forall|i: int| 0 <= i < 16 ==> #[trigger] r@[i] == self.lane(i).canon(),
    {
        let mut r = self.0;
        let mut i: usize = 0;
        while i < 16
            invariant
                i <= 16,
                forall|j: int| 0 <= j < i ==> #[trigger] r@[j] == self.lane(j).canon(),
                forall|j: int| i <= j < 16 ==> #[trigger] r@[j] == self.lane(j),
            decreases 16 - i,
        {
            r[i] = r[i].canonical();
            i += 1;
        }
        r
    }

    /// Some lane is zero, under any of its representations.
    pub open spec fn has_zero_lane(self) -> bool {
        exists|i: int| 0 <= i < 16 && (#[trigger] self.lane(i)).canon() == QM31::zero_el()
    }

    /// Whether some lane is zero.
    pub fn contains_zero_lane(&self) -> (r: bool)
        ensures
            r == self.has_zero_lane(),
    {
        let lanes = self.to_array();
        let zero = QM31::zero();
        let mut i: usize = 0;
        while i < 16
            invariant
                i <= 16,
                zero == QM31::zero_el(),
                forall|j: int| 0 <= j < 16 ==> #[trigger] lanes@[j] == self.lane(j).canon(),
                forall|j: int| 0 <= j < i ==> (#[trigger] self.lane(j)).canon() != QM31::zero_el(),
            decreases 16 - i,
        {
            if lanes[i] == zero {
                assert(self.lane(i as int).canon() == QM31::zero_el());
                return true;
            }
            assert(lanes@[i as int] == self.lane(i as int).canon());
            i += 1;
        }
        false
    }
}

/// Thirty-two base elements.
#[derive(Clone, Copy, Debug, PartialEq, Eq)]
pub struct VeryPackedBaseField(pub [M31; 32]);

impl VeryPackedBaseField {
    pub open spec fn lane(self, i: int) -> M31 {
        self.0@[i]
    }
}

/// Thirty-two secure elements.
#[derive(Clone, Copy, Debug, PartialEq, Eq)]
pub struct VeryPackedSecureField(pub [QM31; 32]);

impl VeryPackedSecureField {
    pub open spec fn lane(self, i: int) -> QM31 {
        self.0@[i]
    }

    pub fn broadcast(value: QM31) -> (r: VeryPackedSecureField)
        ensures
            forall|i: int| 0 <= i < 32 ==> #[trigger] r.lane(i) == value,
    {
        VeryPackedSecureField([value; 32])
    }

    pub fn zero() -> (r: VeryPackedSecureField)
        ensures
            forall|i: int| 0 <= i < 32 ==> #[trigger] r.lane(i) == QM31::zero_el(),
    {
        VeryPackedSecureField([QM31::zero(); 32])
    }

    /// Lane by lane.
    pub fn add(self, rhs: VeryPackedSecureField) -> (r: VeryPackedSecureField)
        ensures
            forall|i: int| 0 <= i < 32 ==> #[trigger] r.lane(i) == self.lane(i).plus(rhs.lane(i)),
    {
        let mut r = self.0;
        let mut i: usize = 0;
        while i < 32
            invariant
                i <= 32,
                forall|j: int| 0 <= j < i ==> #[trigger] r@[j] == self.lane(j).plus(rhs.lane(j)),
                forall|j: int| i <= j < 32 ==> #[trigger] r@[j] == self.lane(j),
            decreases 32 - i,
        {
            r[i] = r[i].add(rhs.0[i]);
            i += 1;
        }
        VeryPackedSecureField(r)
    }

    pub fn sub(self, rhs: VeryPackedSecureField) -> (r: VeryPackedSecureField)
        ensures
            forall|i: int| 0 <= i < 32 ==> #[trigger] r.lane(i) == self.lane(i).minus(rhs.lane(i)),
    {
        let mut r = self.0;
        let mut i: usize = 0;
        while i < 32
            invariant
                i <= 32,
                forall|j: int| 0 <= j < i ==> #[trigger] r@[j] == self.lane(j).minus(rhs.lane(j)),
                forall|j: int| i <= j < 32 ==> #[trigger] r@[j] == self.lane(j),
            decreases 32 - i,
        {
            r[i] = r[i].sub(rhs.0[i]);
            i += 1;
        }
        VeryPackedSecureField(r)
    }

    pub fn mul(self, rhs: VeryPackedSecureField) -> (r: VeryPackedSecureField)
        ensures
            forall|i: int| 0 <= i < 32 ==> #[trigger] r.lane(i) == self.lane(i).times(rhs.lane(i)),
    {
        let mut r = self.0;
        let mut i: usize = 0;
        while i < 32
            invariant
                i <= 32,
                forall|j: int| 0 <= j < i ==> #[trigger] r@[j] == self.lane(j).times(rhs.lane(j)),
                forall|j: int| i <= j < 32 ==> #[trigger] r@[j] == self.lane(j),
            decreases 32 - i,
        {
            r[i] = r[i].mul(rhs.0[i]);
            i += 1;
        }
        VeryPackedSecureField(r)
    }

    /// The elements with the given coordinates, lane by lane.
    pub fn from_very_packed_m31s(
        a: VeryPackedBaseField,
        b: VeryPackedBaseField,
        c: VeryPackedBaseField,
        d: VeryPackedBaseField,
    ) -> (r: VeryPackedSecureField)
        ensures
            forall|i: int|
                0 <= i < 32 ==> #[trigger] r.lane(i) == crate::framework::expr::from_coords(
                    a.lane(i),
                    b.lane(i),
                    c.lane(i),
                    d.lane(i),
                ),
    {
        let mut r = [QM31::zero(); 32];
        let mut i: usize = 0;
        while i < 32
            invariant
                i <= 32,
                forall|j: int|
                    0 <= j < i ==> #[trigger] r@[j] == crate::framework::expr::from_coords(
                        a.lane(j),
                        b.lane(j),
                        c.lane(j),
                        d.lane(j),
                    ),
            decreases 32 - i,
        {
            r[i] = QM31::from_m31(a.0[i], b.0[i], c.0[i], d.0[i]);
            i += 1;
        }
        VeryPackedSecureField(r)
    }
}

} // verus!
