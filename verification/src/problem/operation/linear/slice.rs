//! Slices of formula results: a range of bits starting at `lsb`.
use vstd::prelude::*;

use crate::domain::bitvector::RBound;
use crate::problem::formula::{formula_less, formula_lt, FormulaId};
use crate::problem::terms::TermKey;

verus! {

/// The bits `lsb .. lsb + width` of a formula result.
#[derive(Clone, Copy, PartialEq, Eq, Structural, Debug, Hash, PartialOrd, Ord)]
pub struct LinearSlice {
    pub formula_id: FormulaId,
    pub lsb: u32,
    pub width: u32,
}

impl LinearSlice {
    /// A slice is never empty and its bits are numbered within 32 bits.
    pub open spec fn wf(self) -> bool {
        self.width > 0 && self.lsb + self.width <= u32::MAX
    }

    pub fn new(formula_id: FormulaId, lsb: u32, width: u32) -> (r: LinearSlice)
        requires
            width > 0,
            lsb + width <= u32::MAX,
        ensures
            r == (LinearSlice { formula_id, lsb, width }),
            r.wf(),
    {
        LinearSlice { formula_id, lsb, width }
    }

    /// The whole result of a formula of the given bound, if it is not empty.
    pub fn from_bounded(formula_id: FormulaId, bound: RBound) -> (r: Option<LinearSlice>)
        requires
            bound.wf(),
        ensures
            r matches Some(slice) ==> slice.wf(),
            r == (if bound.width == 0 {
                None::<LinearSlice>
            } else {
                Some(LinearSlice { formula_id, lsb: 0, width: bound.width })
            }),
    {
        if bound.width == 0 {
            None
        } else {
            Some(LinearSlice { formula_id, lsb: 0, width: bound.width })
        }
    }
}

/// Slices ordered by formula, then lowest bit, then width.
pub open spec fn slice_lt(a: LinearSlice, b: LinearSlice) -> bool {
    formula_lt(a.formula_id, b.formula_id) || (a.formula_id == b.formula_id && (a.lsb < b.lsb || (
    a.lsb == b.lsb && a.width < b.width)))
}

impl TermKey for LinearSlice {
    open spec fn key_lt(self, other: Self) -> bool {
        slice_lt(self, other)
    }

    open spec fn key_wf(self) -> bool {
        self.wf()
    }

    proof fn lemma_key_order(a: Self, b: Self, c: Self) {
    }

    fn key_less(&self, other: &Self) -> (r: bool) {
        if formula_less(&self.formula_id, &other.formula_id) {
            true
        } else if self.formula_id == other.formula_id {
            self.lsb < other.lsb || (self.lsb == other.lsb && self.width < other.width)
        } else {
            false
        }
    }

    fn key_equal(&self, other: &Self) -> (r: bool) {
        *self == *other
    }
}

} // verus!
