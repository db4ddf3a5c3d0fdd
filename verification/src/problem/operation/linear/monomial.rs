//! A slice multiplied by a coefficient.
use vstd::prelude::*;

use crate::domain::bitvector::{ConcreteBitvector, RBound};

use super::slice::LinearSlice;

verus! {

/// A linear monomial: a coefficient times a slice.
#[derive(Clone, Copy, PartialEq, Eq, Structural, Debug, Hash)]
pub struct LinearMonomial {
    pub coefficient: ConcreteBitvector,
    pub slice: LinearSlice,
}

impl LinearMonomial {
    pub open spec fn wf(self) -> bool {
        self.coefficient.wf() && self.slice.wf()
    }

    pub fn new(coefficient: ConcreteBitvector, slice: LinearSlice) -> (r: LinearMonomial)
        ensures
            r == (LinearMonomial { coefficient, slice }),
    {
        LinearMonomial { coefficient, slice }
    }

    pub fn bound(&self) -> (r: RBound)
        ensures
            r == self.coefficient.bound,
    {
        self.coefficient.bound()
    }

    /// Whether the monomial might exceed its bound: it certainly does not if
    /// its coefficient is one and the slice, placed at its lowest bit, fits.
    pub fn might_overflow(&self) -> (r: bool)
        requires
            self.wf(),
        ensures
            r == !(self.coefficient.value == 1 && self.slice.lsb + self.slice.width
                <= self.coefficient.bound.width),
    {
        let emplaced_slice_width = self.slice.lsb + self.slice.width;
        let slice_fits = emplaced_slice_width <= self.coefficient.bound.width;
        !(self.coefficient.is_one() && slice_fits)
    }
}

} // verus!
