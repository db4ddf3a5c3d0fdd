//! Extension and truncation of linear combinations.
use vstd::prelude::*;

use crate::domain::bitvector::RBound;
use crate::problem::operation::linear::slice::LinearSlice;

use super::LinearCombination;

verus! {

impl LinearCombination {
    /// Unsigned extension or truncation to a new bound. Truncating or keeping
    /// the width always succeeds. A wider bound succeeds only where the
    /// combination cannot overflow its own bound; otherwise the combination
    /// is given back unchanged.
    pub fn uext(self, new_bound: RBound) -> (r: Result<LinearCombination, LinearCombination>)
        requires
            self.wf(),
            new_bound.wf(),
        ensures
            r is Ok <==> (new_bound.width <= self.spec_bound().width || self.spec_cannot_overflow()),
            r matches Err(c) ==> c == self,
            new_bound.width == self.spec_bound().width ==> r == Ok::<LinearCombination, LinearCombination>(self),
            r matches Ok(c) ==> {
                &&& c.wf()
                &&& c.spec_bound() == new_bound
                &&& c.constant.val() == self.constant.val() % new_bound.modulus()
                &&& forall|k: LinearSlice|
                    #[trigger] c.coefficient(k) == self.coefficient(k) % new_bound.modulus()
                &&& self.is_normal() ==> c.is_normal()
                &&& new_bound.width <= self.spec_bound().width ==> forall|tv: spec_fn(LinearSlice) -> int|
                    #[trigger] c.eval(tv) == self.eval(tv) % (new_bound.modulus() as int)
                &&& new_bound.width > self.spec_bound().width ==> forall|tv: spec_fn(LinearSlice) -> int|
                    self.values_fit(tv) ==> #[trigger] c.eval(tv) == self.eval(tv)
            },
    {
        match self.into_polynomial().uext(new_bound) {
            Ok(polynomial) => Ok(Self::from_polynomial(polynomial)),
            Err(polynomial) => Err(Self::from_polynomial(polynomial)),
        }
    }

    /// Signed extension or truncation to a new bound. Truncating or keeping
    /// the width succeeds; a wider bound gives the combination back unchanged.
    pub fn sext(self, new_bound: RBound) -> (r: Result<LinearCombination, LinearCombination>)
        requires
            self.wf(),
            new_bound.wf(),
        ensures
            r is Ok <==> new_bound.width <= self.spec_bound().width,
            r matches Err(c) ==> c == self,
            new_bound.width == self.spec_bound().width ==> r == Ok::<LinearCombination, LinearCombination>(self),
            r matches Ok(c) ==> {
                &&& c.wf()
                &&& c.spec_bound() == new_bound
                &&& c.constant.val() == self.constant.val() % new_bound.modulus()
                &&& forall|k: LinearSlice|
                    #[trigger] c.coefficient(k) == self.coefficient(k) % new_bound.modulus()
                &&& self.is_normal() ==> c.is_normal()
                &&& forall|tv: spec_fn(LinearSlice) -> int|
                    #[trigger] c.eval(tv) == self.eval(tv) % (new_bound.modulus() as int)
            },
    {
        match self.into_polynomial().sext(new_bound) {
            Ok(polynomial) => Ok(Self::from_polynomial(polynomial)),
            Err(polynomial) => Err(Self::from_polynomial(polynomial)),
        }
    }
}

} // verus!
