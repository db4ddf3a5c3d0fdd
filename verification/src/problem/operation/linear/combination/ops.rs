//! Arithmetic, truncation and extension of linear combinations.
use vstd::prelude::*;

use crate::domain::bitvector::RBound;
use crate::problem::operation::linear::slice::LinearSlice;

use super::LinearCombination;

verus! {

impl LinearCombination {
    /// Bitwise negation: `!c == -c - 1`.
    pub fn bit_not(self) -> (r: LinearCombination)
        requires
            self.wf(),
        ensures
            r.wf(),
            r.is_normal(),
            r.constant.bound == self.constant.bound,
            r.constant.val() as int == (-(self.constant.val() as int) - 1) % (self.modulus() as int),
            forall|k: LinearSlice|
                #[trigger] r.coefficient(k) as int == (-(self.coefficient(k) as int)) % (self.modulus() as int),
            forall|tv: spec_fn(LinearSlice) -> int|
                #[trigger] r.eval(tv) == self.modulus() - 1 - self.eval(tv),
    {
        Self::from_polynomial(self.into_polynomial().bit_not())
    }

    /// Arithmetic negation.
    pub fn arith_neg(self) -> (r: LinearCombination)
        requires
            self.wf(),
        ensures
            r.wf(),
            r.is_normal(),
            r.constant.bound == self.constant.bound,
            r.constant.val() as int == (-(self.constant.val() as int)) % (self.modulus() as int),
            forall|k: LinearSlice|
                #[trigger] r.coefficient(k) as int == (-(self.coefficient(k) as int)) % (self.modulus() as int),
            forall|tv: spec_fn(LinearSlice) -> int|
                #[trigger] r.eval(tv) == (-self.eval(tv)) % (self.modulus() as int),
    {
        Self::from_polynomial(self.into_polynomial().arith_neg())
    }

    /// Modular addition.
    pub fn add(self, rhs: LinearCombination) -> (r: LinearCombination)
        requires
            self.wf(),
            rhs.wf(),
            self.constant.bound == rhs.constant.bound,
        ensures
            r.wf(),
            r.is_normal(),
            r.constant.bound == self.constant.bound,
            r.constant.val() == (self.constant.val() + rhs.constant.val()) % self.modulus(),
            forall|k: LinearSlice|
                #[trigger] r.coefficient(k) == (self.coefficient(k) + rhs.coefficient(k)) % self.modulus(),
            forall|tv: spec_fn(LinearSlice) -> int|
                #[trigger] r.eval(tv) == (self.eval(tv) + rhs.eval(tv)) % (self.modulus() as int),
    {
        Self::from_polynomial(self.into_polynomial().add(rhs.into_polynomial()))
    }

    /// Modular subtraction.
    pub fn sub(self, rhs: LinearCombination) -> (r: LinearCombination)
        requires
            self.wf(),
            rhs.wf(),
            self.constant.bound == rhs.constant.bound,
        ensures
            r.wf(),
            r.is_normal(),
            r.constant.bound == self.constant.bound,
            r.constant.val() as int == (self.constant.val() - rhs.constant.val()) % (self.modulus() as int),
            forall|k: LinearSlice|
                #[trigger] r.coefficient(k) as int == (self.coefficient(k) - rhs.coefficient(k)) % (self.modulus() as int),
            forall|tv: spec_fn(LinearSlice) -> int|
                #[trigger] r.eval(tv) == (self.eval(tv) - rhs.eval(tv)) % (self.modulus() as int),
    {
        Self::from_polynomial(self.into_polynomial().sub(rhs.into_polynomial()))
    }

    /// Truncates the constant and the coefficients to a narrower bound.
    pub fn truncate(self, new_bound: RBound) -> (r: LinearCombination)
        requires
            self.wf(),
            new_bound.wf(),
            new_bound.width < self.spec_bound().width,
        ensures
            r.wf(),
            r.is_normal(),
            r.spec_bound() == new_bound,
            r.constant.val() == self.constant.val() % new_bound.modulus(),
            forall|k: LinearSlice| #[trigger] r.coefficient(k) == self.coefficient(k) % new_bound.modulus(),
            forall|tv: spec_fn(LinearSlice) -> int|
                #[trigger] r.eval(tv) == self.eval(tv) % (new_bound.modulus() as int),
    {
        match self.into_polynomial().uext(new_bound) {
            Ok(polynomial) => Self::from_polynomial(polynomial).into_normal_form(),
            Err(polynomial) => Self::from_polynomial(polynomial),
        }
    }

    /// Unsigned extension or truncation to a new bound; a wider bound
    /// succeeds only where the combination cannot overflow its own bound.
    pub fn unsigned_extend(self, new_bound: RBound) -> (r: Result<LinearCombination, LinearCombination>)
        requires
            self.wf(),
            new_bound.wf(),
        ensures
            r is Ok <==> (new_bound.width <= self.spec_bound().width || self.spec_cannot_overflow()),
            r matches Err(c) ==> c == self,
            new_bound.width == self.spec_bound().width ==> r == Ok::<LinearCombination, LinearCombination>(self),
            r matches Ok(c) ==> {
                &&& c.wf()
                &&& c.spec_bound() == new_bound
                &&& c.constant.val() == self.constant.val() % new_bound.modulus()
                &&& forall|k: LinearSlice|
                    #[trigger] c.coefficient(k) == self.coefficient(k) % new_bound.modulus()
                &&& self.is_normal() ==> c.is_normal()
                &&& new_bound.width <= self.spec_bound().width ==> forall|tv: spec_fn(LinearSlice) -> int|
                    #[trigger] c.eval(tv) == self.eval(tv) % (new_bound.modulus() as int)
                &&& new_bound.width > self.spec_bound().width ==> forall|tv: spec_fn(LinearSlice) -> int|
                    self.values_fit(tv) ==> #[trigger] c.eval(tv) == self.eval(tv)
            },
    {
        self.uext(new_bound)
    }

    /// Signed extension or truncation to a new bound; a wider bound gives
    /// the combination back unchanged.
    pub fn signed_extend(self, new_bound: RBound) -> (r: Result<LinearCombination, LinearCombination>)
        requires
            self.wf(),
            new_bound.wf(),
        ensures
            r is Ok <==> new_bound.width <= self.spec_bound().width,
            r matches Err(c) ==> c == self,
            new_bound.width == self.spec_bound().width ==> r == Ok::<LinearCombination, LinearCombination>(self),
            r matches Ok(c) ==> {
                &&& c.wf()
                &&& c.spec_bound() == new_bound
                &&& c.constant.val() == self.constant.val() % new_bound.modulus()
                &&& forall|k: LinearSlice|
                    #[trigger] c.coefficient(k) == self.coefficient(k) % new_bound.modulus()
                &&& self.is_normal() ==> c.is_normal()
                &&& forall|tv: spec_fn(LinearSlice) -> int|
                    #[trigger] c.eval(tv) == self.eval(tv) % (new_bound.modulus() as int)
            },
    {
        self.sext(new_bound)
    }

    /// Removes the monomials with zero coefficients.
    fn into_normal_form(self) -> (r: LinearCombination)
        requires
            self.wf(),
        ensures
            r.wf(),
            r.is_normal(),
            r.constant == self.constant,
            forall|k: LinearSlice| #[trigger] r.coefficient(k) == self.coefficient(k),
            forall|tv: spec_fn(LinearSlice) -> int| #[trigger] r.eval(tv) == self.eval(tv),
    {
        Self::from_polynomial(self.into_polynomial().into_normal_form())
    }
}

} // verus!
