//! Arithmetic on linear combinations of formulas.
use vstd::prelude::*;

use crate::domain::bitvector::lemma_modulus_bounds;
use crate::problem::formula::FormulaId;
use crate::problem::terms::{lemma_combined_value, lemma_scaled_value, merge_terms, negate_terms, terms_sum};

use super::LinearCombination;

verus! {

impl LinearCombination {
    /// Arithmetic negation.
    pub fn arith_neg(self) -> (r: LinearCombination)
        requires
            self.wf(),
        ensures
            r.wf(),
            r.is_normal(),
            r.constant.bound == self.constant.bound,
            r.constant.val() as int == (-(self.constant.val() as int)) % (self.modulus() as int),
            forall|k: FormulaId|
                #[trigger] r.coefficient(k) as int == (-(self.coefficient(k) as int)) % (self.modulus() as int),
            forall|tv: spec_fn(FormulaId) -> int|
                #[trigger] r.eval(tv) == (-self.eval(tv)) % (self.modulus() as int),
    {
        let ghost orig = self;
        let mut result = self;
        let bound = result.bound();
        result.constant = result.constant.arith_neg();
        negate_terms(&mut result.monomials, bound);
        proof {
            lemma_modulus_bounds(bound);
            assert forall|tv: spec_fn(FormulaId) -> int| #[trigger] result.eval(tv) == (-orig.eval(tv)) % (orig.modulus() as int) by {
                lemma_scaled_value(
                    orig.constant.val() as int,
                    result.constant.val() as int,
                    terms_sum(orig.monomials@, tv),
                    terms_sum(result.monomials@, tv),
                    -1,
                    orig.modulus(),
                );
            }
            assert forall|k: FormulaId| #[trigger] result.coefficient(k) as int == (-(orig.coefficient(k) as int)) % (orig.modulus() as int) by {}
        }
        {
            result.normalize();
            result
        }
    }

    /// Modular addition.
    pub fn add(self, rhs: LinearCombination) -> (r: LinearCombination)
        requires
            self.wf(),
            rhs.wf(),
            self.constant.bound == rhs.constant.bound,
        ensures
            r.wf(),
            r.is_normal(),
            r.constant.bound == self.constant.bound,
            r.constant.val() == (self.constant.val() + rhs.constant.val()) % self.modulus(),
            forall|k: FormulaId|
                #[trigger] r.coefficient(k) == (self.coefficient(k) + rhs.coefficient(k)) % self.modulus(),
            forall|tv: spec_fn(FormulaId) -> int|
                #[trigger] r.eval(tv) == (self.eval(tv) + rhs.eval(tv)) % (self.modulus() as int),
    {
        let r = self.linear_combine(rhs, false);
        proof {
            assert forall|k: FormulaId| #[trigger] r.coefficient(k) == (self.coefficient(k) + rhs.coefficient(k)) % self.modulus() by {
                assert(r.coefficient(k) as int == (self.coefficient(k) as int + 1 * rhs.coefficient(k)) % (self.modulus() as int));
            }
            assert forall|tv: spec_fn(FormulaId) -> int| #[trigger] r.eval(tv) == (self.eval(tv) + rhs.eval(tv)) % (self.modulus() as int) by {
                assert(r.eval(tv) == (self.eval(tv) + 1 * rhs.eval(tv)) % (self.modulus() as int));
            }
        }
        r
    }

    /// Modular subtraction.
    pub fn sub(self, rhs: LinearCombination) -> (r: LinearCombination)
        requires
            self.wf(),
            rhs.wf(),
            self.constant.bound == rhs.constant.bound,
        ensures
            r.wf(),
            r.is_normal(),
            r.constant.bound == self.constant.bound,
            r.constant.val() as int == (self.constant.val() - rhs.constant.val()) % (self.modulus() as int),
            forall|k: FormulaId|
                #[trigger] r.coefficient(k) as int == (self.coefficient(k) - rhs.coefficient(k)) % (self.modulus() as int),
            forall|tv: spec_fn(FormulaId) -> int|
                #[trigger] r.eval(tv) == (self.eval(tv) - rhs.eval(tv)) % (self.modulus() as int),
    {
        let r = self.linear_combine(rhs, true);
        proof {
            assert forall|k: FormulaId| #[trigger] r.coefficient(k) as int == (self.coefficient(k) - rhs.coefficient(k)) % (self.modulus() as int) by {
                assert(r.coefficient(k) as int == (self.coefficient(k) as int + -1 * rhs.coefficient(k)) % (self.modulus() as int));
            }
            assert forall|tv: spec_fn(FormulaId) -> int| #[trigger] r.eval(tv) == (self.eval(tv) - rhs.eval(tv)) % (self.modulus() as int) by {
                assert(r.eval(tv) == (self.eval(tv) + -1 * rhs.eval(tv)) % (self.modulus() as int));
            }
        }
        r
    }

    /// Combines two polynomials as `self + rhs` or `self - rhs`.
    fn linear_combine(self, rhs: LinearCombination, subtract: bool) -> (r: LinearCombination)
        requires
            self.wf(),
            rhs.wf(),
            self.constant.bound == rhs.constant.bound,
        ensures
            r.wf(),
            r.is_normal(),
            r.constant.bound == self.constant.bound,
            r.constant.val() as int == (self.constant.val() as int + (if subtract { -1int } else { 1int }) * rhs.constant.val()) % (self.modulus() as int),
            forall|k: FormulaId|
                #[trigger] r.coefficient(k) as int == (self.coefficient(k) as int + (if subtract { -1int } else { 1int }) * rhs.coefficient(k)) % (self.modulus() as int),
            forall|tv: spec_fn(FormulaId) -> int|
                #[trigger] r.eval(tv) == (self.eval(tv) + (if subtract { -1int } else { 1int }) * rhs.eval(tv)) % (self.modulus() as int),
    {
        let bound = self.bound();
        let constant = if subtract {
            self.constant.sub(rhs.constant)
        } else {
            self.constant.add(rhs.constant)
        };
        let terms = merge_terms(&self.monomials, &rhs.monomials, bound, subtract);
        let r = LinearCombination { constant, monomials: terms };
        proof {
            lemma_modulus_bounds(bound);
            let sign: int = if subtract { -1int } else { 1int };
            if subtract {
                assert(sign * rhs.constant.val() == -(rhs.constant.val() as int));
                assert(constant.val() as int == (self.constant.val() as int - rhs.constant.val()) % (self.modulus() as int));
            } else {
                assert(sign * rhs.constant.val() == rhs.constant.val() as int);
                assert(constant.val() as int == (self.constant.val() as int + rhs.constant.val()) % (self.modulus() as int));
            }
            assert(constant.val() as int == (self.constant.val() as int + sign * rhs.constant.val()) % (self.modulus() as int));
            assert forall|tv: spec_fn(FormulaId) -> int| #[trigger] r.eval(tv) == (self.eval(tv) + sign * rhs.eval(tv)) % (self.modulus() as int) by {
                lemma_combined_value(
                    self.constant.val() as int,
                    rhs.constant.val() as int,
                    constant.val() as int,
                    terms_sum(self.monomials@, tv),
                    terms_sum(rhs.monomials@, tv),
                    terms_sum(terms@, tv),
                    sign,
                    self.modulus(),
                );
            }
        }
        r
    }
}

} // verus!
