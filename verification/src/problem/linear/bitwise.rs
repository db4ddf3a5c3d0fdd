//! Bitwise negation of linear combinations of formulas.
use vstd::arithmetic::div_mod::*;
use vstd::prelude::*;

use crate::domain::bitvector::{lemma_modulus_bounds, ConcreteBitvector};
use crate::problem::formula::FormulaId;
use crate::problem::operation::linear::polynomial::arith::lemma_shift_mod;
use crate::problem::terms::terms_sum;

use super::LinearCombination;

verus! {

impl LinearCombination {
    /// Bitwise negation: `!c == -c - 1`.
    pub fn bit_not(self) -> (r: LinearCombination)
        requires
            self.wf(),
        ensures
            r.wf(),
            r.is_normal(),
            r.constant.bound == self.constant.bound,
            forall|k: FormulaId|
                #[trigger] r.coefficient(k) as int == (-(self.coefficient(k) as int)) % (self.modulus() as int),
            forall|tv: spec_fn(FormulaId) -> int| #[trigger] r.eval(tv) == self.modulus() - 1 - self.eval(tv),
    {
        let ghost orig = self;
        let mut result = self.arith_neg();
        let ghost negated = result;
        let one = ConcreteBitvector::one(result.bound());
        result.constant = result.constant.sub(one);
        proof {
            let m = orig.modulus();
            let mi = m as int;
            let c = orig.constant.val() as int;
            lemma_modulus_bounds(orig.constant.bound);
            lemma_sub_mod_noop(-c, 1, mi);
            assert forall|k: FormulaId| #[trigger] result.coefficient(k) == negated.coefficient(k) by {}
            assert forall|tv: spec_fn(FormulaId) -> int| #[trigger] result.eval(tv) == m - 1 - orig.eval(tv) by {
                let s = terms_sum(result.monomials@, tv);
                let e = orig.eval(tv);
                assert(negated.eval(tv) == (-e) % mi);
                lemma_shift_mod(-c - 1, s, mi);
                lemma_shift_mod(-c, s, mi);
                lemma_shift_mod(-c + s, -1, mi);
                lemma_shift_mod(-e, -1, mi);
                lemma_mod_add_multiples_vanish(-e - 1, mi);
                lemma_small_mod((m - 1 - e) as nat, m);
            }
        }
        result.normalize();
        result
    }
}

} // verus!
