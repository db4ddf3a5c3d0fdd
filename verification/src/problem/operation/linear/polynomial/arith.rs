//! Arithmetic on linear polynomials.
use vstd::arithmetic::div_mod::*;
use vstd::prelude::*;

use crate::domain::bitvector::{lemma_modulus_bounds, ConcreteBitvector};
use crate::problem::operation::linear::slice::LinearSlice;
use crate::problem::terms::{terms_sum, merge_terms, negate_terms, lemma_combined_value, lemma_scaled_value};

use super::LinearPolynomial;

verus! {

impl LinearPolynomial {
    /// Bitwise negation: `!p == -p - 1`.
    pub fn bit_not(self) -> (r: LinearPolynomial)
        requires
            self.wf(),
        ensures
            r.wf(),
            r.is_normal(),
            r.constant_term.bound == self.constant_term.bound,
            r.constant_term.val() as int == (-(self.constant_term.val() as int) - 1) % (self.modulus() as int),
            forall|k: LinearSlice|
                #[trigger] r.coefficient(k) as int == (-(self.coefficient(k) as int)) % (self.modulus() as int),
            forall|tv: spec_fn(LinearSlice) -> int|
                #[trigger] r.eval(tv) == self.modulus() - 1 - self.eval(tv),
    {
        let ghost orig = self;
        let mut result = self.arith_neg();
        let one = ConcreteBitvector::one(result.bound());
        let ghost negated = result;
        result.constant_term = result.constant_term.sub(one);
        proof {
            let m = orig.modulus();
            let mi = m as int;
            let c = orig.constant_term.val() as int;
            lemma_modulus_bounds(orig.constant_term.bound);
            lemma_sub_mod_noop(-c, 1, mi);
            assert forall|k: LinearSlice| #[trigger] result.coefficient(k) == negated.coefficient(k) by {}
            assert forall|tv: spec_fn(LinearSlice) -> int| #[trigger] result.eval(tv) == m - 1 - orig.eval(tv) by {
                let s = terms_sum(result.linear_terms@, tv);
                let e = orig.eval(tv);
                assert(negated.eval(tv) == (-e) % mi);
                lemma_shift_mod(-c - 1, s, mi);
                lemma_shift_mod(-c, s, mi);
                lemma_shift_mod(-c + s, -1, mi);
                lemma_shift_mod(-e, -1, mi);
                lemma_mod_add_multiples_vanish(-e - 1, mi);
                lemma_small_mod((m - 1 - e) as nat, m);
            }
        }
        result.into_normal_form()
    }

    /// Arithmetic negation.
    pub fn arith_neg(self) -> (r: LinearPolynomial)
        requires
            self.wf(),
        ensures
            r.wf(),
            r.is_normal(),
            r.constant_term.bound == self.constant_term.bound,
            r.constant_term.val() as int == (-(self.constant_term.val() as int)) % (self.modulus() as int),
            forall|k: LinearSlice|
                #[trigger] r.coefficient(k) as int == (-(self.coefficient(k) as int)) % (self.modulus() as int),
            forall|tv: spec_fn(LinearSlice) -> int|
                #[trigger] r.eval(tv) == (-self.eval(tv)) % (self.modulus() as int),
    {
        let ghost orig = self;
        let mut result = self;
        let bound = result.bound();
        result.constant_term = result.constant_term.arith_neg();
        negate_terms(&mut result.linear_terms, bound);
        proof {
            lemma_modulus_bounds(bound);
            assert forall|tv: spec_fn(LinearSlice) -> int| #[trigger] result.eval(tv) == (-orig.eval(tv)) % (orig.modulus() as int) by {
                lemma_scaled_value(
                    orig.constant_term.val() as int,
                    result.constant_term.val() as int,
                    terms_sum(orig.linear_terms@, tv),
                    terms_sum(result.linear_terms@, tv),
                    -1,
                    orig.modulus(),
                );
            }
            assert forall|k: LinearSlice| #[trigger] result.coefficient(k) as int == (-(orig.coefficient(k) as int)) % (orig.modulus() as int) by {}
        }
        result.into_normal_form()
    }

    /// Modular addition.
    pub fn add(self, rhs: LinearPolynomial) -> (r: LinearPolynomial)
        requires
            self.wf(),
            rhs.wf(),
            self.constant_term.bound == rhs.constant_term.bound,
        ensures
            r.wf(),
            r.is_normal(),
            r.constant_term.bound == self.constant_term.bound,
            r.constant_term.val() == (self.constant_term.val() + rhs.constant_term.val()) % self.modulus(),
            forall|k: LinearSlice|
                #[trigger] r.coefficient(k) == (self.coefficient(k) + rhs.coefficient(k)) % self.modulus(),
            forall|tv: spec_fn(LinearSlice) -> int|
                #[trigger] r.eval(tv) == (self.eval(tv) + rhs.eval(tv)) % (self.modulus() as int),
    {
        let r = self.linear_combine(rhs, false);
        proof {
            assert forall|k: LinearSlice| #[trigger] r.coefficient(k) == (self.coefficient(k) + rhs.coefficient(k)) % self.modulus() by {
                assert(r.coefficient(k) as int == (self.coefficient(k) as int + 1 * rhs.coefficient(k)) % (self.modulus() as int));
            }
            assert forall|tv: spec_fn(LinearSlice) -> int| #[trigger] r.eval(tv) == (self.eval(tv) + rhs.eval(tv)) % (self.modulus() as int) by {
                assert(r.eval(tv) == (self.eval(tv) + 1 * rhs.eval(tv)) % (self.modulus() as int));
            }
        }
        r
    }

    /// Modular subtraction.
    pub fn sub(self, rhs: LinearPolynomial) -> (r: LinearPolynomial)
        requires
            self.wf(),
            rhs.wf(),
            self.constant_term.bound == rhs.constant_term.bound,
        ensures
            r.wf(),
            r.is_normal(),
            r.constant_term.bound == self.constant_term.bound,
            r.constant_term.val() as int == (self.constant_term.val() - rhs.constant_term.val()) % (self.modulus() as int),
            forall|k: LinearSlice|
                #[trigger] r.coefficient(k) as int == (self.coefficient(k) - rhs.coefficient(k)) % (self.modulus() as int),
            forall|tv: spec_fn(LinearSlice) -> int|
                #[trigger] r.eval(tv) == (self.eval(tv) - rhs.eval(tv)) % (self.modulus() as int),
    {
        let r = self.linear_combine(rhs, true);
        proof {
            assert forall|k: LinearSlice| #[trigger] r.coefficient(k) as int == (self.coefficient(k) - rhs.coefficient(k)) % (self.modulus() as int) by {
                assert(r.coefficient(k) as int == (self.coefficient(k) as int + -1 * rhs.coefficient(k)) % (self.modulus() as int));
            }
            assert forall|tv: spec_fn(LinearSlice) -> int| #[trigger] r.eval(tv) == (self.eval(tv) - rhs.eval(tv)) % (self.modulus() as int) by {
                assert(r.eval(tv) == (self.eval(tv) + -1 * rhs.eval(tv)) % (self.modulus() as int));
            }
        }
        r
    }

    /// Combines two polynomials as `self + rhs` or `self - rhs`.
    fn linear_combine(self, rhs: LinearPolynomial, subtract: bool) -> (r: LinearPolynomial)
        requires
            self.wf(),
            rhs.wf(),
            self.constant_term.bound == rhs.constant_term.bound,
        ensures
            r.wf(),
            r.is_normal(),
            r.constant_term.bound == self.constant_term.bound,
            r.constant_term.val() as int == (self.constant_term.val() as int + (if subtract { -1int } else { 1int }) * rhs.constant_term.val()) % (self.modulus() as int),
            forall|k: LinearSlice|
                #[trigger] r.coefficient(k) as int == (self.coefficient(k) as int + (if subtract { -1int } else { 1int }) * rhs.coefficient(k)) % (self.modulus() as int),
            forall|tv: spec_fn(LinearSlice) -> int|
                #[trigger] r.eval(tv) == (self.eval(tv) + (if subtract { -1int } else { 1int }) * rhs.eval(tv)) % (self.modulus() as int),
    {
        let bound = self.bound();
        let constant = if subtract {
            self.constant_term.sub(rhs.constant_term)
        } else {
            self.constant_term.add(rhs.constant_term)
        };
        let terms = merge_terms(&self.linear_terms, &rhs.linear_terms, bound, subtract);
        let r = LinearPolynomial { linear_terms: terms, constant_term: constant };
        proof {
            lemma_modulus_bounds(bound);
            let sign: int = if subtract { -1int } else { 1int };
            if subtract {
                assert(sign * rhs.constant_term.val() == -(rhs.constant_term.val() as int));
                assert(constant.val() as int == (self.constant_term.val() as int - rhs.constant_term.val()) % (self.modulus() as int));
            } else {
                assert(sign * rhs.constant_term.val() == rhs.constant_term.val() as int);
                assert(constant.val() as int == (self.constant_term.val() as int + rhs.constant_term.val()) % (self.modulus() as int));
            }
            assert(constant.val() as int == (self.constant_term.val() as int + sign * rhs.constant_term.val()) % (self.modulus() as int));
            assert forall|tv: spec_fn(LinearSlice) -> int| #[trigger] r.eval(tv) == (self.eval(tv) + sign * rhs.eval(tv)) % (self.modulus() as int) by {
                lemma_combined_value(
                    self.constant_term.val() as int,
                    rhs.constant_term.val() as int,
                    constant.val() as int,
                    terms_sum(self.linear_terms@, tv),
                    terms_sum(rhs.linear_terms@, tv),
                    terms_sum(terms@, tv),
                    sign,
                    self.modulus(),
                );
            }
        }
        r
    }
}

/// Reducing the left summand first does not change a sum modulo `m`.
pub(crate) proof fn lemma_shift_mod(x: int, y: int, m: int)
    requires
        0 < m,
    ensures
        ((x % m) + y) % m == (x + y) % m,
{
    lemma_add_mod_noop(x % m, y, m);
    lemma_add_mod_noop(x, y, m);
    lemma_mod_twice(x, m);
}

} // verus!
