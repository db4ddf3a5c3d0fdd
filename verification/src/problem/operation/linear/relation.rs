//! Linear relations: a polynomial at most a slack value.
use vstd::arithmetic::div_mod::*;
use vstd::prelude::*;

use crate::domain::bitvector::{lemma_modulus_bounds, ConcreteBitvector};
use crate::problem::formula::FormulaId;
use crate::problem::valuation::FormulaValues;

use super::polynomial::LinearPolynomial;
use super::slice::LinearSlice;

verus! {

/// The linear relation `polynomial <= slack`, unsigned, modulo the bound of
/// both. With zero slack it is an equality to zero.
#[derive(Clone, Debug, PartialEq, Eq, Hash)]
pub struct LinearRelation {
    pub polynomial: LinearPolynomial,
    pub slack: ConcreteBitvector,
}

impl LinearRelation {
    /// The polynomial and the slack are well-formed and share their bound.
    pub open spec fn wf(self) -> bool {
        &&& self.polynomial.wf()
        &&& self.slack.wf()
        &&& self.slack.bound == self.polynomial.constant_term.bound
    }

    /// Whether the relation holds when each slice has the value `tv(slice)`.
    pub open spec fn holds(self, tv: spec_fn(LinearSlice) -> int) -> bool {
        self.polynomial.eval(tv) <= self.slack.val()
    }

    /// The equality `lhs == rhs`, as `lhs - rhs <= 0`.
    pub fn from_eq(lhs: LinearPolynomial, rhs: LinearPolynomial) -> (r: LinearRelation)
        requires
            lhs.wf(),
            rhs.wf(),
            lhs.constant_term.bound == rhs.constant_term.bound,
        ensures
            r.wf(),
            r.slack.value == 0,
            r.slack.bound == lhs.constant_term.bound,
            r.polynomial.constant_term.bound == lhs.constant_term.bound,
            r.polynomial.is_normal(),
            r.polynomial.constant_term.val() as int == (lhs.constant_term.val() - rhs.constant_term.val()) % (
            lhs.modulus() as int),
            forall|k: LinearSlice|
                #[trigger] r.polynomial.coefficient(k) as int == (lhs.coefficient(k) - rhs.coefficient(k)) % (
                lhs.modulus() as int),
            forall|tv: spec_fn(LinearSlice) -> int| #[trigger] r.holds(tv) <==> lhs.eval(tv) == rhs.eval(tv),
    {
        let r = Self::from_eq_to_zero(lhs.sub(rhs));
        proof {
            let m = lhs.modulus() as int;
            lemma_modulus_bounds(lhs.constant_term.bound);
            assert forall|tv: spec_fn(LinearSlice) -> int| #[trigger] r.holds(tv) <==> lhs.eval(tv) == rhs.eval(tv) by {
                let d = lhs.eval(tv) - rhs.eval(tv);
                assert(r.polynomial.eval(tv) == d % m);
                assert(0 <= lhs.eval(tv) < m);
                assert(0 <= rhs.eval(tv) < m);
                if d == 0 {
                    lemma_small_mod(0, m as nat);
                } else if d > 0 {
                    lemma_small_mod(d as nat, m as nat);
                } else if d < 0 {
                    lemma_mod_add_multiples_vanish(d, m);
                    lemma_small_mod((m + d) as nat, m as nat);
                }
            }
        }
        r
    }

    /// The equality `polynomial == 0`.
    pub fn from_eq_to_zero(polynomial: LinearPolynomial) -> (r: LinearRelation)
        requires
            polynomial.wf(),
        ensures
            r.wf(),
            r.polynomial == polynomial,
            r.slack.value == 0,
            r.slack.bound == polynomial.constant_term.bound,
            forall|tv: spec_fn(LinearSlice) -> int| #[trigger] r.holds(tv) <==> polynomial.eval(tv) == 0,
    {
        let zero = ConcreteBitvector::zero(polynomial.bound());
        LinearRelation { polynomial, slack: zero }
    }

    /// The relation `polynomial <= slack` of a polynomial and slack of one bound.
    pub fn new(polynomial: LinearPolynomial, slack: ConcreteBitvector) -> (r: LinearRelation)
        requires
            polynomial.wf(),
            slack.wf(),
            polynomial.constant_term.bound == slack.bound,
        ensures
            r.wf(),
            r.polynomial == polynomial,
            r.slack == slack,
    {
        LinearRelation { polynomial, slack }
    }

    pub fn polynomial(&self) -> (r: &LinearPolynomial)
        ensures
            *r == self.polynomial,
    {
        &self.polynomial
    }

    pub fn into_polynomial(self) -> (r: LinearPolynomial)
        ensures
            r == self.polynomial,
    {
        self.polynomial
    }

    pub fn slack(&self) -> (r: &ConcreteBitvector)
        ensures
            *r == self.slack,
    {
        &self.slack
    }

    /// Whether the relation holds on concrete formula values, as a single bit.
    pub fn evaluate(&self, values: &FormulaValues) -> (r: ConcreteBitvector)
        requires
            self.wf(),
            values.wf(),
            self.polynomial.evaluable(*values),
        ensures
            r.wf(),
            r.bound.width == 1,
            r.value == (if self.holds(values.slice_values()) { 1u64 } else { 0u64 }),
    {
        let value = self.polynomial.evaluate(values);
        value.ule(self.slack)
    }

    /// The formula ids used by the polynomial, in term order.
    pub fn used_ids(&self) -> (r: Vec<FormulaId>)
        ensures
            r@ == self.polynomial.spec_used_ids(),
    {
        self.polynomial.used_ids()
    }

    /// The negation `!polynomial <= !slack - 1` of the relation. A relation
    /// whose slack is the highest value always holds: its negation is the
    /// constant false, given as a polynomial.
    pub fn bit_not(self) -> (r: Result<LinearRelation, LinearPolynomial>)
        requires
            self.wf(),
        ensures
            r is Err <==> self.slack.val() + 1 == self.slack.modulus(),
            r matches Err(p) ==> p.wf() && p.linear_terms@.len() == 0 && p.constant_term.bound.width == 1
                && p.constant_term.value == 0,
            r matches Ok(n) ==> {
                &&& n.wf()
                &&& n.polynomial.constant_term.bound == self.polynomial.constant_term.bound
                &&& n.slack.val() == self.slack.modulus() - 2 - self.slack.val()
                &&& forall|tv: spec_fn(LinearSlice) -> int| #[trigger] n.holds(tv) <==> !self.holds(tv)
            },
    {
        // with modulus m, left side a and slack s, both in [0, m), the
        // negation of a <= s is a > s, i.e. m - 1 - a <= m - 2 - s, that is
        // !a <= !s - 1, where !s - 1 is in range unless !s is zero
        let bit_not_slack = self.slack().bit_not();
        if bit_not_slack.is_zero() {
            // a <= s always held as s is the highest value
            return Err(LinearPolynomial::single_bit(false));
        }
        let one = ConcreteBitvector::one(self.slack.bound());
        let ghost orig = self;
        let polynomial = self.polynomial.bit_not();
        proof {
            lemma_modulus_bounds(orig.slack.bound);
            if orig.slack.bound.width == 0 {
                assert(false);
            }
            lemma_small_mod(1, orig.slack.modulus());
        }
        let slack = bit_not_slack.sub(one);
        proof {
            let m = orig.slack.modulus() as int;
            lemma_small_mod((m - 2 - orig.slack.val()) as nat, m as nat);
        }
        Ok(LinearRelation::new(polynomial, slack))
    }
}

} // verus!
