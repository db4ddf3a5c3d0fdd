//! Linear combinations of slices of formula results and a constant.
//!
//! A combination is stored as its constant and its sorted monomials, the
//! same representation as a linear polynomial; the arithmetic is shared
//! with it.
use vstd::arithmetic::div_mod::*;
use vstd::arithmetic::power2::*;
use vstd::prelude::*;

use crate::domain::bitvector::{lemma_modulus_bounds, ConcreteBitvector, RBound};
use crate::problem::formula::FormulaId;
use crate::problem::terms::{coeff_of, lemma_take_push, lemma_terms_push, terms_keys, terms_sum};
use crate::problem::valuation::FormulaValues;

use super::polynomial::{lemma_accumulate, terms_used_ids, LinearPolynomial};
use super::slice::LinearSlice;

pub mod ext;
pub mod ops;
pub mod shift;


verus! {

/// A linear combination `constant + sum(coefficient * slice)` modulo
/// `2^width`. The monomials are sorted by slice, each slice at most once.
#[derive(Clone, Debug, PartialEq, Eq, Hash)]
pub struct LinearCombination {
    pub constant: ConcreteBitvector,
    pub monomials: Vec<(LinearSlice, ConcreteBitvector)>,
}

impl LinearCombination {
    /// The polynomial with the same constant and terms.
    pub open spec fn as_polynomial(self) -> LinearPolynomial {
        LinearPolynomial { linear_terms: self.monomials, constant_term: self.constant }
    }

    pub open spec fn wf(self) -> bool {
        self.as_polynomial().wf()
    }

    /// No monomial has a zero coefficient.
    pub open spec fn is_normal(self) -> bool {
        self.as_polynomial().is_normal()
    }

    pub open spec fn spec_bound(self) -> RBound {
        self.constant.bound
    }

    pub open spec fn modulus(self) -> nat {
        self.constant.bound.modulus()
    }

    /// The coefficient of a slice, zero if it has no monomial.
    pub open spec fn coefficient(self, slice: LinearSlice) -> nat {
        self.as_polynomial().coefficient(slice)
    }

    /// The value of the combination when each slice has the value `tv(slice)`.
    pub open spec fn eval(self, tv: spec_fn(LinearSlice) -> int) -> int {
        self.as_polynomial().eval(tv)
    }

    /// Each slice of the combination has a value that fits in its width.
    pub open spec fn values_fit(self, tv: spec_fn(LinearSlice) -> int) -> bool {
        self.as_polynomial().values_fit(tv)
    }

    /// The combination is a constant, or a single slice with coefficient one
    /// fitting in the bound and no constant.
    pub open spec fn spec_cannot_overflow(self) -> bool {
        self.as_polynomial().spec_cannot_overflow()
    }

    /// The combination with the same constant and terms as a polynomial.
    fn from_polynomial(polynomial: LinearPolynomial) -> (r: LinearCombination)
        ensures
            r.as_polynomial() == polynomial,
    {
        LinearCombination { constant: polynomial.constant_term, monomials: polynomial.linear_terms }
    }

    /// The polynomial with the same constant and terms.
    fn into_polynomial(self) -> (r: LinearPolynomial)
        ensures
            r == self.as_polynomial(),
    {
        LinearPolynomial { linear_terms: self.monomials, constant_term: self.constant }
    }

    /// Creates the normal-form combination with the given constant and
    /// monomials (a later monomial for the same slice replaces an earlier one).
    pub fn new(constant: ConcreteBitvector, monomials: Vec<(LinearSlice, ConcreteBitvector)>) -> (r: LinearCombination)
        requires
            constant.wf(),
            forall|i: int|
                0 <= i < monomials@.len() ==> (#[trigger] monomials@[i]).1.wf() && monomials@[i].1.bound
                    == constant.bound && monomials@[i].0.wf(),
        ensures
            r.wf(),
            r.is_normal(),
            r.constant == constant,
            forall|k: LinearSlice| #[trigger] r.coefficient(k) == coeff_of(monomials@, k),
    {
        Self::from_polynomial(LinearPolynomial::new(monomials, constant))
    }

    /// The zero combination of the given bound.
    pub fn empty(bound: RBound) -> (r: LinearCombination)
        requires
            bound.wf(),
        ensures
            r.wf(),
            r.is_normal(),
            r.monomials@.len() == 0,
            r.constant.value == 0,
            r.constant.bound == bound,
    {
        Self::from_polynomial(LinearPolynomial::empty(bound))
    }

    /// The constant combination.
    pub fn from_constant(constant: ConcreteBitvector) -> (r: LinearCombination)
        requires
            constant.wf(),
        ensures
            r.wf(),
            r.is_normal(),
            r.constant == constant,
            r.monomials@.len() == 0,
    {
        Self::from_polynomial(LinearPolynomial::from_constant(constant))
    }

    /// The whole result of a formula as a combination.
    pub fn from_formula(formula_id: FormulaId, bound: RBound) -> (r: LinearCombination)
        requires
            bound.wf(),
        ensures
            r.wf(),
            r.is_normal(),
            r.constant.value == 0,
            r.constant.bound == bound,
            r.monomials@ == (if bound.width == 0 {
                Seq::<(LinearSlice, ConcreteBitvector)>::empty()
            } else {
                seq![
                    (LinearSlice { formula_id, lsb: 0, width: bound.width }, ConcreteBitvector {
                        value: 1,
                        bound,
                    }),
                ]
            }),
    {
        Self::from_polynomial(LinearPolynomial::from_formula(formula_id, bound))
    }

    /// The formula ids used by the monomials, in monomial order.
    pub fn used_ids(&self) -> (r: Vec<FormulaId>)
        ensures
            r@ == self.as_polynomial().spec_used_ids(),
    {
        terms_used_ids(&self.monomials)
    }

    pub fn bound(&self) -> (r: RBound)
        ensures
            r == self.constant.bound,
    {
        self.constant.bound()
    }

    /// Multiplies the combination by a scaler; zero coefficients are kept.
    pub fn scale(&mut self, scaler: ConcreteBitvector)
        requires
            old(self).wf(),
            scaler.wf(),
            scaler.bound == old(self).constant.bound,
        ensures
            final(self).wf(),
            final(self).constant.bound == old(self).constant.bound,
            final(self).constant.val() == (old(self).constant.val() * scaler.val()) % scaler.modulus(),
            terms_keys(final(self).monomials@) == terms_keys(old(self).monomials@),
            forall|k: LinearSlice|
                #[trigger] final(self).coefficient(k) as int == ((scaler.val() as int) * old(self).coefficient(k)) % (
                scaler.modulus() as int),
            forall|tv: spec_fn(LinearSlice) -> int|
                #[trigger] final(self).eval(tv) == ((scaler.val() as int) * old(self).eval(tv)) % (scaler.modulus() as int),
    {
        let mut polynomial = LinearPolynomial { linear_terms: Vec::new(), constant_term: self.constant };
        std::mem::swap(&mut polynomial.linear_terms, &mut self.monomials);
        polynomial.scale(scaler);
        self.constant = polynomial.constant_term;
        self.monomials = polynomial.linear_terms;
    }

    /// The constant one or zero of width one.
    pub fn single_bit(constant: bool) -> (r: LinearCombination)
        ensures
            r.wf(),
            r.is_normal(),
            r.monomials@.len() == 0,
            r.constant.bound.width == 1,
            r.constant.value == (if constant { 1u64 } else { 0u64 }),
    {
        Self::from_polynomial(LinearPolynomial::single_bit(constant))
    }

    /// The constant if the combination has no monomials.
    pub fn constant_value(&self) -> (r: Option<ConcreteBitvector>)
        ensures
            r == (if self.monomials@.len() == 0 {
                Some(self.constant)
            } else {
                None::<ConcreteBitvector>
            }),
    {
        if self.monomials.len() == 0 {
            Some(self.constant)
        } else {
            None
        }
    }

    /// Whether evaluating the combination might exceed its bound. It
    /// certainly does not for a constant, nor for a single slice with
    /// coefficient one that fits in the bound and no constant.
    pub fn might_overflow(&self) -> (r: bool)
        requires
            self.wf(),
        ensures
            r == !self.spec_cannot_overflow(),
    {
        if self.monomials.len() == 0 {
            return false;
        }
        if self.constant.is_zero() && self.monomials.len() == 1 {
            let (slice, factor) = self.monomials[0];
            proof {
                assert(self.as_polynomial().linear_terms@[0].0.wf());
            }
            let emplaced_slice_width = slice.lsb + slice.width;
            let slice_fits = emplaced_slice_width <= self.bound().width();
            if factor.is_one() && slice_fits {
                return false;
            }
        }
        true
    }

    /// The slices can be read from the values: each formula is known, a
    /// slice not at bit zero starts within it, and a whole-width slice at bit
    /// zero reads a value of the combination's bound.
    pub open spec fn evaluable(self, values: FormulaValues) -> bool {
        &&& self.as_polynomial().evaluable(values)
        &&& forall|i: int|
            0 <= i < self.monomials@.len() && self.monomials@[i].0.lsb == 0 && self.monomials@[i].0.width
                == self.constant.bound.width ==> #[trigger] values.value(self.monomials@[i].0.formula_id).bound
                == self.constant.bound
    }

    /// The value of the combination on concrete formula values: each slice
    /// is its formula value shifted down to the slice's lowest bit.
    pub fn evaluate(&self, values: &FormulaValues) -> (r: ConcreteBitvector)
        requires
            self.wf(),
            values.wf(),
            self.evaluable(*values),
        ensures
            r.wf(),
            r.bound == self.constant.bound,
            r.val() == self.eval(values.slice_values()),
    {
        let mut value = self.constant;
        let bound = value.bound();
        let width = bound.width();
        let ghost tv = values.slice_values();
        let ghost m = self.modulus() as int;
        let ghost p = self.as_polynomial();
        proof {
            lemma_modulus_bounds(bound);
            lemma_small_mod(value.val(), m as nat);
        }
        let mut i: usize = 0;
        while i < self.monomials.len()
            invariant
                0 <= i <= self.monomials@.len(),
                p == self.as_polynomial(),
                self.wf(),
                values.wf(),
                self.evaluable(*values),
                bound == self.constant.bound,
                width == bound.width,
                m == self.modulus(),
                tv == values.slice_values(),
                value.wf(),
                value.bound == bound,
                value.val() == (self.constant.val() + terms_sum(self.monomials@.take(i as int), tv)) % m,
            decreases self.monomials@.len() - i,
        {
            let (slice, coefficient) = self.monomials[i];
            proof {
                assert(values.has(p.linear_terms@[i as int].0.formula_id));
                assert(p.linear_terms@[i as int].1.wf());
            }
            let mut formula_value = values.fetch(slice.formula_id);
            let formula_bound = formula_value.bound();
            let ghost v = formula_value.val();
            proof {
                lemma_modulus_bounds(formula_bound);
                lemma_pow2_pos(slice.lsb as nat);
            }
            if slice.lsb != 0 {
                let lsb = ConcreteBitvector::new(slice.lsb as u64, formula_bound);
                formula_value = formula_value.logic_shr(lsb);
            }
            if slice.lsb != 0 || slice.width != width {
                formula_value = formula_value.uext(bound);
            } else {
                proof {
                    assert(values.value(self.monomials@[i as int].0.formula_id).bound == bound);
                    lemma_small_mod(formula_value.val(), m as nat);
                }
            }
            proof {
                if slice.lsb == 0 {
                    lemma2_to64();
                    lemma_div_basics_2(v as int);
                }
                assert(formula_value.val() as int == tv(slice) % m);
            }
            let term = formula_value.mul(coefficient);
            value = value.add(term);
            proof {
                let s = self.monomials@.take(i as int);
                lemma_take_push(self.monomials@, i as int);
                lemma_terms_push(s, (slice, coefficient), tv);
                lemma_accumulate(self.constant.val() + terms_sum(s, tv), tv(slice), coefficient.val() as int, m);
            }
            i = i + 1;
        }
        proof {
            assert(self.monomials@.take(self.monomials@.len() as int) =~= self.monomials@);
        }
        value
    }
}

} // verus!
