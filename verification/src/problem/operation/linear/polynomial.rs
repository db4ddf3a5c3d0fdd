//! Linear polynomials over slices of formula results, modulo `2^width`.
use vstd::arithmetic::div_mod::*;
use vstd::arithmetic::mul::*;
use vstd::arithmetic::power2::*;
use vstd::prelude::*;

use crate::domain::bitvector::{lemma_modulus_bounds, ConcreteBitvector, RBound};
use crate::problem::formula::FormulaId;
use crate::problem::valuation::FormulaValues;
use crate::problem::terms::{copy_terms, lemma_coeff_of_index, terms_wf, terms_keys_wf, terms_nonzero, coeff_of, terms_sum, terms_keys, lemma_terms_push, lemma_take_push, scale_terms, normalize_terms, insert_term, lemma_scaled_value};

use super::monomial::LinearMonomial;
use super::slice::LinearSlice;

pub mod arith;
pub mod bitwise;
pub mod eq;
pub mod ext;

verus! {

/// A linear combination of slices of formula results and a constant:
/// `constant_term + sum(coefficient * slice)`, modulo `2^width`.
///
/// The terms are sorted by slice, each slice at most once, and all
/// coefficients and the constant share one bound. In normal form no
/// coefficient is zero.
#[derive(Clone, Debug, PartialEq, Eq, Hash)]
pub struct LinearPolynomial {
    pub linear_terms: Vec<(LinearSlice, ConcreteBitvector)>,
    pub constant_term: ConcreteBitvector,
}

/// The formula ids of the slices of a term list, in order.
pub open spec fn spec_terms_used_ids(terms: Seq<(LinearSlice, ConcreteBitvector)>) -> Seq<FormulaId> {
    terms.map_values(|t: (LinearSlice, ConcreteBitvector)| t.0.formula_id)
}

/// The formula ids of the slices of a term list, in order.
pub(crate) fn terms_used_ids(terms: &Vec<(LinearSlice, ConcreteBitvector)>) -> (r: Vec<FormulaId>)
    ensures
        r@ == spec_terms_used_ids(terms@),
{
    let mut r: Vec<FormulaId> = Vec::new();
    let mut i: usize = 0;
    while i < terms.len()
        invariant
            0 <= i <= terms.len(),
            r@ == spec_terms_used_ids(terms@.take(i as int)),
        decreases terms.len() - i,
    {
        r.push(terms[i].0.formula_id);
        proof {
            lemma_take_push(terms@, i as int);
            assert(r@ =~= spec_terms_used_ids(terms@.take(i + 1)));
        }
        i = i + 1;
    }
    proof {
        assert(terms@.take(terms@.len() as int) =~= terms@);
    }
    r
}

impl LinearPolynomial {
    pub open spec fn wf(self) -> bool {
        &&& self.constant_term.wf()
        &&& terms_wf(self.linear_terms@, self.constant_term.bound)
        &&& terms_keys_wf(self.linear_terms@)
    }

    /// No term has a zero coefficient.
    pub open spec fn is_normal(self) -> bool {
        terms_nonzero(self.linear_terms@)
    }

    pub open spec fn spec_bound(self) -> RBound {
        self.constant_term.bound
    }

    pub open spec fn modulus(self) -> nat {
        self.constant_term.bound.modulus()
    }

    /// The coefficient of a slice, zero if it has no term.
    pub open spec fn coefficient(self, slice: LinearSlice) -> nat {
        coeff_of(self.linear_terms@, slice)
    }

    /// The value of the polynomial when each slice has the value `tv(slice)`.
    pub open spec fn eval(self, tv: spec_fn(LinearSlice) -> int) -> int {
        (self.constant_term.val() + terms_sum(self.linear_terms@, tv)) % (self.modulus() as int)
    }

    /// Each slice of the polynomial has a value that fits in its width.
    pub open spec fn values_fit(self, tv: spec_fn(LinearSlice) -> int) -> bool {
        forall|i: int|
            0 <= i < self.linear_terms@.len() ==> 0 <= #[trigger] tv(self.linear_terms@[i].0) < pow2(
                self.linear_terms@[i].0.width as nat,
            )
    }

    /// The formula ids of the terms, in term order.
    pub open spec fn spec_used_ids(self) -> Seq<FormulaId> {
        spec_terms_used_ids(self.linear_terms@)
    }

    /// Creates the normal-form polynomial with the given terms (a later term
    /// for the same slice replaces an earlier one) and constant.
    pub fn new(
        linear_terms: Vec<(LinearSlice, ConcreteBitvector)>,
        constant_term: ConcreteBitvector,
    ) -> (r: LinearPolynomial)
        requires
            constant_term.wf(),
            forall|i: int|
                0 <= i < linear_terms@.len() ==> (#[trigger] linear_terms@[i]).1.wf()
                    && linear_terms@[i].1.bound == constant_term.bound && linear_terms@[i].0.wf(),
        ensures
            r.wf(),
            r.is_normal(),
            r.constant_term == constant_term,
            forall|k: LinearSlice| #[trigger] r.coefficient(k) == coeff_of(linear_terms@, k),
    {
        let bound = constant_term.bound;
        let mut terms: Vec<(LinearSlice, ConcreteBitvector)> = Vec::new();
        let mut i: usize = 0;
        while i < linear_terms.len()
            invariant
                constant_term.wf(),
                bound == constant_term.bound,
                0 <= i <= linear_terms.len(),
                forall|x: int|
                    0 <= x < linear_terms@.len() ==> (#[trigger] linear_terms@[x]).1.wf()
                        && linear_terms@[x].1.bound == bound && linear_terms@[x].0.wf(),
                terms_wf(terms@, bound),
                terms_keys_wf(terms@),
                forall|k: LinearSlice| #[trigger] coeff_of(terms@, k) == coeff_of(linear_terms@.take(i as int), k),
            decreases linear_terms.len() - i,
        {
            let term = linear_terms[i];
            let ghost old_terms = terms@;
            terms = insert_term(&terms, term, bound);
            proof {
                lemma_take_push(linear_terms@, i as int);
                assert forall|k: LinearSlice| #[trigger] coeff_of(terms@, k) == coeff_of(linear_terms@.take(i + 1), k) by {
                    lemma_terms_push(linear_terms@.take(i as int), term, |x: LinearSlice| 0int);
                }
            }
            i = i + 1;
        }
        proof {
            assert(linear_terms@.take(linear_terms@.len() as int) =~= linear_terms@);
        }
        normalize_terms(&mut terms, bound);
        LinearPolynomial { linear_terms: terms, constant_term }
    }

    /// The zero polynomial of the given bound.
    pub fn empty(bound: RBound) -> (r: LinearPolynomial)
        requires
            bound.wf(),
        ensures
            r.wf(),
            r.is_normal(),
            r.linear_terms@.len() == 0,
            r.constant_term.value == 0,
            r.constant_term.bound == bound,
    {
        LinearPolynomial { linear_terms: Vec::new(), constant_term: ConcreteBitvector::zero(bound) }
    }

    /// A single monomial plus a constant, in normal form.
    pub fn from_monomial_and_constant(monomial: LinearMonomial, constant_term: ConcreteBitvector) -> (r: LinearPolynomial)
        requires
            monomial.wf(),
            constant_term.wf(),
            monomial.coefficient.bound == constant_term.bound,
        ensures
            r.wf(),
            r.is_normal(),
            r.constant_term == constant_term,
            r.linear_terms@ == (if monomial.coefficient.value == 0 {
                Seq::<(LinearSlice, ConcreteBitvector)>::empty()
            } else {
                seq![(monomial.slice, monomial.coefficient)]
            }),
    {
        let mut terms: Vec<(LinearSlice, ConcreteBitvector)> = Vec::new();
        if monomial.coefficient.is_nonzero() {
            terms.push((monomial.slice, monomial.coefficient));
        }
        LinearPolynomial { linear_terms: terms, constant_term }
    }

    /// A single monomial, in normal form.
    pub fn from_monomial(monomial: LinearMonomial) -> (r: LinearPolynomial)
        requires
            monomial.wf(),
        ensures
            r.wf(),
            r.is_normal(),
            r.constant_term.value == 0,
            r.constant_term.bound == monomial.coefficient.bound,
            r.linear_terms@ == (if monomial.coefficient.value == 0 {
                Seq::<(LinearSlice, ConcreteBitvector)>::empty()
            } else {
                seq![(monomial.slice, monomial.coefficient)]
            }),
    {
        let zero = ConcreteBitvector::zero(monomial.bound());
        Self::from_monomial_and_constant(monomial, zero)
    }

    /// The constant polynomial.
    pub fn from_constant(constant: ConcreteBitvector) -> (r: LinearPolynomial)
        requires
            constant.wf(),
        ensures
            r.wf(),
            r.is_normal(),
            r.constant_term == constant,
            r.linear_terms@.len() == 0,
    {
        LinearPolynomial { linear_terms: Vec::new(), constant_term: constant }
    }

    /// The whole result of a formula as a polynomial.
    pub fn from_formula(formula_id: FormulaId, bound: RBound) -> (r: LinearPolynomial)
        requires
            bound.wf(),
        ensures
            r.wf(),
            r.is_normal(),
            r.constant_term.value == 0,
            r.constant_term.bound == bound,
            r.linear_terms@ == (if bound.width == 0 {
                Seq::<(LinearSlice, ConcreteBitvector)>::empty()
            } else {
                seq![
                    (LinearSlice { formula_id, lsb: 0, width: bound.width }, ConcreteBitvector {
                        value: 1,
                        bound,
                    }),
                ]
            }),
    {
        if let Some(slice) = LinearSlice::from_bounded(formula_id, bound) {
            let coefficient = ConcreteBitvector::one(bound);
            LinearPolynomial::from_monomial(LinearMonomial::new(coefficient, slice))
        } else {
            LinearPolynomial::empty(bound)
        }
    }

    /// The formula ids used by the terms, in term order.
    pub fn used_ids(&self) -> (r: Vec<FormulaId>)
        ensures
            r@ == self.spec_used_ids(),
    {
        terms_used_ids(&self.linear_terms)
    }

    pub fn bound(&self) -> (r: RBound)
        ensures
            r == self.constant_term.bound,
    {
        self.constant_term.bound()
    }

    /// A normal polynomial has no terms exactly when every coefficient is zero.
    pub proof fn lemma_no_terms_iff_zero(self)
        requires
            self.wf(),
            self.is_normal(),
        ensures
            (self.linear_terms@.len() == 0) <==> (forall|k: LinearSlice| #[trigger] self.coefficient(k) == 0),
    {
        if self.linear_terms@.len() > 0 {
            let k = self.linear_terms@[0].0;
            lemma_coeff_of_index(self.linear_terms@, k);
            assert(self.coefficient(k) == self.linear_terms@[0].1.val());
        }
    }

    /// A copy with the same terms and constant.
    pub fn duplicate(&self) -> (r: LinearPolynomial)
        ensures
            r.linear_terms@ == self.linear_terms@,
            r.constant_term == self.constant_term,
    {
        LinearPolynomial { linear_terms: copy_terms(&self.linear_terms), constant_term: self.constant_term }
    }

    /// The slices of the polynomial can be read from the values: each
    /// formula is known, and a slice not at bit zero starts within it.
    pub open spec fn evaluable(self, values: FormulaValues) -> bool {
        forall|i: int|
            0 <= i < self.linear_terms@.len() ==> #[trigger] values.has(self.linear_terms@[i].0.formula_id) && (
            self.linear_terms@[i].0.lsb == 0 || (self.linear_terms@[i].0.lsb as nat) < values.value(
                self.linear_terms@[i].0.formula_id,
            ).modulus())
    }

    /// The value of the polynomial on concrete formula values: each slice is
    /// its formula value shifted down to the slice's lowest bit.
    pub fn evaluate(&self, values: &FormulaValues) -> (r: ConcreteBitvector)
        requires
            self.wf(),
            values.wf(),
            self.evaluable(*values),
        ensures
            r.wf(),
            r.bound == self.constant_term.bound,
            r.val() == self.eval(values.slice_values()),
    {
        let mut value = self.constant_term;
        let bound = value.bound();
        let width = bound.width();
        let ghost tv = values.slice_values();
        let ghost m = self.modulus() as int;
        proof {
            lemma_modulus_bounds(bound);
            lemma_small_mod(value.val(), m as nat);
        }
        let mut i: usize = 0;
        while i < self.linear_terms.len()
            invariant
                0 <= i <= self.linear_terms@.len(),
                self.wf(),
                values.wf(),
                self.evaluable(*values),
                bound == self.constant_term.bound,
                width == bound.width,
                m == self.modulus(),
                tv == values.slice_values(),
                value.wf(),
                value.bound == bound,
                value.val() == (self.constant_term.val() + terms_sum(self.linear_terms@.take(i as int), tv)) % m,
            decreases self.linear_terms@.len() - i,
        {
            let (slice, coefficient) = self.linear_terms[i];
            proof {
                assert(values.has(self.linear_terms@[i as int].0.formula_id));
                assert(coefficient.wf());
            }
            let mut formula_value = values.fetch(slice.formula_id);
            let formula_bound = formula_value.bound();
            let ghost v = formula_value.val();
            proof {
                lemma_modulus_bounds(formula_bound);
                lemma_pow2_pos(slice.lsb as nat);
            }
            if slice.lsb != 0 {
                let lsb = ConcreteBitvector::new(slice.lsb as u64, formula_bound);
                formula_value = formula_value.logic_shr(lsb);
            }
            if slice.lsb != 0 || formula_value.bound().width() != width {
                formula_value = formula_value.uext(bound);
            } else {
                proof {
                    lemma2_to64();
                    lemma_small_mod(formula_value.val(), m as nat);
                }
            }
            proof {
                if slice.lsb == 0 {
                    lemma2_to64();
                    lemma_div_basics_2(v as int);
                }
                assert(formula_value.val() as int == tv(slice) % m);
            }
            let term = formula_value.mul(coefficient);
            let ghost before = value.val() as int;
            value = value.add(term);
            proof {
                let s = self.linear_terms@.take(i as int);
                lemma_take_push(self.linear_terms@, i as int);
                lemma_terms_push(s, (slice, coefficient), tv);
                lemma_accumulate(
                    self.constant_term.val() + terms_sum(s, tv),
                    tv(slice),
                    coefficient.val() as int,
                    m,
                );
            }
            i = i + 1;
        }
        proof {
            assert(self.linear_terms@.take(self.linear_terms@.len() as int) =~= self.linear_terms@);
        }
        value
    }

    /// Removes the terms with zero coefficients.
    pub fn into_normal_form(self) -> (r: LinearPolynomial)
        requires
            self.wf(),
        ensures
            r.wf(),
            r.is_normal(),
            r.constant_term == self.constant_term,
            forall|k: LinearSlice| #[trigger] r.coefficient(k) == self.coefficient(k),
            forall|tv: spec_fn(LinearSlice) -> int| #[trigger] r.eval(tv) == self.eval(tv),
            self.is_normal() ==> r.linear_terms@ == self.linear_terms@,
    {
        let mut result = self;
        normalize_terms(&mut result.linear_terms, result.constant_term.bound);
        result
    }

    /// Multiplies the polynomial by a scaler; zero coefficients are kept.
    pub fn scale(&mut self, scaler: ConcreteBitvector)
        requires
            old(self).wf(),
            scaler.wf(),
            scaler.bound == old(self).constant_term.bound,
        ensures
            final(self).wf(),
            final(self).constant_term.bound == old(self).constant_term.bound,
            final(self).constant_term.val() == (old(self).constant_term.val() * scaler.val()) % scaler.modulus(),
            terms_keys(final(self).linear_terms@) == terms_keys(old(self).linear_terms@),
            forall|k: LinearSlice|
                #[trigger] final(self).coefficient(k) as int == ((scaler.val() as int) * old(self).coefficient(k)) % (
                scaler.modulus() as int),
            forall|tv: spec_fn(LinearSlice) -> int|
                #[trigger] final(self).eval(tv) == ((scaler.val() as int) * old(self).eval(tv)) % (scaler.modulus() as int),
    {
        let ghost orig = *self;
        let bound = self.bound();
        assert(bound == scaler.bound);
        self.constant_term = self.constant_term.mul(scaler);
        scale_terms(&mut self.linear_terms, scaler);
        proof {
            lemma_modulus_bounds(bound);
            assert forall|tv: spec_fn(LinearSlice) -> int| #[trigger] self.eval(tv) == ((scaler.val() as int) * orig.eval(tv)) % (scaler.modulus() as int) by {
                assert((orig.constant_term.val() * scaler.val()) as int == (scaler.val() as int) * orig.constant_term.val()) by (nonlinear_arith);
                lemma_scaled_value(
                    orig.constant_term.val() as int,
                    self.constant_term.val() as int,
                    terms_sum(orig.linear_terms@, tv),
                    terms_sum(self.linear_terms@, tv),
                    scaler.val() as int,
                    scaler.modulus(),
                );
            }
        }
    }

    /// The constant one or zero of width one.
    pub fn single_bit(constant: bool) -> (r: LinearPolynomial)
        ensures
            r.wf(),
            r.is_normal(),
            r.linear_terms@.len() == 0,
            r.constant_term.bound.width == 1,
            r.constant_term.value == (if constant { 1u64 } else { 0u64 }),
    {
        let bound = RBound::single_bit_bound();
        let constant = if constant {
            ConcreteBitvector::one(bound)
        } else {
            ConcreteBitvector::zero(bound)
        };
        LinearPolynomial::from_constant(constant)
    }

    /// The constant if the polynomial has no terms.
    pub fn constant_value(&self) -> (r: Option<ConcreteBitvector>)
        ensures
            r == (if self.linear_terms@.len() == 0 {
                Some(self.constant_term)
            } else {
                None::<ConcreteBitvector>
            }),
    {
        if self.linear_terms.len() == 0 {
            Some(self.constant_term)
        } else {
            None
        }
    }

    /// The single monomial (if any) and the constant, if there is at most one term.
    pub fn monomial_and_constant_value(&self) -> (r: Option<(Option<LinearMonomial>, ConcreteBitvector)>)
        ensures
            r == (if self.linear_terms@.len() == 0 {
                Some((None::<LinearMonomial>, self.constant_term))
            } else if self.linear_terms@.len() == 1 {
                Some(
                    (
                        Some(
                            LinearMonomial {
                                coefficient: self.linear_terms@[0].1,
                                slice: self.linear_terms@[0].0,
                            },
                        ),
                        self.constant_term,
                    ),
                )
            } else {
                None::<(Option<LinearMonomial>, ConcreteBitvector)>
            }),
    {
        if self.linear_terms.len() == 0 {
            return Some((None, self.constant_term));
        }
        if self.linear_terms.len() != 1 {
            return None;
        }
        let (slice, coefficient) = self.linear_terms[0];
        Some((Some(LinearMonomial::new(coefficient, slice)), self.constant_term))
    }

    /// Whether evaluating the polynomial might exceed its bound. It certainly
    /// does not for a constant, nor for a single slice with coefficient one
    /// that fits in the bound.
    pub fn might_overflow(&self) -> (r: bool)
        requires
            self.wf(),
        ensures
            r == !self.spec_cannot_overflow(),
    {
        if self.linear_terms.len() == 0 {
            return false;
        }
        let Some((monomial, constant)) = self.monomial_and_constant_value() else {
            return true;
        };
        let Some(monomial) = monomial else {
            return false;
        };
        if constant.is_nonzero() {
            return true;
        }
        proof {
            assert(self.linear_terms@[0].0.wf());
        }
        monomial.might_overflow()
    }

    /// The polynomial is a constant, or a single slice with coefficient one
    /// fitting in the bound and no constant.
    pub open spec fn spec_cannot_overflow(self) -> bool {
        ||| self.linear_terms@.len() == 0
        ||| {
            &&& self.linear_terms@.len() == 1
            &&& self.constant_term.value == 0
            &&& self.linear_terms@[0].1.value == 1
            &&& self.linear_terms@[0].0.lsb + self.linear_terms@[0].0.width
                <= self.constant_term.bound.width
        }
    }
}

/// Adding a term `k * x` to an accumulated value, all modulo `m`.
pub proof fn lemma_accumulate(a: int, x: int, k: int, m: int)
    requires
        0 < m,
    ensures
        ((a % m) + (((x % m) * k) % m)) % m == (a + k * x) % m,
{
    lemma_mul_mod_noop_left(x, k, m);
    lemma_add_mod_noop(a, x * k, m);
    lemma_mul_is_commutative(x, k);
}

} // verus!
