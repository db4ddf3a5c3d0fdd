//! Construction, normal form, renumbering, scaling and text of linear
//! combinations of formulas.
use vstd::arithmetic::power2::pow2;
use vstd::prelude::*;
use vstd::string::StringExecFns;

use crate::domain::bitvector::{lemma_modulus_bounds, modulus_u128, ConcreteBitvector, RBound};
use crate::printing::{append_decimal, decimal};
use crate::problem::formula::FormulaId;
use crate::problem::operation::text::{formula_text, write_formula};
use crate::problem::remap::{id_remappable, remap_formula_id, remap_id, Remapping};
use crate::problem::terms::{
    coeff_of, insert_term, lemma_scaled_value, normalize_terms, scale_terms, terms_keys, terms_keys_wf, terms_nonzero,
    terms_sum, terms_wf, TermKey,
};

use super::LinearCombination;

verus! {

/// The formulas of the monomials, in order.
pub open spec fn monomial_ids(monomials: Seq<(FormulaId, ConcreteBitvector)>) -> Seq<FormulaId> {
    monomials.map_values(|t: (FormulaId, ConcreteBitvector)| t.0)
}

/// The text of a monomial: the coefficient and `*` unless it is one, then
/// the formula.
pub open spec fn monomial_text(term: (FormulaId, ConcreteBitvector)) -> Seq<char> {
    (if term.1.val() == 1nat % term.1.modulus() {
        Seq::empty()
    } else {
        decimal(term.1.val()) + "*"@
    }) + formula_text(term.0)
}

/// The texts of monomials, joined by ` + `.
pub open spec fn monomials_text(terms: Seq<(FormulaId, ConcreteBitvector)>) -> Seq<char>
    decreases terms.len(),
{
    if terms.len() == 0 {
        Seq::empty()
    } else if terms.len() == 1 {
        monomial_text(terms[0])
    } else {
        monomials_text(terms.drop_last()) + " + "@ + monomial_text(terms.last())
    }
}

impl LinearCombination {
    /// The combination without monomials.
    pub fn from_constant(constant: ConcreteBitvector) -> (r: LinearCombination)
        requires
            constant.wf(),
        ensures
            r.wf(),
            r.is_normal(),
            r.constant == constant,
            r.monomials@.len() == 0,
    {
        LinearCombination { constant, monomials: Vec::new() }
    }

    /// The formulas of the monomials, in order.
    pub fn used_ids(&self) -> (r: Vec<FormulaId>)
        ensures
            r@ == monomial_ids(self.monomials@),
    {
        let mut r: Vec<FormulaId> = Vec::new();
        let mut i: usize = 0;
        while i < self.monomials.len()
            invariant
                0 <= i <= self.monomials@.len(),
                r@ == monomial_ids(self.monomials@.take(i as int)),
            decreases self.monomials@.len() - i,
        {
            r.push(self.monomials[i].0);
            proof {
                assert(monomial_ids(self.monomials@.take(i + 1)) =~= monomial_ids(self.monomials@.take(i as int)).push(
                    self.monomials@[i as int].0,
                ));
            }
            i = i + 1;
        }
        proof {
            assert(self.monomials@.take(self.monomials@.len() as int) =~= self.monomials@);
        }
        r
    }

    pub fn bound(&self) -> (r: RBound)
        ensures
            r == self.spec_bound(),
    {
        self.constant.bound()
    }

    /// Removes the monomials with zero coefficients.
    pub fn normalize(&mut self)
        requires
            old(self).wf(),
        ensures
            final(self).wf(),
            final(self).is_normal(),
            final(self).constant == old(self).constant,
            forall|k: FormulaId| #[trigger] final(self).coefficient(k) == old(self).coefficient(k),
            forall|tv: spec_fn(FormulaId) -> int| #[trigger] final(self).eval(tv) == old(self).eval(tv),
    {
        let bound = self.constant.bound;
        normalize_terms(&mut self.monomials, bound);
    }

    /// Multiplies the combination by a scaler; zero coefficients are kept.
    pub fn scale(&mut self, scaler: ConcreteBitvector)
        requires
            old(self).wf(),
            scaler.wf(),
            scaler.bound == old(self).constant.bound,
        ensures
            final(self).wf(),
            final(self).constant.bound == old(self).constant.bound,
            final(self).constant.val() == (old(self).constant.val() * scaler.val()) % scaler.modulus(),
            terms_keys(final(self).monomials@) == terms_keys(old(self).monomials@),
            forall|k: FormulaId|
                #[trigger] final(self).coefficient(k) as int == ((scaler.val() as int) * old(self).coefficient(k)) % (
                scaler.modulus() as int),
            forall|tv: spec_fn(FormulaId) -> int|
                #[trigger] final(self).eval(tv) == ((scaler.val() as int) * old(self).eval(tv)) % (scaler.modulus() as int),
    {
        let ghost orig = *self;
        let bound = self.bound();
        self.constant = self.constant.mul(scaler);
        scale_terms(&mut self.monomials, scaler);
        proof {
            lemma_modulus_bounds(bound);
            assert forall|tv: spec_fn(FormulaId) -> int| #[trigger] self.eval(tv) == ((scaler.val() as int) * orig.eval(tv)) % (scaler.modulus() as int) by {
                assert((orig.constant.val() * scaler.val()) as int == (scaler.val() as int) * orig.constant.val()) by (nonlinear_arith);
                lemma_scaled_value(
                    orig.constant.val() as int,
                    self.constant.val() as int,
                    terms_sum(orig.monomials@, tv),
                    terms_sum(self.monomials@, tv),
                    scaler.val() as int,
                    scaler.modulus(),
                );
            }
        }
    }

    /// The constant one or zero of width one.
    pub fn single_bit(constant: bool) -> (r: LinearCombination)
        ensures
            r.wf(),
            r.is_normal(),
            r.monomials@.len() == 0,
            r.constant.bound.width == 1,
            r.constant.value == (if constant { 1u64 } else { 0u64 }),
    {
        let bound = RBound::single_bit_bound();
        let constant = if constant {
            ConcreteBitvector::one(bound)
        } else {
            ConcreteBitvector::zero(bound)
        };
        LinearCombination::from_constant(constant)
    }

    /// Every formula of the combination has a new formula.
    pub open spec fn remappable(self, m: Remapping) -> bool {
        forall|i: int| 0 <= i < self.monomials@.len() ==> id_remappable(m, #[trigger] self.monomials@[i].0)
    }

    /// Renumbers the formulas of the combination: each renumbered formula
    /// has its old coefficient, and each new monomial is a renumbered old
    /// one.
    pub fn remap(&mut self, old_to_new: &Remapping)
        requires
            old(self).wf(),
            old(self).remappable(*old_to_new),
        ensures
            final(self).wf(),
            final(self).constant == old(self).constant,
            old(self).is_normal() ==> final(self).is_normal(),
            forall|i: int|
                0 <= i < old(self).monomials@.len() ==> final(self).coefficient(
                    remap_id(*old_to_new, #[trigger] old(self).monomials@[i].0),
                ) == old(self).monomials@[i].1.val(),
            forall|j: int|
                0 <= j < final(self).monomials@.len() ==> exists|i: int|
                    0 <= i < old(self).monomials@.len() && #[trigger] final(self).monomials@[j] == (
                    remap_id(*old_to_new, old(self).monomials@[i].0),
                    old(self).monomials@[i].1,
                ),
    {
        let ghost old_terms = self.monomials@;
        let bound = self.constant.bound;
        let mut r: Vec<(FormulaId, ConcreteBitvector)> = Vec::new();
        let mut i: usize = 0;
        while i < self.monomials.len()
            invariant
                old_terms == self.monomials@,
                *self == *old(self),
                0 <= i <= old_terms.len(),
                terms_wf(old_terms, bound),
                forall|j: int| 0 <= j < old_terms.len() ==> id_remappable(*old_to_new, #[trigger] old_terms[j].0),
                terms_wf(r@, bound),
                terms_keys_wf(r@),
                terms_nonzero(old_terms) ==> terms_nonzero(r@),
                forall|j: int| 0 <= j < i ==> coeff_of(r@, remap_id(*old_to_new, #[trigger] old_terms[j].0)) == old_terms[j].1.val(),
                forall|x: int|
                    0 <= x < r@.len() ==> exists|j: int|
                        0 <= j < i && #[trigger] r@[x] == (remap_id(*old_to_new, old_terms[j].0), old_terms[j].1),
            decreases old_terms.len() - i,
        {
            let (id, coefficient) = self.monomials[i];
            let new_id = remap_formula_id(old_to_new, id);
            let ghost old_r = r@;
            r = insert_term(&r, (new_id, coefficient), bound);
            proof {
                assert forall|j: int| 0 <= j < i + 1 implies coeff_of(r@, remap_id(*old_to_new, #[trigger] old_terms[j].0))
                    == old_terms[j].1.val() by {
                    if j < i {
                        assert(old_terms[j].0.key_lt(old_terms[i as int].0));
                        assert(id_remappable(*old_to_new, old_terms[j].0));
                    }
                }
                assert forall|x: int| 0 <= x < r@.len() implies exists|j: int|
                    0 <= j < i + 1 && #[trigger] r@[x] == (remap_id(*old_to_new, old_terms[j].0), old_terms[j].1) by {
                    if r@[x] == (new_id, coefficient) {
                        assert(r@[x] == (remap_id(*old_to_new, old_terms[i as int].0), old_terms[i as int].1));
                    } else {
                        assert(old_r.contains(r@[x]));
                        let y = choose|y: int| 0 <= y < old_r.len() && old_r[y] == r@[x];
                        assert(exists|j: int| 0 <= j < i && #[trigger] old_r[y] == (remap_id(*old_to_new, old_terms[j].0), old_terms[j].1));
                    }
                }
            }
            i = i + 1;
        }
        self.monomials = r;
    }

    /// The text of the combination: `(monomials + constant) mod 2^width`,
    /// the constant left out where it is zero and there are monomials.
    pub open spec fn text(self) -> Seq<char> {
        "("@ + (if self.monomials@.len() == 0 {
            decimal(self.constant.val())
        } else if self.constant.val() != 0 {
            monomials_text(self.monomials@) + " + "@ + decimal(self.constant.val())
        } else {
            monomials_text(self.monomials@)
        }) + ") mod "@ + decimal(pow2(self.constant.bound.width as nat))
    }

    /// Appends the text of the combination.
    pub fn write_text(&self, out: &mut String)
        requires
            self.wf(),
        ensures
            final(out)@ == old(out)@ + self.text(),
    {
        out.append("(");
        let ghost start = out@;
        let terms = &self.monomials;
        let mut i: usize = 0;
        while i < terms.len()
            invariant
                terms == &self.monomials,
                self.wf(),
                0 <= i <= terms@.len(),
                out@ == start + monomials_text(terms@.take(i as int)),
            decreases terms@.len() - i,
        {
            if i > 0 {
                out.append(" + ");
            }
            let (id, coefficient) = terms[i];
            proof {
                assert(coefficient.wf());
            }
            let one = ConcreteBitvector::one(coefficient.bound());
            if coefficient.value != one.value {
                append_decimal(out, coefficient.value as u128);
                out.append("*");
            }
            write_formula(out, id);
            proof {
                let t = terms@.take(i + 1);
                assert(t.drop_last() =~= terms@.take(i as int));
                assert(t.last() == terms@[i as int]);
                if i == 0 {
                    assert(t.len() == 1);
                    assert(terms@.take(0) =~= Seq::<(FormulaId, ConcreteBitvector)>::empty());
                }
                assert(out@ =~= start + monomials_text(terms@.take(i + 1)));
            }
            i = i + 1;
        }
        proof {
            assert(terms@.take(terms@.len() as int) =~= terms@);
        }
        if terms.len() == 0 {
            append_decimal(out, self.constant.value as u128);
        } else if self.constant.value != 0 {
            out.append(" + ");
            append_decimal(out, self.constant.value as u128);
        }
        out.append(") mod ");
        append_decimal(out, modulus_u128(self.constant.bound));
        proof {
            assert(final(out)@ =~= old(out)@ + self.text());
        }
    }
}

} // verus!
