//! Renumbering the formulas of linear polynomials, relations and systems.
use vstd::prelude::*;

use crate::domain::bitvector::{ConcreteBitvector, RBound};
use crate::problem::remap::{id_remappable, remap_formula_id, remap_id, remap_injective_at, try_remap_id, Remapping};
use crate::problem::terms::{coeff_of, insert_term, terms_keys_wf, terms_nonzero, terms_wf, TermKey};

use super::combination::LinearCombination;
use super::polynomial::LinearPolynomial;
use super::relation::LinearRelation;
use super::slice::LinearSlice;
use super::system::LinearSystem;
use super::{LinearOperation, LinearOperationType};

verus! {

/// The slice with its formula renumbered.
pub open spec fn remap_slice(m: Remapping, slice: LinearSlice) -> LinearSlice {
    LinearSlice { formula_id: remap_id(m, slice.formula_id), lsb: slice.lsb, width: slice.width }
}

/// Every formula of the terms has a new formula.
pub open spec fn terms_remappable(m: Remapping, terms: Seq<(LinearSlice, ConcreteBitvector)>) -> bool {
    forall|i: int| 0 <= i < terms.len() ==> id_remappable(m, #[trigger] terms[i].0.formula_id)
}

/// The new terms are the old ones with their slices renumbered: each
/// renumbered slice has its old coefficient, and each new term is a
/// renumbered old term.
pub open spec fn terms_remap_of(
    new: Seq<(LinearSlice, ConcreteBitvector)>,
    old: Seq<(LinearSlice, ConcreteBitvector)>,
    m: Remapping,
) -> bool {
    &&& forall|i: int| 0 <= i < old.len() ==> coeff_of(new, remap_slice(m, #[trigger] old[i].0)) == old[i].1.val()
    &&& forall|j: int|
        0 <= j < new.len() ==> exists|i: int| 0 <= i < old.len() && #[trigger] new[j] == (remap_slice(m, old[i].0), old[i].1)
}

/// The terms with their formulas renumbered, sorted anew.
pub fn remap_terms(terms: &Vec<(LinearSlice, ConcreteBitvector)>, bound: RBound, m: &Remapping) -> (r: Vec<
    (LinearSlice, ConcreteBitvector),
>)
    requires
        terms_wf(terms@, bound),
        terms_keys_wf(terms@),
        terms_remappable(*m, terms@),
    ensures
        terms_wf(r@, bound),
        terms_keys_wf(r@),
        terms_nonzero(terms@) ==> terms_nonzero(r@),
        terms_remap_of(r@, terms@, *m),
{
    let ghost old = terms@;
    let mut r: Vec<(LinearSlice, ConcreteBitvector)> = Vec::new();
    let mut i: usize = 0;
    while i < terms.len()
        invariant
            old == terms@,
            0 <= i <= old.len(),
            terms_wf(old, bound),
            terms_keys_wf(old),
            terms_remappable(*m, old),
            terms_wf(r@, bound),
            terms_keys_wf(r@),
            terms_nonzero(old) ==> terms_nonzero(r@),
            forall|j: int| 0 <= j < i ==> coeff_of(r@, remap_slice(*m, #[trigger] old[j].0)) == old[j].1.val(),
            forall|x: int|
                0 <= x < r@.len() ==> exists|j: int| 0 <= j < i && #[trigger] r@[x] == (remap_slice(*m, old[j].0), old[j].1),
        decreases old.len() - i,
    {
        let (slice, coefficient) = terms[i];
        let new_id = remap_formula_id(m, slice.formula_id);
        let new_slice = LinearSlice { formula_id: new_id, lsb: slice.lsb, width: slice.width };
        let ghost old_r = r@;
        proof {
            assert(old[i as int].0.wf());
            assert(coefficient.wf() && coefficient.bound == bound);
        }
        r = insert_term(&r, (new_slice, coefficient), bound);
        proof {
            assert forall|j: int| 0 <= j < i + 1 implies coeff_of(r@, remap_slice(*m, #[trigger] old[j].0)) == old[j].1.val() by {
                if j < i {
                    assert(old[j].0.key_lt(old[i as int].0));
                    assert(id_remappable(*m, old[j].0.formula_id));
                    assert(remap_slice(*m, old[j].0) != new_slice);
                }
            }
            assert forall|x: int| 0 <= x < r@.len() implies exists|j: int|
                0 <= j < i + 1 && #[trigger] r@[x] == (remap_slice(*m, old[j].0), old[j].1) by {
                if r@[x] == (new_slice, coefficient) {
                    assert(r@[x] == (remap_slice(*m, old[i as int].0), old[i as int].1));
                } else {
                    assert(old_r.contains(r@[x]));
                    let y = choose|y: int| 0 <= y < old_r.len() && old_r[y] == r@[x];
                    assert(exists|j: int| 0 <= j < i && #[trigger] old_r[y] == (remap_slice(*m, old[j].0), old[j].1));
                }
            }
        }
        i = i + 1;
    }
    r
}

/// Whether every formula of the terms has a new formula.
pub fn terms_all_remappable(terms: &Vec<(LinearSlice, ConcreteBitvector)>, m: &Remapping) -> (r: bool)
    ensures
        r == terms_remappable(*m, terms@),
{
    let mut i: usize = 0;
    while i < terms.len()
        invariant
            0 <= i <= terms.len(),
            forall|j: int| 0 <= j < i ==> id_remappable(*m, #[trigger] terms@[j].0.formula_id),
        decreases terms.len() - i,
    {
        if try_remap_id(m, terms[i].0.formula_id).is_none() {
            return false;
        }
        i = i + 1;
    }
    true
}

impl LinearPolynomial {
    /// Every formula of the polynomial has a new formula.
    pub open spec fn remappable(self, m: Remapping) -> bool {
        terms_remappable(m, self.linear_terms@)
    }

    /// This polynomial is the old one with its formulas renumbered.
    pub open spec fn is_remap_of(self, old: LinearPolynomial, m: Remapping) -> bool {
        &&& self.constant_term == old.constant_term
        &&& terms_remap_of(self.linear_terms@, old.linear_terms@, m)
    }

    /// The polynomial with its formulas renumbered.
    pub fn remapped(&self, old_to_new: &Remapping) -> (r: LinearPolynomial)
        requires
            self.wf(),
            self.remappable(*old_to_new),
        ensures
            r.wf(),
            r.is_remap_of(*self, *old_to_new),
            self.is_normal() ==> r.is_normal(),
    {
        let linear_terms = remap_terms(&self.linear_terms, self.constant_term.bound, old_to_new);
        LinearPolynomial { linear_terms, constant_term: self.constant_term }
    }

    /// Renumbers the formulas of the polynomial.
    pub fn remap(&mut self, old_to_new: &Remapping)
        requires
            old(self).wf(),
            old(self).remappable(*old_to_new),
        ensures
            final(self).wf(),
            final(self).is_remap_of(*old(self), *old_to_new),
            old(self).is_normal() ==> final(self).is_normal(),
    {
        *self = self.remapped(old_to_new);
    }
}

impl LinearCombination {
    /// Every formula of the combination has a new formula.
    pub open spec fn remappable(self, m: Remapping) -> bool {
        terms_remappable(m, self.monomials@)
    }

    /// Renumbers the formulas of the combination.
    pub fn remap(&mut self, old_to_new: &Remapping)
        requires
            old(self).wf(),
            old(self).remappable(*old_to_new),
        ensures
            final(self).wf(),
            final(self).constant == old(self).constant,
            terms_remap_of(final(self).monomials@, old(self).monomials@, *old_to_new),
            old(self).is_normal() ==> final(self).is_normal(),
    {
        self.monomials = remap_terms(&self.monomials, self.constant.bound, old_to_new);
    }
}

impl LinearRelation {
    /// Every formula of the relation has a new formula.
    pub open spec fn remappable(self, m: Remapping) -> bool {
        self.polynomial.remappable(m)
    }

    /// This relation is the old one with its formulas renumbered.
    pub open spec fn is_remap_of(self, old: LinearRelation, m: Remapping) -> bool {
        &&& self.slack == old.slack
        &&& self.polynomial.is_remap_of(old.polynomial, m)
    }

    /// The relation with its formulas renumbered.
    pub fn remapped(&self, old_to_new: &Remapping) -> (r: LinearRelation)
        requires
            self.wf(),
            self.remappable(*old_to_new),
        ensures
            r.wf(),
            r.is_remap_of(*self, *old_to_new),
    {
        LinearRelation { polynomial: self.polynomial.remapped(old_to_new), slack: self.slack }
    }

    /// Renumbers the formulas of the relation.
    pub fn remap(&mut self, old_to_new: &Remapping)
        requires
            old(self).wf(),
            old(self).remappable(*old_to_new),
        ensures
            final(self).wf(),
            final(self).is_remap_of(*old(self), *old_to_new),
    {
        *self = self.remapped(old_to_new);
    }
}

/// The relations with their formulas renumbered.
fn remap_relations(relations: &Vec<LinearRelation>, m: &Remapping) -> (r: Vec<LinearRelation>)
    requires
        forall|i: int| 0 <= i < relations@.len() ==> (#[trigger] relations@[i]).wf() && relations@[i].remappable(*m),
    ensures
        r@.len() == relations@.len(),
        forall|i: int| 0 <= i < r@.len() ==> (#[trigger] r@[i]).wf() && r@[i].is_remap_of(relations@[i], *m),
{
    let mut r: Vec<LinearRelation> = Vec::new();
    let mut i: usize = 0;
    while i < relations.len()
        invariant
            0 <= i <= relations@.len(),
            forall|j: int| 0 <= j < relations@.len() ==> (#[trigger] relations@[j]).wf() && relations@[j].remappable(*m),
            r@.len() == i,
            forall|j: int| 0 <= j < i ==> (#[trigger] r@[j]).wf() && r@[j].is_remap_of(relations@[j], *m),
        decreases relations@.len() - i,
    {
        r.push(relations[i].remapped(m));
        i = i + 1;
    }
    r
}

impl LinearSystem {
    /// Every formula of the system has a new formula.
    pub open spec fn remappable(self, m: Remapping) -> bool {
        forall|i: int| 0 <= i < self.relations().len() ==> (#[trigger] self.relations()[i]).remappable(m)
    }

    /// This system is the old one, of the same kind, with the formulas of
    /// each relation renumbered.
    pub open spec fn is_remap_of(self, old: LinearSystem, m: Remapping) -> bool {
        &&& (self is Single <==> old is Single)
        &&& (self is Conjunction <==> old is Conjunction)
        &&& (self is Disjunction <==> old is Disjunction)
        &&& self.relations().len() == old.relations().len()
        &&& forall|i: int|
            0 <= i < self.relations().len() ==> (#[trigger] self.relations()[i]).is_remap_of(old.relations()[i], m)
    }

    /// The system with its formulas renumbered.
    pub fn remapped(&self, old_to_new: &Remapping) -> (r: LinearSystem)
        requires
            self.wf(),
            self.remappable(*old_to_new),
        ensures
            r.wf(),
            r.is_remap_of(*self, *old_to_new),
    {
        match self {
            LinearSystem::Single(relation) => {
                assert(self.relations()[0] == *relation);
                let r = LinearSystem::Single(relation.remapped(old_to_new));
                assert(r.relations()[0].is_remap_of(self.relations()[0], *old_to_new));
                r
            },
            LinearSystem::Conjunction(relations) => {
                assert(relations@ == self.relations());
                LinearSystem::Conjunction(remap_relations(relations, old_to_new))
            },
            LinearSystem::Disjunction(relations) => {
                assert(relations@ == self.relations());
                LinearSystem::Disjunction(remap_relations(relations, old_to_new))
            },
        }
    }

    /// Renumbers the formulas of the system.
    pub fn remap(&mut self, old_to_new: &Remapping)
        requires
            old(self).wf(),
            old(self).remappable(*old_to_new),
        ensures
            final(self).wf(),
            final(self).is_remap_of(*old(self), *old_to_new),
    {
        *self = self.remapped(old_to_new);
    }

    /// Whether every formula of the system has a new formula.
    pub fn all_remappable(&self, m: &Remapping) -> (r: bool)
        ensures
            r == self.remappable(*m),
    {
        match self {
            LinearSystem::Single(relation) => {
                let r = terms_all_remappable(&relation.polynomial.linear_terms, m);
                assert(self.relations()[0] == *relation);
                r
            },
            LinearSystem::Conjunction(relations) | LinearSystem::Disjunction(relations) => {
                let mut i: usize = 0;
                while i < relations.len()
                    invariant
                        0 <= i <= relations@.len(),
                        relations@ == self.relations(),
                        forall|j: int| 0 <= j < i ==> (#[trigger] relations@[j]).remappable(*m),
                    decreases relations@.len() - i,
                {
                    if !terms_all_remappable(&relations[i].polynomial.linear_terms, m) {
                        return false;
                    }
                    i = i + 1;
                }
                true
            },
        }
    }
}

impl LinearOperation {
    /// Every formula of the operation has a new formula.
    pub open spec fn remappable(self, m: Remapping) -> bool {
        match self.0 {
            LinearOperationType::Polynomial(polynomial) => polynomial.remappable(m),
            LinearOperationType::System(system) => system.remappable(m),
        }
    }

    /// This operation is the old one, of the same kind, with its formulas
    /// renumbered.
    pub open spec fn is_remap_of(self, old: LinearOperation, m: Remapping) -> bool {
        match (self.0, old.0) {
            (LinearOperationType::Polynomial(p), LinearOperationType::Polynomial(q)) => p.is_remap_of(q, m),
            (LinearOperationType::System(s), LinearOperationType::System(t)) => s.is_remap_of(t, m),
            _ => false,
        }
    }

    /// The operation with its formulas renumbered.
    pub fn remapped(&self, old_to_new: &Remapping) -> (r: LinearOperation)
        requires
            self.wf(),
            self.remappable(*old_to_new),
        ensures
            r.wf(),
            r.is_remap_of(*self, *old_to_new),
    {
        match &self.0 {
            LinearOperationType::Polynomial(polynomial) => LinearOperation(
                LinearOperationType::Polynomial(polynomial.remapped(old_to_new)),
            ),
            LinearOperationType::System(system) => LinearOperation(LinearOperationType::System(system.remapped(old_to_new))),
        }
    }

    /// Renumbers the formulas of the operation.
    pub fn remap(&mut self, old_to_new: &Remapping)
        requires
            old(self).wf(),
            old(self).remappable(*old_to_new),
        ensures
            final(self).wf(),
            final(self).is_remap_of(*old(self), *old_to_new),
    {
        *self = self.remapped(old_to_new);
    }

    /// Whether every formula of the operation has a new formula.
    pub fn all_remappable(&self, m: &Remapping) -> (r: bool)
        ensures
            r == self.remappable(*m),
    {
        match &self.0 {
            LinearOperationType::Polynomial(polynomial) => terms_all_remappable(&polynomial.linear_terms, m),
            LinearOperationType::System(system) => system.all_remappable(m),
        }
    }
}

} // verus!
