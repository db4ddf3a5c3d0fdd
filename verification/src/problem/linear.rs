//! Linear combinations of whole formula results, and relations of them:
//! the first form of the linear abstraction, keyed by formula.
use vstd::prelude::*;

use crate::domain::bitvector::{ConcreteBitvector, RBound};
use crate::problem::formula::FormulaId;
use crate::problem::terms::{coeff_of, terms_keys_wf, terms_nonzero, terms_sum, terms_wf};

pub mod arith;
pub mod bitwise;
pub mod combination;
pub mod relation;
pub mod system;

verus! {

/// A linear combination `constant + sum(coefficient * formula)` modulo
/// `2^width`, the monomials sorted by formula, each formula at most once.
#[derive(Clone, Debug, PartialEq, Eq, Hash)]
pub struct LinearCombination {
    pub constant: ConcreteBitvector,
    pub monomials: Vec<(FormulaId, ConcreteBitvector)>,
}

/// A linear relation `combination <= slack`; with zero slack, an equality.
#[derive(Clone, Debug, PartialEq, Eq, Hash)]
pub struct LinearRelation {
    /// Left-side linear combination.
    pub combination: LinearCombination,
    /// Right-side slack value.
    pub slack: ConcreteBitvector,
}

impl LinearCombination {
    /// The constant and the coefficients are well-formed and share the
    /// bound; the monomials are sorted.
    pub open spec fn wf(self) -> bool {
        &&& self.constant.wf()
        &&& terms_wf(self.monomials@, self.constant.bound)
        &&& terms_keys_wf(self.monomials@)
    }

    /// No monomial has a zero coefficient.
    pub open spec fn is_normal(self) -> bool {
        terms_nonzero(self.monomials@)
    }

    pub open spec fn spec_bound(self) -> RBound {
        self.constant.bound
    }

    pub open spec fn modulus(self) -> nat {
        self.constant.bound.modulus()
    }

    /// The coefficient of a formula, zero if it has no monomial.
    pub open spec fn coefficient(self, id: FormulaId) -> nat {
        coeff_of(self.monomials@, id)
    }

    /// The value of the combination when each formula has the value `tv(id)`.
    pub open spec fn eval(self, tv: spec_fn(FormulaId) -> int) -> int {
        (self.constant.val() + terms_sum(self.monomials@, tv)) % (self.modulus() as int)
    }
}

} // verus!
