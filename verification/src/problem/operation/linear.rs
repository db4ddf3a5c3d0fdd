//! Linear abstraction of bitvector operations: polynomials and systems of
//! relations over slices of formula results.
use vstd::prelude::*;

use crate::domain::bitvector::{ConcreteBitvector, RBound};
use crate::problem::formula::FormulaId;
use crate::problem::valuation::FormulaValues;

pub mod combination;
pub mod monomial;
pub mod polynomial;
pub mod relation;
pub mod remap;
pub mod slice;
pub mod system;

pub use combination::LinearCombination;
pub use monomial::LinearMonomial;
pub use polynomial::LinearPolynomial;
pub use relation::LinearRelation;
pub use slice::LinearSlice;
pub use system::LinearSystem;

verus! {

/// A linear operation: a polynomial, or a system of relations whose result
/// is a single bit.
#[derive(Clone, Debug, PartialEq, Eq, Hash)]
pub struct LinearOperation(pub LinearOperationType);

#[derive(Clone, Debug, PartialEq, Eq, Hash)]
pub enum LinearOperationType {
    Polynomial(LinearPolynomial),
    System(LinearSystem),
}

impl LinearOperation {
    pub open spec fn wf(self) -> bool {
        match self.0 {
            LinearOperationType::Polynomial(polynomial) => polynomial.wf(),
            LinearOperationType::System(system) => system.wf(),
        }
    }

    /// The value of the operation when each slice has the value `tv(slice)`:
    /// a system gives one where it holds and zero where it does not.
    pub open spec fn value(self, tv: spec_fn(LinearSlice) -> int) -> int {
        match self.0 {
            LinearOperationType::Polynomial(polynomial) => polynomial.eval(tv),
            LinearOperationType::System(system) => if system.holds(tv) {
                1
            } else {
                0
            },
        }
    }

    /// The operation can be evaluated on the values.
    pub open spec fn evaluable(self, values: FormulaValues) -> bool {
        match self.0 {
            LinearOperationType::Polynomial(polynomial) => polynomial.evaluable(values),
            LinearOperationType::System(system) => system.evaluable(values),
        }
    }

    /// The value of the operation on concrete formula values.
    pub fn evaluate(&self, values: &FormulaValues) -> (r: ConcreteBitvector)
        requires
            self.wf(),
            values.wf(),
            self.evaluable(*values),
        ensures
            r.wf(),
            r.bound == self.spec_result_bound(),
            r.val() == self.value(values.slice_values()),
    {
        match &self.0 {
            LinearOperationType::Polynomial(polynomial) => polynomial.evaluate(values),
            LinearOperationType::System(system) => {
                let r = system.evaluate(values);
                ConcreteBitvector::new(r.to_u64(), RBound::single_bit_bound())
            },
        }
    }

    pub fn from_polynomial(polynomial: LinearPolynomial) -> (r: LinearOperation)
        ensures
            r.0 == LinearOperationType::Polynomial(polynomial),
    {
        LinearOperation(LinearOperationType::Polynomial(polynomial))
    }

    /// The operation of a system, as a polynomial where the system converts
    /// to one.
    pub fn from_system(system: LinearSystem) -> (r: LinearOperation)
        requires
            system.wf(),
        ensures
            r.wf(),
            r.0 is System <==> !system.spec_converts_to_polynomial(),
            r.0 is System ==> r.0 == LinearOperationType::System(system),
            r.0 is Polynomial ==> {
                let width = system.relations()[0].polynomial.constant_term.bound.width;
                &&& width != 0 ==> r.spec_result_bound().width == 1
                &&& forall|tv: spec_fn(LinearSlice) -> int|
                    width != 0 && (width == 1 || system.relations()[0].polynomial.values_fit(tv)) ==> #[trigger] r.value(tv)
                        == if system.holds(tv) {
                        1int
                    } else {
                        0int
                    }
            },
    {
        match system.try_into_polynomial() {
            Ok(polynomial) => Self::from_polynomial(polynomial),
            Err(system) => LinearOperation(LinearOperationType::System(system)),
        }
    }

    /// The polynomial of the operation, or the operation back.
    pub fn try_into_polynomial(self) -> (r: Result<LinearPolynomial, LinearOperation>)
        ensures
            match self.0 {
                LinearOperationType::Polynomial(polynomial) => r == Ok::<LinearPolynomial, LinearOperation>(polynomial),
                _ => r == Err::<LinearPolynomial, LinearOperation>(self),
            },
    {
        match self.0 {
            LinearOperationType::Polynomial(polynomial) => Ok(polynomial),
            ty => Err(LinearOperation(ty)),
        }
    }

    /// The constant of a polynomial without terms.
    pub fn constant_value(&self) -> (r: Option<ConcreteBitvector>)
        ensures
            r == match self.0 {
                LinearOperationType::Polynomial(polynomial) => if polynomial.linear_terms@.len() == 0 {
                    Some(polynomial.constant_term)
                } else {
                    None
                },
                _ => None,
            },
    {
        match &self.0 {
            LinearOperationType::Polynomial(polynomial) => polynomial.constant_value(),
            _ => None,
        }
    }

    pub fn into_type(self) -> (r: LinearOperationType)
        ensures
            r == self.0,
    {
        self.0
    }

    /// The formula ids that the operation uses.
    pub open spec fn spec_used_ids(self) -> Seq<FormulaId> {
        match self.0 {
            LinearOperationType::Polynomial(polynomial) => polynomial.spec_used_ids(),
            LinearOperationType::System(system) => system.relations().map_values(
                |relation: LinearRelation| relation.polynomial.spec_used_ids(),
            ).flatten(),
        }
    }

    /// The bound of the result: a system gives a single bit.
    pub open spec fn spec_result_bound(self) -> RBound {
        match self.0 {
            LinearOperationType::Polynomial(polynomial) => polynomial.constant_term.bound,
            LinearOperationType::System(_) => RBound { width: 1 },
        }
    }

    pub fn result_bound(&self) -> (r: RBound)
        ensures
            r == self.spec_result_bound(),
    {
        match &self.0 {
            LinearOperationType::Polynomial(polynomial) => polynomial.bound(),
            LinearOperationType::System(_) => RBound::single_bit_bound(),
        }
    }

    /// The formula ids that the operation uses.
    pub fn used_ids(&self) -> (r: Vec<FormulaId>)
        ensures
            r@ == self.spec_used_ids(),
    {
        match &self.0 {
            LinearOperationType::Polynomial(polynomial) => polynomial.used_ids(),
            LinearOperationType::System(system) => system.used_ids(),
        }
    }

    /// Bitwise negation: of the polynomial, or of the system (a negation
    /// that is a constant becomes a single-bit polynomial).
    pub fn bit_not(self) -> (r: LinearOperation)
        requires
            self.wf(),
        ensures
            r.wf(),
            self.0 is Polynomial ==> r.0 is Polynomial && r.spec_result_bound() == self.spec_result_bound() && forall|
                tv: spec_fn(LinearSlice) -> int,
            | #[trigger] r.value(tv) == self.spec_result_bound().modulus() - 1 - self.value(tv),
            self.0 is System && r.0 is System ==> forall|tv: spec_fn(LinearSlice) -> int|
                #[trigger] r.value(tv) == 1 - self.value(tv),
    {
        match self.0 {
            LinearOperationType::Polynomial(polynomial) => LinearOperation(
                LinearOperationType::Polynomial(polynomial.bit_not()),
            ),
            LinearOperationType::System(system) => match system.bit_not() {
                Ok(system) => Self::from_system(system),
                Err(constant) => LinearOperation(LinearOperationType::Polynomial(LinearPolynomial::single_bit(constant))),
            },
        }
    }
}

} // verus!
