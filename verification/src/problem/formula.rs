//! Identifiers of variables and operations in a problem.
use vstd::prelude::*;

use crate::problem::terms::TermKey;

pub mod operation;

verus! {

/// Variable id.
#[derive(Clone, Copy, PartialEq, Eq, Structural, Debug, Hash, PartialOrd, Ord)]
pub struct VariableId(pub usize);

/// Operation id.
#[derive(Clone, Copy, PartialEq, Eq, Structural, Debug, Hash, PartialOrd, Ord)]
pub struct OperationId(pub usize);

/// Formula id: either a variable or the result of an operation.
#[derive(Clone, Copy, PartialEq, Eq, Structural, Debug, Hash, PartialOrd, Ord)]
pub enum FormulaId {
    Variable(VariableId),
    Operation(OperationId),
}

/// Bitvector variable.
#[derive(Clone, Copy, PartialEq, Eq, Structural, Debug)]
pub struct Variable {
    pub width: u32,
}

/// The formula ids in the order of their derived ordering: variables first,
/// then operations, each by index.
pub open spec fn formula_lt(a: FormulaId, b: FormulaId) -> bool {
    match (a, b) {
        (FormulaId::Variable(x), FormulaId::Variable(y)) => x.0 < y.0,
        (FormulaId::Variable(_), FormulaId::Operation(_)) => true,
        (FormulaId::Operation(_), FormulaId::Variable(_)) => false,
        (FormulaId::Operation(x), FormulaId::Operation(y)) => x.0 < y.0,
    }
}

/// Exec form of `formula_lt`.
pub fn formula_less(a: &FormulaId, b: &FormulaId) -> (r: bool)
    ensures
        r == formula_lt(*a, *b),
{
    match (a, b) {
        (FormulaId::Variable(x), FormulaId::Variable(y)) => x.0 < y.0,
        (FormulaId::Variable(_), FormulaId::Operation(_)) => true,
        (FormulaId::Operation(_), FormulaId::Variable(_)) => false,
        (FormulaId::Operation(x), FormulaId::Operation(y)) => x.0 < y.0,
    }
}

impl FormulaId {
    /// The operation id if the formula is an operation result.
    pub fn operation_id(self) -> (r: Option<OperationId>)
        ensures
            r == (match self {
                FormulaId::Operation(operation_id) => Some(operation_id),
                FormulaId::Variable(_) => None::<OperationId>,
            }),
    {
        if let FormulaId::Operation(operation_id) = self {
            Some(operation_id)
        } else {
            None
        }
    }
}

impl OperationId {
    pub fn formula_id(self) -> (r: FormulaId)
        ensures
            r == FormulaId::Operation(self),
    {
        FormulaId::Operation(self)
    }
}

impl TermKey for FormulaId {
    open spec fn key_lt(self, other: Self) -> bool {
        formula_lt(self, other)
    }

    open spec fn key_wf(self) -> bool {
        true
    }

    proof fn lemma_key_order(a: Self, b: Self, c: Self) {
    }

    fn key_less(&self, other: &Self) -> (r: bool) {
        formula_less(self, other)
    }

    fn key_equal(&self, other: &Self) -> (r: bool) {
        *self == *other
    }
}

} // verus!
