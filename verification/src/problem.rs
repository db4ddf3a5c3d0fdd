//! The satisfiability problem: formulas, operations and their linear abstraction.
use vstd::prelude::*;

use crate::domain::bitvector::RBound;
use crate::domain::three_valued_bitvector::ThreeValuedBitvector;
use crate::domain::value::three_valued::ThreeValued;

pub mod assignment;
pub mod decision;
pub mod domain;
pub mod evaluator;
pub mod three_valued_eval;
pub mod formula;
pub mod linear;
pub mod operation;
pub mod remap;
pub mod solution;
pub mod terms;
pub mod text;
pub mod valuation;

use assignment::Assignment;
use formula::{FormulaId, OperationId, Variable, VariableId};
use operation::Operation;

verus! {

/// A satisfiability problem: bitvector variables, operations on them and
/// on other operation results, and the formula that serves as the
/// assertion. The assertion has a single-bit result; the problem is
/// satisfiable exactly if it evaluates to one under some assignment of the
/// variables.
#[derive(Debug)]
pub struct Problem {
    pub variables: Vec<Variable>,
    pub operations: Vec<Operation>,
    pub assertion: FormulaId,
}

impl Problem {
    pub fn new(variables: Vec<Variable>, operations: Vec<Operation>, assertion: FormulaId) -> (r: Problem)
        ensures
            r.variables@ == variables@,
            r.operations@ == operations@,
            r.assertion == assertion,
    {
        Problem { variables, operations, assertion }
    }

    pub fn variables(&self) -> (r: &[Variable])
        ensures
            r@ == self.variables@,
    {
        self.variables.as_slice()
    }

    pub fn variable(&self, id: VariableId) -> (r: &Variable)
        requires
            id.0 < self.variables@.len(),
        ensures
            *r == self.variables@[id.0 as int],
    {
        &self.variables[id.0]
    }

    pub fn operation(&self, id: OperationId) -> (r: &Operation)
        requires
            id.0 < self.operations@.len(),
        ensures
            *r == self.operations@[id.0 as int],
    {
        &self.operations[id.0]
    }

    pub fn assertion(&self) -> (r: FormulaId)
        ensures
            r == self.assertion,
    {
        self.assertion
    }

    /// The result read off the assertion alone: known where the assertion
    /// is a constant operation, unknown otherwise.
    pub fn trivial_result(&self) -> (r: ThreeValued)
        requires
            self.assertion matches FormulaId::Operation(o) ==> o.0 < self.operations@.len() && (
            self.operations@[o.0 as int] matches Operation::Constant(_, width) ==> width == 1),
        ensures
            r == match self.assertion {
                FormulaId::Operation(o) => match self.operations@[o.0 as int] {
                    Operation::Constant(value, _) => if value != 0 {
                        ThreeValued::True
                    } else {
                        ThreeValued::False
                    },
                    _ => ThreeValued::Unknown,
                },
                _ => ThreeValued::Unknown,
            },
    {
        let FormulaId::Operation(operation_id) = self.assertion else {
            return ThreeValued::Unknown;
        };
        match self.operation(operation_id) {
            Operation::Constant(value, _width) => ThreeValued::from_bool(*value != 0),
            _ => ThreeValued::Unknown,
        }
    }

    /// The assignment where every bit of every variable is unknown.
    pub fn unknown_assignment(&self) -> (r: Assignment)
        requires
            forall|i: int| 0 <= i < self.variables@.len() ==> (#[trigger] self.variables@[i]).width <= 64,
        ensures
            r.wf(),
            r.values@.len() == self.variables@.len(),
            forall|i: int|
                0 <= i < r.values@.len() ==> (#[trigger] r.values@[i]).bound.width == self.variables@[i].width
                    && r.values@[i].zeros == r.values@[i].ones,
            forall|i: int, j: u64|
                0 <= i < r.values@.len() && j < self.variables@[i].width ==> #[trigger] r.values@[i].bit(j)
                    == ThreeValued::Unknown,
    {
        let mut assignment = Assignment { values: Vec::new() };
        let mut i: usize = 0;
        while i < self.variables.len()
            invariant
                0 <= i <= self.variables@.len(),
                forall|k: int| 0 <= k < self.variables@.len() ==> (#[trigger] self.variables@[k]).width <= 64,
                assignment.wf(),
                assignment.values@.len() == i,
                forall|k: int|
                    0 <= k < i ==> (#[trigger] assignment.values@[k]).bound.width == self.variables@[k].width
                        && assignment.values@[k].zeros == assignment.values@[k].ones,
                forall|k: int, j: u64|
                    0 <= k < i && j < self.variables@[k].width ==> #[trigger] assignment.values@[k].bit(j)
                        == ThreeValued::Unknown,
            decreases self.variables@.len() - i,
        {
            let width = self.variables[i].width;
            let top = ThreeValuedBitvector::top(RBound::new(width));
            proof {
                assert forall|j: u64| j < width implies #[trigger] top.bit(j) == ThreeValued::Unknown by {
                    crate::domain::three_valued_bitvector::lemma_bit_within_mask(j, top.bound);
                }
            }
            assignment.values.push(top);
            i = i + 1;
        }
        assignment
    }
}

} // verus!
