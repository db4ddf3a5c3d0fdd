//! Operations of function applications.
use vstd::prelude::*;

use crate::problem::formula::FormulaId;
use crate::problem::operation::{BiOp, BiOperator, ExtOp, IteOp, Operation, UniOp, UniOperator};

use super::model::{
    add_op, application_operation, bi_operator_of, compile_application, id_valid, index_numeral,
    lemma_add_op_wf, lemma_application_operation, model_wf, width_of, ParseError, extends,
};
use super::syntax::{SmtIdentifier, SmtIndex, SmtQualIdentifier};
use super::text::text_equal;
use super::Parser;

verus! {

/// The binary operator of a function symbol.
fn bi_operator(name: &str) -> (r: Option<BiOperator>)
    ensures
        r == bi_operator_of(name@),
{
    if text_equal(name, "=") {
        Some(BiOperator::Eq)
    } else if text_equal(name, "bvadd") {
        Some(BiOperator::Add)
    } else if text_equal(name, "bvsub") {
        Some(BiOperator::Sub)
    } else if text_equal(name, "and") || text_equal(name, "bvand") {
        Some(BiOperator::BitAnd)
    } else if text_equal(name, "or") || text_equal(name, "bvor") {
        Some(BiOperator::BitOr)
    } else if text_equal(name, "xor") || text_equal(name, "bvxor") {
        Some(BiOperator::BitXor)
    } else if text_equal(name, "bvshl") {
        Some(BiOperator::Shl)
    } else if text_equal(name, "bvlshr") {
        Some(BiOperator::Lshr)
    } else if text_equal(name, "bvashr") {
        Some(BiOperator::Ashr)
    } else {
        None
    }
}

/// The numeral of an index.
pub fn numeral_of(index: &SmtIndex) -> (r: Result<u32, ParseError>)
    ensures
        r == index_numeral(*index),
{
    match index {
        SmtIndex::Numeral(Some(n)) => Ok(*n),
        SmtIndex::Numeral(None) => Err(ParseError::NumeralTooBig),
        SmtIndex::Symbol(_) => Err(ParseError::NonNumeralIndex),
    }
}

impl Parser {
    /// The width of the result of a formula.
    pub fn formula_result_width(&self, id: FormulaId) -> (r: u32)
        requires
            model_wf(self.model()),
            id_valid(self.model(), id),
        ensures
            r == width_of(self.model(), id),
    {
        match id {
            FormulaId::Variable(variable_id) => self.variables[variable_id.0].width,
            FormulaId::Operation(operation_id) => {
                proof {
                    assert(0 <= self.model().operations[operation_id.0 as int].spec_result_width() <= u32::MAX);
                }
                self.operations[operation_id.0].result_width()
            },
        }
    }

    /// Adds the operation of an application of a function to the argument
    /// formulas and gives its formula.
    pub fn create_formula_from_application(&mut self, qual_identifier: SmtQualIdentifier, arguments: Vec<FormulaId>) -> (r:
        Result<FormulaId, ParseError>)
        requires
            model_wf(old(self).model()),
            forall|i: int| 0 <= i < arguments@.len() ==> id_valid(old(self).model(), #[trigger] arguments@[i]),
        ensures
            match compile_application(qual_identifier, arguments@, old(self).model()) {
                Ok((m, id)) => r == Ok::<FormulaId, ParseError>(id) && final(self).model() == m,
                Err(e) => r == Err::<FormulaId, ParseError>(e),
            },
            r is Ok ==> model_wf(final(self).model()) && final(self).scopes@ == old(self).scopes@,
            final(self).assertions@ == old(self).assertions@,
            final(self).results@ == old(self).results@,
            final(self).expected_result == old(self).expected_result,
    {
        let operation = match self.application_operation(qual_identifier, arguments) {
            Ok(operation) => operation,
            Err(e) => return Err(e),
        };
        proof {
            lemma_application_operation(qual_identifier, arguments@, self.model());
            lemma_add_op_wf(self.model(), operation);
        }
        Ok(self.add_operation(operation))
    }

    /// The operation of an application.
    fn application_operation(&self, qual_identifier: SmtQualIdentifier, arguments: Vec<FormulaId>) -> (r: Result<Operation, ParseError>)
        requires
            model_wf(self.model()),
            forall|i: int| 0 <= i < arguments@.len() ==> id_valid(self.model(), #[trigger] arguments@[i]),
        ensures
            r == application_operation(qual_identifier, arguments@, self.model()),
    {
        match qual_identifier {
            SmtQualIdentifier::Simple { identifier: SmtIdentifier::Simple { symbol } } => {
                let name = symbol.as_str();
                if text_equal(name, "not") || text_equal(name, "bvnot") {
                    self.create_uni_op(UniOperator::Not, arguments)
                } else if text_equal(name, "ite") {
                    self.create_ite_op(arguments)
                } else {
                    match bi_operator(name) {
                        Some(op) => self.create_bi_op(op, arguments),
                        None => Err(ParseError::UnsupportedApplication),
                    }
                }
            },
            SmtQualIdentifier::Simple { identifier: SmtIdentifier::Indexed { symbol, indices } } => {
                if text_equal(symbol.as_str(), "zero_extend") {
                    self.create_ext_op(false, indices, arguments)
                } else {
                    Err(ParseError::UnsupportedApplication)
                }
            },
            SmtQualIdentifier::Sorted { .. } => Err(ParseError::SortedIdentifier),
        }
    }

    fn create_uni_op(&self, op: UniOperator, arguments: Vec<FormulaId>) -> (r: Result<Operation, ParseError>)
        requires
            model_wf(self.model()),
            forall|i: int| 0 <= i < arguments@.len() ==> id_valid(self.model(), #[trigger] arguments@[i]),
        ensures
            r == if arguments@.len() != 1 {
                Err(ParseError::ArgumentCount)
            } else {
                Ok(Operation::UniOp(UniOp { op, input_width: width_of(self.model(), arguments@[0]) as u32, inner: arguments@[0] }))
            },
    {
        if arguments.len() != 1 {
            return Err(ParseError::ArgumentCount);
        }
        let inner = arguments[0];
        let input_width = self.formula_result_width(inner);
        Ok(Operation::UniOp(UniOp { op, input_width, inner }))
    }

    fn create_bi_op(&self, op: BiOperator, arguments: Vec<FormulaId>) -> (r: Result<Operation, ParseError>)
        requires
            model_wf(self.model()),
            forall|i: int| 0 <= i < arguments@.len() ==> id_valid(self.model(), #[trigger] arguments@[i]),
        ensures
            r == if arguments@.len() != 2 {
                Err(ParseError::ArgumentCount)
            } else if width_of(self.model(), arguments@[0]) != width_of(self.model(), arguments@[1]) {
                Err(ParseError::WidthMismatch)
            } else {
                Ok(
                    Operation::BiOp(
                        BiOp { op, input_width: width_of(self.model(), arguments@[0]) as u32, left: arguments@[0], right: arguments@[1] },
                    ),
                )
            },
    {
        if arguments.len() != 2 {
            return Err(ParseError::ArgumentCount);
        }
        let left = arguments[0];
        let right = arguments[1];
        let left_result_width = self.formula_result_width(left);
        let right_result_width = self.formula_result_width(right);
        if left_result_width != right_result_width {
            return Err(ParseError::WidthMismatch);
        }
        Ok(Operation::BiOp(BiOp { op, input_width: left_result_width, left, right }))
    }

    fn create_ext_op(&self, signed: bool, indices: Vec<SmtIndex>, arguments: Vec<FormulaId>) -> (r: Result<Operation, ParseError>)
        requires
            model_wf(self.model()),
            !signed,
            forall|i: int| 0 <= i < arguments@.len() ==> id_valid(self.model(), #[trigger] arguments@[i]),
        ensures
            r == if indices@.len() != 1 {
                Err(ParseError::IndexCount)
            } else {
                match index_numeral(indices@[0]) {
                    Err(e) => Err(e),
                    Ok(extend_by) => if arguments@.len() != 1 {
                        Err(ParseError::ArgumentCount)
                    } else if width_of(self.model(), arguments@[0]) + extend_by > u32::MAX {
                        Err(ParseError::WidthOverflow)
                    } else {
                        Ok(
                            Operation::ExtOp(
                                ExtOp {
                                    signed: false,
                                    input_width: width_of(self.model(), arguments@[0]) as u32,
                                    output_width: (width_of(self.model(), arguments@[0]) + extend_by) as u32,
                                    inner: arguments@[0],
                                },
                            ),
                        )
                    },
                }
            },
    {
        if indices.len() != 1 {
            return Err(ParseError::IndexCount);
        }
        let extend_by = match numeral_of(&indices[0]) {
            Ok(extend_by) => extend_by,
            Err(e) => return Err(e),
        };
        if arguments.len() != 1 {
            return Err(ParseError::ArgumentCount);
        }
        let inner = arguments[0];
        let input_width = self.formula_result_width(inner);
        let output_width = match input_width.checked_add(extend_by) {
            Some(output_width) => output_width,
            None => return Err(ParseError::WidthOverflow),
        };
        Ok(Operation::ExtOp(ExtOp { signed, input_width, output_width, inner }))
    }

    fn create_ite_op(&self, arguments: Vec<FormulaId>) -> (r: Result<Operation, ParseError>)
        requires
            model_wf(self.model()),
            forall|i: int| 0 <= i < arguments@.len() ==> id_valid(self.model(), #[trigger] arguments@[i]),
        ensures
            r == if arguments@.len() != 3 {
                Err(ParseError::ArgumentCount)
            } else if width_of(self.model(), arguments@[0]) != 1 {
                Err(ParseError::ConditionWidth)
            } else if width_of(self.model(), arguments@[1]) != width_of(self.model(), arguments@[2]) {
                Err(ParseError::WidthMismatch)
            } else {
                Ok(
                    Operation::IteOp(
                        IteOp {
                            condition: arguments@[0],
                            width: width_of(self.model(), arguments@[1]) as u32,
                            formula_then: arguments@[1],
                            formula_else: arguments@[2],
                        },
                    ),
                )
            },
    {
        if arguments.len() != 3 {
            return Err(ParseError::ArgumentCount);
        }
        let condition = arguments[0];
        let left = arguments[1];
        let right = arguments[2];
        let condition_width = self.formula_result_width(condition);
        if condition_width != 1 {
            return Err(ParseError::ConditionWidth);
        }
        let left_result_width = self.formula_result_width(left);
        let right_result_width = self.formula_result_width(right);
        if left_result_width != right_result_width {
            return Err(ParseError::WidthMismatch);
        }
        Ok(Operation::IteOp(IteOp { condition, width: left_result_width, formula_then: left, formula_else: right }))
    }
}

} // verus!
