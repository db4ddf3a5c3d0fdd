//! The first form of the formula graph: operations with a small operator
//! set, each storing the ids of its inputs.
use vstd::prelude::*;
use vstd::string::StringExecFns;

use crate::printing::{append_decimal, decimal};
use crate::problem::operation::text::{formula_text, write_formula};

pub use crate::problem::formula::{FormulaId, OperationId, VariableId};

verus! {

#[derive(Clone, Copy, Debug, PartialEq, Eq, Structural)]
pub enum Operation {
    Constant(u64, u32),
    UniOp(UniOp),
    BiOp(BiOp),
    ExtOp(ExtOp),
    IteOp(IteOp),
}

#[derive(Clone, Copy, Debug, PartialEq, Eq, Structural)]
pub struct UniOp {
    pub op: UniOperator,
    pub input_width: u32,
    pub inner: FormulaId,
}

#[derive(Clone, Copy, Debug, PartialEq, Eq, Structural)]
pub struct BiOp {
    pub op: BiOperator,
    pub input_width: u32,
    pub left: FormulaId,
    pub right: FormulaId,
}

#[derive(Clone, Copy, Debug, PartialEq, Eq, Structural)]
pub struct ExtOp {
    pub signed: bool,
    pub input_width: u32,
    pub output_width: u32,
    pub inner: FormulaId,
}

#[derive(Clone, Copy, Debug, PartialEq, Eq, Structural)]
pub struct IteOp {
    pub condition: FormulaId,
    pub width: u32,
    pub formula_then: FormulaId,
    pub formula_else: FormulaId,
}

#[derive(Clone, Copy, Debug, PartialEq, Eq, Structural)]
pub enum UniOperator {
    Not,
}

#[derive(Clone, Copy, Debug, PartialEq, Eq, Structural)]
pub enum BiOperator {
    Add,
    Sub,
    BitAnd,
    BitOr,
    BitXor,
    Eq,
    Shl,
    Lshr,
    Ashr,
}

impl Operation {
    /// The width of the result: equality gives a single bit, the other
    /// operations their declared width.
    pub open spec fn spec_result_width(self) -> u32 {
        match self {
            Operation::Constant(_, width) => width,
            Operation::UniOp(uni_op) => uni_op.input_width,
            Operation::BiOp(bi_op) => match bi_op.op {
                BiOperator::Eq => 1,
                _ => bi_op.input_width,
            },
            Operation::ExtOp(ext_op) => ext_op.output_width,
            Operation::IteOp(ite_op) => ite_op.width,
        }
    }

    /// The width of the result.
    pub fn result_width(&self) -> (r: u32)
        ensures
            r == self.spec_result_width(),
    {
        match self {
            Operation::Constant(_value, width) => *width,
            Operation::UniOp(uni_op) => match uni_op.op {
                UniOperator::Not => uni_op.input_width,
            },
            Operation::BiOp(bi_op) => match bi_op.op {
                BiOperator::Eq => 1,
                _ => bi_op.input_width,
            },
            Operation::ExtOp(ext_op) => ext_op.output_width,
            Operation::IteOp(ite_op) => ite_op.width,
        }
    }
}

/// The name of an operator.
pub open spec fn operator_name(op: BiOperator) -> Seq<char> {
    match op {
        BiOperator::Add => "Add"@,
        BiOperator::Sub => "Sub"@,
        BiOperator::BitAnd => "BitAnd"@,
        BiOperator::BitOr => "BitOr"@,
        BiOperator::BitXor => "BitXor"@,
        BiOperator::Eq => "Eq"@,
        BiOperator::Shl => "Shl"@,
        BiOperator::Lshr => "Lshr"@,
        BiOperator::Ashr => "Ashr"@,
    }
}

impl BiOperator {
    /// The name of the operator.
    pub fn name(&self) -> (r: &'static str)
        ensures
            r@ == operator_name(*self),
    {
        match self {
            BiOperator::Add => "Add",
            BiOperator::Sub => "Sub",
            BiOperator::BitAnd => "BitAnd",
            BiOperator::BitOr => "BitOr",
            BiOperator::BitXor => "BitXor",
            BiOperator::Eq => "Eq",
            BiOperator::Shl => "Shl",
            BiOperator::Lshr => "Lshr",
            BiOperator::Ashr => "Ashr",
        }
    }
}

impl Operation {
    /// The text of the operation: the operator name with its widths, then
    /// the inputs in brackets, separated by a comma and a space; the kind of
    /// an extension is shown quoted.
    pub open spec fn text(self) -> Seq<char> {
        match self {
            Operation::Constant(value, width) => "bv_"@ + decimal(width as nat) + "("@ + decimal(value as nat) + ")"@,
            Operation::UniOp(op) => "Not_"@ + decimal(op.input_width as nat) + "("@ + formula_text(op.inner) + ")"@,
            Operation::BiOp(op) => operator_name(op.op) + "_"@ + decimal(op.input_width as nat) + "("@ + formula_text(
                op.left,
            ) + ", "@ + formula_text(op.right) + ")"@,
            Operation::ExtOp(op) => (if op.signed {
                "\"sext\""@
            } else {
                "\"uext\""@
            }) + "_"@ + decimal(op.input_width as nat) + "_"@ + decimal(op.output_width as nat) + "("@ + formula_text(
                op.inner,
            ) + ")"@,
            Operation::IteOp(op) => "ite_"@ + decimal(op.width as nat) + "("@ + formula_text(op.condition) + ", "@
                + formula_text(op.formula_then) + ", "@ + formula_text(op.formula_else) + ")"@,
        }
    }

    /// Appends the text of the operation.
    pub fn write_text(&self, out: &mut String)
        ensures
            final(out)@ == old(out)@ + self.text(),
    {
        match self {
            Operation::Constant(value, width) => {
                out.append("bv_");
                append_decimal(out, *width as u128);
                out.append("(");
                append_decimal(out, *value as u128);
                out.append(")");
            },
            Operation::UniOp(op) => {
                match op.op {
                    UniOperator::Not => out.append("Not_"),
                }
                append_decimal(out, op.input_width as u128);
                out.append("(");
                write_formula(out, op.inner);
                out.append(")");
            },
            Operation::BiOp(op) => {
                out.append(op.op.name());
                out.append("_");
                append_decimal(out, op.input_width as u128);
                out.append("(");
                write_formula(out, op.left);
                out.append(", ");
                write_formula(out, op.right);
                out.append(")");
            },
            Operation::ExtOp(op) => {
                if op.signed {
                    out.append("\"sext\"");
                } else {
                    out.append("\"uext\"");
                }
                out.append("_");
                append_decimal(out, op.input_width as u128);
                out.append("_");
                append_decimal(out, op.output_width as u128);
                out.append("(");
                write_formula(out, op.inner);
                out.append(")");
            },
            Operation::IteOp(op) => {
                out.append("ite_");
                append_decimal(out, op.width as u128);
                out.append("(");
                write_formula(out, op.condition);
                out.append(", ");
                write_formula(out, op.formula_then);
                out.append(", ");
                write_formula(out, op.formula_else);
                out.append(")");
            },
        }
        proof {
            assert(final(out)@ =~= old(out)@ + self.text());
        }
    }
}

} // verus!
