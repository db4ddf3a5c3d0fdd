//! Operations on bitvectors: the nodes of a problem's formula graph.
//!
//! The operations store the ids of their inputs, so that they can be kept
//! in vectors instead of being represented in memory as a graph.
use vstd::arithmetic::power2::*;
use vstd::prelude::*;

use crate::domain::bitvector::signed::signed_value;
use crate::domain::bitvector::{lemma_modulus_bounds, ConcreteBitvector, RBound};
use crate::problem::formula::FormulaId;
use crate::problem::valuation::FormulaValues;

pub mod bi;
pub mod linear;
pub mod text;

pub use crate::problem::formula::OperationId;
pub use bi::{BiOp, BiOperator};
pub use linear::{LinearCombination, LinearMonomial, LinearOperation, LinearPolynomial, LinearSlice, LinearSystem};

verus! {

/// Operation on bitvector(s).
#[derive(Clone, Debug, PartialEq, Eq)]
pub enum Operation {
    /// A constant value of a width.
    Constant(u64, u32),
    UniOp(UniOp),
    BiOp(BiOp),
    ExtOp(ExtOp),
    IteOp(IteOp),
    ConcatOp(ConcatOp),
    ExtractOp(ExtractOp),
    Linear(LinearOperation),
}

#[derive(Clone, Copy, Debug, PartialEq, Eq, Structural)]
pub struct UniOp {
    pub op: UniOperator,
    pub input_width: u32,
    pub inner: FormulaId,
}

/// Unsigned or signed extension (or truncation) to an output width.
#[derive(Clone, Copy, Debug, PartialEq, Eq, Structural)]
pub struct ExtOp {
    pub signed: bool,
    pub input_width: u32,
    pub output_width: u32,
    pub inner: FormulaId,
}

/// If-then-else on a single-bit condition.
#[derive(Clone, Copy, Debug, PartialEq, Eq, Structural)]
pub struct IteOp {
    pub condition: FormulaId,
    pub width: u32,
    pub formula_then: FormulaId,
    pub formula_else: FormulaId,
}

/// Concatenation: the left operand forms the high bits.
#[derive(Clone, Copy, Debug, PartialEq, Eq, Structural)]
pub struct ConcatOp {
    pub left_width: u32,
    pub left: FormulaId,
    pub right_width: u32,
    pub right: FormulaId,
}

/// Extraction of the bits `lsb .. lsb + width` (the width is nonzero).
#[derive(Clone, Copy, Debug, PartialEq, Eq, Structural)]
pub struct ExtractOp {
    pub inner: FormulaId,
    pub lsb: u32,
    pub width: u32,
}

#[derive(Clone, Copy, Debug, PartialEq, Eq, Structural)]
pub enum UniOperator {
    Not,
}

impl Operation {
    /// The operation can be evaluated on the values: its inputs are known
    /// and of the widths it is declared with, and its constant parts fit.
    pub open spec fn evaluable(self, values: FormulaValues) -> bool {
        match self {
            Operation::Constant(value, width) => width <= 64 && (value as nat) < pow2(width as nat),
            Operation::UniOp(uni_op) => values.has(uni_op.inner),
            Operation::BiOp(bi_op) => bi_op.evaluable(values),
            Operation::ExtOp(ext_op) => values.has(ext_op.inner) && ext_op.output_width <= 64,
            Operation::IteOp(ite_op) => {
                &&& values.has(ite_op.condition)
                &&& values.has(ite_op.formula_then)
                &&& values.has(ite_op.formula_else)
                &&& values.value(ite_op.condition).bound.width == 1
            },
            Operation::ConcatOp(concat_op) => {
                &&& values.has(concat_op.left)
                &&& values.has(concat_op.right)
                &&& values.value(concat_op.left).bound.width == concat_op.left_width
                &&& values.value(concat_op.right).bound.width == concat_op.right_width
                &&& concat_op.left_width + concat_op.right_width <= 64
            },
            Operation::ExtractOp(extract_op) => {
                &&& values.has(extract_op.inner)
                &&& extract_op.width > 0
                &&& extract_op.lsb + extract_op.width <= values.value(extract_op.inner).bound.width
            },
            Operation::Linear(linear) => linear.wf() && linear.evaluable(values),
        }
    }

    /// The width of the result on the values.
    pub open spec fn spec_value_width(self, values: FormulaValues) -> nat {
        match self {
            Operation::Constant(_, width) => width as nat,
            Operation::UniOp(uni_op) => values.value(uni_op.inner).width(),
            Operation::BiOp(bi_op) => if bi::is_comparison(bi_op.op) {
                1
            } else {
                values.value(bi_op.left).width()
            },
            Operation::ExtOp(ext_op) => ext_op.output_width as nat,
            Operation::IteOp(ite_op) => if values.value(ite_op.condition).value != 0 {
                values.value(ite_op.formula_then).width()
            } else {
                values.value(ite_op.formula_else).width()
            },
            Operation::ConcatOp(concat_op) => (concat_op.left_width + concat_op.right_width) as nat,
            Operation::ExtractOp(extract_op) => extract_op.width as nat,
            Operation::Linear(linear) => linear.spec_result_bound().width as nat,
        }
    }

    /// The value of the result on the values.
    pub open spec fn spec_value(self, values: FormulaValues) -> nat {
        match self {
            Operation::Constant(value, _) => value as nat,
            Operation::UniOp(uni_op) => {
                let inner = values.value(uni_op.inner);
                (inner.modulus() - 1 - inner.val()) as nat
            },
            Operation::BiOp(bi_op) => bi::bi_value(bi_op.op, values.value(bi_op.left), values.value(bi_op.right)),
            Operation::ExtOp(ext_op) => {
                let inner = values.value(ext_op.inner);
                let m = pow2(ext_op.output_width as nat);
                if ext_op.signed {
                    (signed_value(inner) % (m as int)) as nat
                } else {
                    inner.val() % m
                }
            },
            Operation::IteOp(ite_op) => if values.value(ite_op.condition).value != 0 {
                values.value(ite_op.formula_then).val()
            } else {
                values.value(ite_op.formula_else).val()
            },
            Operation::ConcatOp(concat_op) => {
                let left = values.value(concat_op.left);
                let right = values.value(concat_op.right);
                let m = pow2((concat_op.left_width + concat_op.right_width) as nat);
                ((((left.val() * pow2(concat_op.right_width as nat)) % m) as u64) | right.value) as nat
            },
            Operation::ExtractOp(extract_op) => {
                let inner = values.value(extract_op.inner);
                (inner.val() / pow2(extract_op.lsb as nat)) % pow2(extract_op.width as nat)
            },
            Operation::Linear(linear) => linear.value(values.slice_values()) as nat,
        }
    }

    /// The result of the operation on concrete values of its inputs.
    pub fn evaluate(&self, values: &FormulaValues) -> (r: ConcreteBitvector)
        requires
            values.wf(),
            self.evaluable(*values),
        ensures
            r.wf(),
            r.bound.width == self.spec_value_width(*values),
            r.val() == self.spec_value(*values),
    {
        match self {
            Operation::Constant(value, width) => ConcreteBitvector::new(*value, RBound::new(*width)),
            Operation::UniOp(uni_op) => {
                let inner = values.fetch(uni_op.inner);
                match uni_op.op {
                    UniOperator::Not => inner.bit_not(),
                }
            },
            Operation::BiOp(bi_op) => bi_op.evaluate(values),
            Operation::ExtOp(ext_op) => {
                let inner = values.fetch(ext_op.inner);
                let output_bound = RBound::new(ext_op.output_width);
                if ext_op.signed {
                    inner.sext(output_bound)
                } else {
                    inner.uext(output_bound)
                }
            },
            Operation::IteOp(ite_op) => {
                let condition = values.fetch(ite_op.condition);
                if condition.is_nonzero() {
                    // only then taken
                    values.fetch(ite_op.formula_then)
                } else {
                    // only else taken
                    values.fetch(ite_op.formula_else)
                }
            },
            Operation::ConcatOp(concat_op) => {
                let left = values.fetch(concat_op.left);
                let right = values.fetch(concat_op.right);
                let result_width = concat_op.left_width + concat_op.right_width;
                let result_bound = RBound::new(result_width);
                proof {
                    lemma_modulus_bounds(result_bound);
                    lemma_width_below_modulus(concat_op.right_width as nat);
                    lemma_pow2_le(concat_op.right_width as nat, result_width as nat);
                }
                // zero-extend both to the result width
                let left = left.uext(result_bound);
                let right = right.uext(result_bound);
                proof {
                    lemma_pow2_le(concat_op.left_width as nat, result_width as nat);
                    lemma_pow2_le(concat_op.right_width as nat, result_width as nat);
                    vstd::arithmetic::div_mod::lemma_small_mod(left.val(), result_bound.modulus());
                    vstd::arithmetic::div_mod::lemma_small_mod(right.val(), result_bound.modulus());
                }
                // shift the left part up by the right width
                let right_width = ConcreteBitvector::new(concat_op.right_width as u64, result_bound);
                let left = left.logic_shl(right_width);
                left.bit_or(right)
            },
            Operation::ExtractOp(extract_op) => {
                let inner = values.fetch(extract_op.inner);
                proof {
                    lemma_modulus_bounds(inner.bound);
                    lemma_width_below_modulus(extract_op.lsb as nat);
                    lemma_pow2_le(extract_op.lsb as nat, inner.bound.width as nat);
                }
                // shift right by the lowest bit, then narrow to the width
                let lsb = ConcreteBitvector::new(extract_op.lsb as u64, inner.bound);
                let inner = inner.logic_shr(lsb);
                inner.uext(RBound::new(extract_op.width))
            },
            Operation::Linear(linear) => linear.evaluate(values),
        }
    }

    /// A copy of an operation that is not linear.
    pub fn duplicate(&self) -> (r: Operation)
        requires
            !(self is Linear),
        ensures
            r == *self,
    {
        match self {
            Operation::Constant(value, width) => Operation::Constant(*value, *width),
            Operation::UniOp(op) => Operation::UniOp(*op),
            Operation::BiOp(op) => Operation::BiOp(*op),
            Operation::ExtOp(op) => Operation::ExtOp(*op),
            Operation::IteOp(op) => Operation::IteOp(*op),
            Operation::ConcatOp(op) => Operation::ConcatOp(*op),
            Operation::ExtractOp(op) => Operation::ExtractOp(*op),
            Operation::Linear(_) => {
                proof {
                    assert(false);
                }
                Operation::Constant(0, 0)
            },
        }
    }

    /// The width of the result.
    pub open spec fn spec_result_width(self) -> int {
        match self {
            Operation::Constant(_, width) => width as int,
            Operation::UniOp(uni_op) => uni_op.input_width as int,
            Operation::BiOp(bi_op) => bi_op.spec_result_width() as int,
            Operation::ExtOp(ext_op) => ext_op.output_width as int,
            Operation::IteOp(ite_op) => ite_op.width as int,
            Operation::ConcatOp(concat_op) => concat_op.left_width + concat_op.right_width,
            Operation::ExtractOp(extract_op) => extract_op.width as int,
            Operation::Linear(linear) => linear.spec_result_bound().width as int,
        }
    }

    pub fn result_width(&self) -> (r: u32)
        requires
            self.spec_result_width() <= u32::MAX,
        ensures
            r == self.spec_result_width(),
    {
        match self {
            Operation::Constant(_value, width) => *width,
            Operation::UniOp(uni_op) => match uni_op.op {
                UniOperator::Not => uni_op.input_width,
            },
            Operation::BiOp(bi_op) => bi_op.result_width(),
            Operation::ExtOp(ext_op) => ext_op.output_width,
            Operation::IteOp(ite_op) => ite_op.width,
            Operation::ConcatOp(concat_op) => concat_op.left_width + concat_op.right_width,
            Operation::ExtractOp(extract_op) => extract_op.width,
            Operation::Linear(linear) => linear.result_bound().width(),
        }
    }

    /// The formula ids that the operation uses, in operand order.
    pub open spec fn spec_used_ids(self) -> Seq<FormulaId> {
        match self {
            Operation::Constant(_, _) => Seq::empty(),
            Operation::UniOp(uni_op) => seq![uni_op.inner],
            Operation::BiOp(bi_op) => seq![bi_op.left, bi_op.right],
            Operation::ExtOp(ext_op) => seq![ext_op.inner],
            Operation::IteOp(ite_op) => seq![ite_op.condition, ite_op.formula_then, ite_op.formula_else],
            Operation::ConcatOp(concat_op) => seq![concat_op.left, concat_op.right],
            Operation::ExtractOp(extract_op) => seq![extract_op.inner],
            Operation::Linear(linear) => linear.spec_used_ids(),
        }
    }

    pub fn used_ids(&self) -> (r: Vec<FormulaId>)
        ensures
            r@ == self.spec_used_ids(),
    {
        match self {
            Operation::Constant(_, _) => Vec::new(),
            Operation::UniOp(uni_op) => vec![uni_op.inner],
            Operation::BiOp(bi_op) => vec![bi_op.left, bi_op.right],
            Operation::ExtOp(ext_op) => vec![ext_op.inner],
            Operation::IteOp(ite_op) => vec![ite_op.condition, ite_op.formula_then, ite_op.formula_else],
            Operation::ConcatOp(concat_op) => vec![concat_op.left, concat_op.right],
            Operation::ExtractOp(extract_op) => vec![extract_op.inner],
            Operation::Linear(linear) => linear.used_ids(),
        }
    }
}

/// `n < 2^n`.
pub proof fn lemma_width_below_modulus(n: nat)
    ensures
        n < pow2(n),
    decreases n,
{
    lemma2_to64();
    if n > 0 {
        lemma_width_below_modulus((n - 1) as nat);
        lemma_pow2_unfold(n);
        lemma_pow2_pos((n - 1) as nat);
    }
}

/// `2^a <= 2^b` for `a <= b`.
proof fn lemma_pow2_le(a: nat, b: nat)
    requires
        a <= b,
    ensures
        pow2(a) <= pow2(b),
{
    if a < b {
        lemma_pow2_strictly_increases(a, b);
    }
}

} // verus!
