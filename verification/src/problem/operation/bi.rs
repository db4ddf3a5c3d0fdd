//! Binary operations on bitvectors.
use vstd::arithmetic::power2::pow2;
use vstd::prelude::*;

use crate::domain::bitvector::signed::signed_value;
use crate::domain::bitvector::ConcreteBitvector;
use crate::problem::formula::FormulaId;
use crate::problem::valuation::FormulaValues;

verus! {

/// A binary operation on the results of two formulas.
#[derive(Clone, Copy, Debug, PartialEq, Eq, Structural)]
pub struct BiOp {
    pub op: BiOperator,
    pub input_width: u32,
    pub left: FormulaId,
    pub right: FormulaId,
}

#[derive(Clone, Copy, Debug, PartialEq, Eq, Structural)]
pub enum BiOperator {
    Add,
    Sub,
    Mul,
    BitAnd,
    BitOr,
    BitXor,
    Eq,
    Ne,
    Implies,
    Ult,
    Ule,
    Ugt,
    Uge,
    Slt,
    Sle,
    Sgt,
    Sge,
    Shl,
    Lshr,
    Ashr,
}

/// A single bit: one for true, zero for false.
pub open spec fn bit_of(b: bool) -> nat {
    if b {
        1
    } else {
        0
    }
}

/// Whether the operator compares its operands, giving a single bit.
pub open spec fn is_comparison(op: BiOperator) -> bool {
    match op {
        BiOperator::Eq | BiOperator::Ne | BiOperator::Ult | BiOperator::Ule | BiOperator::Ugt
        | BiOperator::Uge | BiOperator::Slt | BiOperator::Sle | BiOperator::Sgt | BiOperator::Sge => true,
        _ => false,
    }
}

/// The value of a binary operation on two bitvectors of one bound.
pub open spec fn bi_value(op: BiOperator, l: ConcreteBitvector, r: ConcreteBitvector) -> nat {
    let m = l.modulus();
    match op {
        BiOperator::Add => (l.val() + r.val()) % m,
        BiOperator::Sub => ((l.val() - r.val()) % (m as int)) as nat,
        BiOperator::Mul => (l.val() * r.val()) % m,
        BiOperator::BitAnd => (l.value & r.value) as nat,
        BiOperator::BitOr => (l.value | r.value) as nat,
        BiOperator::BitXor => (l.value ^ r.value) as nat,
        BiOperator::Eq => bit_of(l.value == r.value),
        BiOperator::Ne => bit_of(l.value != r.value),
        BiOperator::Implies => ((((m - 1) as nat) - l.val()) as u64 | r.value) as nat,
        BiOperator::Ult => bit_of(l.value < r.value),
        BiOperator::Ule => bit_of(l.value <= r.value),
        BiOperator::Ugt => bit_of(l.value > r.value),
        BiOperator::Uge => bit_of(l.value >= r.value),
        BiOperator::Slt => bit_of(signed_value(l) < signed_value(r)),
        BiOperator::Sle => bit_of(signed_value(l) <= signed_value(r)),
        BiOperator::Sgt => bit_of(signed_value(l) > signed_value(r)),
        BiOperator::Sge => bit_of(signed_value(l) >= signed_value(r)),
        BiOperator::Shl => (l.val() * pow2(r.val())) % m,
        BiOperator::Lshr => l.val() / pow2(r.val()),
        BiOperator::Ashr => ((signed_value(l) / (pow2(r.val()) as int)) % (m as int)) as nat,
    }
}

impl BiOp {
    /// The width of the result: one for comparisons, else the input width.
    pub open spec fn spec_result_width(self) -> u32 {
        if is_comparison(self.op) {
            1
        } else {
            self.input_width
        }
    }

    pub fn result_width(&self) -> (r: u32)
        ensures
            r == self.spec_result_width(),
    {
        match self.op {
            BiOperator::Eq | BiOperator::Ne | BiOperator::Ult | BiOperator::Ule | BiOperator::Ugt
            | BiOperator::Uge | BiOperator::Slt | BiOperator::Sle | BiOperator::Sgt | BiOperator::Sge => 1,
            _ => self.input_width,
        }
    }

    /// Both operands are known and share their bound.
    pub open spec fn evaluable(self, values: FormulaValues) -> bool {
        &&& values.has(self.left)
        &&& values.has(self.right)
        &&& values.value(self.left).bound == values.value(self.right).bound
    }

    /// The result on concrete values of the operands.
    pub fn evaluate(&self, values: &FormulaValues) -> (r: ConcreteBitvector)
        requires
            values.wf(),
            self.evaluable(*values),
        ensures
            r.wf(),
            r.bound.width == (if is_comparison(self.op) {
                1
            } else {
                values.value(self.left).bound.width
            }),
            r.val() == bi_value(self.op, values.value(self.left), values.value(self.right)),
    {
        let left = values.fetch(self.left);
        let right = values.fetch(self.right);
        match self.op {
            BiOperator::Add => left.add(right),
            BiOperator::Sub => left.sub(right),
            BiOperator::Mul => left.mul(right),
            BiOperator::BitAnd => left.bit_and(right),
            BiOperator::BitOr => left.bit_or(right),
            BiOperator::BitXor => left.bit_xor(right),
            BiOperator::Eq => left.eq(right),
            BiOperator::Ne => left.ne(right),
            BiOperator::Implies => left.bit_not().bit_or(right),
            BiOperator::Ult => left.ult(right),
            BiOperator::Ule => left.ule(right),
            BiOperator::Ugt => not_bit(left.ule(right)),
            BiOperator::Uge => not_bit(left.ult(right)),
            BiOperator::Slt => left.slt(right),
            BiOperator::Sle => left.sle(right),
            BiOperator::Sgt => not_bit(left.sle(right)),
            BiOperator::Sge => not_bit(left.slt(right)),
            BiOperator::Shl => left.logic_shl(right),
            BiOperator::Lshr => left.logic_shr(right),
            BiOperator::Ashr => left.arith_shr(right),
        }
    }
}

/// Negation of a single bit.
pub(crate) fn not_bit(bit: ConcreteBitvector) -> (r: ConcreteBitvector)
    requires
        bit.wf(),
        bit.bound.width == 1,
    ensures
        r.wf(),
        r.bound == bit.bound,
        r.val() == 1 - bit.val(),
{
    proof {
        vstd::arithmetic::power2::lemma2_to64();
    }
    bit.bit_not()
}

} // verus!
