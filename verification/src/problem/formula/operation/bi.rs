//! Binary operations with the full operator set of the bitvector logic:
//! arithmetic with division and remainder, bitwise operators and their
//! negations, comparisons and shifts.
use vstd::prelude::*;
use vstd::string::StringExecFns;

use crate::domain::bitvector::ConcreteBitvector;
use crate::domain::bitvector::signed::{sdiv_val, signed_value, srem_val};
use vstd::arithmetic::power2::pow2;
use crate::printing::{append_decimal, decimal};
use crate::problem::formula::FormulaId;
use crate::problem::operation::bi::{bi_value, is_comparison, BiOperator as CoreOperator};
use crate::problem::operation::text::{formula_text, write_formula};
use crate::problem::remap::{id_remappable, remap_formula_id, remap_id, Remapping};
use crate::problem::valuation::FormulaValues;

verus! {

/// A binary operation of the full operator set.
#[derive(Clone, Copy, Debug, PartialEq, Eq, Structural)]
pub struct BiOp {
    pub op: BiOperator,
    pub input_width: u32,
    pub left: FormulaId,
    pub right: FormulaId,
}

#[derive(Clone, Copy, Debug, PartialEq, Eq, Structural)]
pub enum BiOperator {
    Add,
    Sub,
    Mul,
    Udiv,
    Urem,
    Sdiv,
    Srem,
    BitAnd,
    BitOr,
    BitXor,
    BitNand,
    BitNor,
    BitXnor,
    Eq,
    Ne,
    Implies,
    Ult,
    Ule,
    Ugt,
    Uge,
    Slt,
    Sle,
    Sgt,
    Sge,
    Shl,
    Lshr,
    Ashr,
}

/// The operator of the core set that the operator is, if it is one.
pub open spec fn core_operator(op: BiOperator) -> Option<CoreOperator> {
    match op {
        BiOperator::Add => Some(CoreOperator::Add),
        BiOperator::Sub => Some(CoreOperator::Sub),
        BiOperator::Mul => Some(CoreOperator::Mul),
        BiOperator::BitAnd => Some(CoreOperator::BitAnd),
        BiOperator::BitOr => Some(CoreOperator::BitOr),
        BiOperator::BitXor => Some(CoreOperator::BitXor),
        BiOperator::Eq => Some(CoreOperator::Eq),
        BiOperator::Ne => Some(CoreOperator::Ne),
        BiOperator::Implies => Some(CoreOperator::Implies),
        BiOperator::Ult => Some(CoreOperator::Ult),
        BiOperator::Ule => Some(CoreOperator::Ule),
        BiOperator::Ugt => Some(CoreOperator::Ugt),
        BiOperator::Uge => Some(CoreOperator::Uge),
        BiOperator::Slt => Some(CoreOperator::Slt),
        BiOperator::Sle => Some(CoreOperator::Sle),
        BiOperator::Sgt => Some(CoreOperator::Sgt),
        BiOperator::Sge => Some(CoreOperator::Sge),
        BiOperator::Shl => Some(CoreOperator::Shl),
        BiOperator::Lshr => Some(CoreOperator::Lshr),
        BiOperator::Ashr => Some(CoreOperator::Ashr),
        _ => None,
    }
}

/// The value of the operation on two bitvectors of one bound: division by
/// zero gives all ones, remainder by zero the dividend, signed division
/// and remainder go by the quadrants of the operands, and a negated bitwise
/// operator gives the complement.
pub open spec fn full_bi_value(op: BiOperator, l: ConcreteBitvector, r: ConcreteBitvector) -> nat {
    let m = l.modulus();
    match op {
        BiOperator::Udiv => if r.val() == 0 {
            (m - 1) as nat
        } else {
            l.val() / r.val()
        },
        BiOperator::Urem => if r.val() == 0 {
            l.val()
        } else {
            l.val() % r.val()
        },
        BiOperator::Sdiv => sdiv_val(l.val(), r.val(), l.width()),
        BiOperator::Srem => srem_val(l.val(), r.val(), l.width()),
        BiOperator::BitNand => (m - 1 - (l.value & r.value)) as nat,
        BiOperator::BitNor => (m - 1 - (l.value | r.value)) as nat,
        BiOperator::BitXnor => (m - 1 - (l.value ^ r.value)) as nat,
        _ => bi_value(core_operator(op)->Some_0, l, r),
    }
}

/// Each operator of the full set has its SMT-LIB meaning on two bitvectors
/// of one bound: modular arithmetic, bitwise operations, single-bit
/// comparisons (unsigned, or of the two's-complement values), and shifts
/// by the value of the right operand.
pub proof fn lemma_full_operators_meaning(l: ConcreteBitvector, r: ConcreteBitvector)
    ensures
        full_bi_value(BiOperator::Add, l, r) == (l.val() + r.val()) % l.modulus(),
        full_bi_value(BiOperator::Sub, l, r) == ((l.val() - r.val()) % (l.modulus() as int)) as nat,
        full_bi_value(BiOperator::Mul, l, r) == (l.val() * r.val()) % l.modulus(),
        full_bi_value(BiOperator::BitAnd, l, r) == (l.value & r.value) as nat,
        full_bi_value(BiOperator::BitOr, l, r) == (l.value | r.value) as nat,
        full_bi_value(BiOperator::BitXor, l, r) == (l.value ^ r.value) as nat,
        full_bi_value(BiOperator::Eq, l, r) == (if l.value == r.value { 1nat } else { 0nat }),
        full_bi_value(BiOperator::Ne, l, r) == (if l.value != r.value { 1nat } else { 0nat }),
        full_bi_value(BiOperator::Ult, l, r) == (if l.value < r.value { 1nat } else { 0nat }),
        full_bi_value(BiOperator::Ule, l, r) == (if l.value <= r.value { 1nat } else { 0nat }),
        full_bi_value(BiOperator::Ugt, l, r) == (if l.value > r.value { 1nat } else { 0nat }),
        full_bi_value(BiOperator::Uge, l, r) == (if l.value >= r.value { 1nat } else { 0nat }),
        full_bi_value(BiOperator::Slt, l, r) == (if signed_value(l) < signed_value(r) { 1nat } else { 0nat }),
        full_bi_value(BiOperator::Sle, l, r) == (if signed_value(l) <= signed_value(r) { 1nat } else { 0nat }),
        full_bi_value(BiOperator::Sgt, l, r) == (if signed_value(l) > signed_value(r) { 1nat } else { 0nat }),
        full_bi_value(BiOperator::Sge, l, r) == (if signed_value(l) >= signed_value(r) { 1nat } else { 0nat }),
        full_bi_value(BiOperator::Shl, l, r) == (l.val() * pow2(r.val())) % l.modulus(),
        full_bi_value(BiOperator::Lshr, l, r) == l.val() / pow2(r.val()),
        full_bi_value(BiOperator::Ashr, l, r) == ((signed_value(l) / (pow2(r.val()) as int)) % (l.modulus() as int)) as nat,
        full_bi_value(BiOperator::Udiv, l, r) == (if r.val() == 0 { (l.modulus() - 1) as nat } else { l.val() / r.val() }),
        full_bi_value(BiOperator::Urem, l, r) == (if r.val() == 0 { l.val() } else { l.val() % r.val() }),
        full_bi_value(BiOperator::BitNand, l, r) == (l.modulus() - 1 - (l.value & r.value)) as nat,
        full_bi_value(BiOperator::BitNor, l, r) == (l.modulus() - 1 - (l.value | r.value)) as nat,
        full_bi_value(BiOperator::BitXnor, l, r) == (l.modulus() - 1 - (l.value ^ r.value)) as nat,
{
}

/// The comparisons of the full set, and only they, give a single bit.
pub proof fn lemma_full_comparisons()
    ensures
        forall|op: BiOperator| #[trigger] is_full_comparison(op) <==> (op == BiOperator::Eq || op == BiOperator::Ne
            || op == BiOperator::Ult || op == BiOperator::Ule || op == BiOperator::Ugt || op == BiOperator::Uge
            || op == BiOperator::Slt || op == BiOperator::Sle || op == BiOperator::Sgt || op == BiOperator::Sge),
{
}

/// Whether the operator compares its operands, giving a single bit.
pub open spec fn is_full_comparison(op: BiOperator) -> bool {
    match core_operator(op) {
        Some(core) => is_comparison(core),
        None => false,
    }
}

impl BiOp {
    /// Both operands are known and share their bound.
    pub open spec fn evaluable(self, values: FormulaValues) -> bool {
        &&& values.has(self.left)
        &&& values.has(self.right)
        &&& values.value(self.left).bound == values.value(self.right).bound
    }

    /// The result on concrete values of the operands.
    pub fn evaluate(&self, values: &FormulaValues) -> (r: ConcreteBitvector)
        requires
            values.wf(),
            self.evaluable(*values),
        ensures
            r.wf(),
            r.bound.width == (if is_full_comparison(self.op) {
                1
            } else {
                values.value(self.left).bound.width
            }),
            r.val() == full_bi_value(self.op, values.value(self.left), values.value(self.right)),
    {
        let left = values.fetch(self.left);
        let right = values.fetch(self.right);
        let core = match self.op {
            BiOperator::Udiv => return left.udiv(right),
            BiOperator::Urem => return left.urem(right),
            BiOperator::Sdiv => return left.sdiv(right),
            BiOperator::Srem => return left.srem(right),
            BiOperator::BitNand => return left.bit_and(right).bit_not(),
            BiOperator::BitNor => return left.bit_or(right).bit_not(),
            BiOperator::BitXnor => return left.bit_xor(right).bit_not(),
            BiOperator::Add => CoreOperator::Add,
            BiOperator::Sub => CoreOperator::Sub,
            BiOperator::Mul => CoreOperator::Mul,
            BiOperator::BitAnd => CoreOperator::BitAnd,
            BiOperator::BitOr => CoreOperator::BitOr,
            BiOperator::BitXor => CoreOperator::BitXor,
            BiOperator::Eq => CoreOperator::Eq,
            BiOperator::Ne => CoreOperator::Ne,
            BiOperator::Implies => CoreOperator::Implies,
            BiOperator::Ult => CoreOperator::Ult,
            BiOperator::Ule => CoreOperator::Ule,
            BiOperator::Ugt => CoreOperator::Ugt,
            BiOperator::Uge => CoreOperator::Uge,
            BiOperator::Slt => CoreOperator::Slt,
            BiOperator::Sle => CoreOperator::Sle,
            BiOperator::Sgt => CoreOperator::Sgt,
            BiOperator::Sge => CoreOperator::Sge,
            BiOperator::Shl => CoreOperator::Shl,
            BiOperator::Lshr => CoreOperator::Lshr,
            BiOperator::Ashr => CoreOperator::Ashr,
        };
        let core_op = crate::problem::operation::BiOp { op: core, input_width: self.input_width, left: self.left, right: self.right };
        core_op.evaluate(values)
    }

    /// The width of the result: one for comparisons, else the input width.
    pub open spec fn spec_result_width(self) -> u32 {
        if is_full_comparison(self.op) {
            1
        } else {
            self.input_width
        }
    }

    /// The width of the result.
    pub fn result_width(&self) -> (r: u32)
        ensures
            r == self.spec_result_width(),
    {
        match self.op {
            BiOperator::Eq | BiOperator::Ne | BiOperator::Ult | BiOperator::Ule | BiOperator::Ugt
            | BiOperator::Uge | BiOperator::Slt | BiOperator::Sle | BiOperator::Sgt | BiOperator::Sge => 1,
            _ => self.input_width,
        }
    }

    /// The operation with both operands renumbered.
    pub fn remapped(&self, old_to_new: &Remapping) -> (r: BiOp)
        requires
            id_remappable(*old_to_new, self.left),
            id_remappable(*old_to_new, self.right),
        ensures
            r == (BiOp {
                left: remap_id(*old_to_new, self.left),
                right: remap_id(*old_to_new, self.right),
                ..*self
            }),
    {
        BiOp {
            op: self.op,
            input_width: self.input_width,
            left: remap_formula_id(old_to_new, self.left),
            right: remap_formula_id(old_to_new, self.right),
        }
    }
}

/// The name of an operator.
pub open spec fn operator_name(op: BiOperator) -> Seq<char> {
    match op {
        BiOperator::Add => "Add"@,
        BiOperator::Sub => "Sub"@,
        BiOperator::Mul => "Mul"@,
        BiOperator::Udiv => "Udiv"@,
        BiOperator::Urem => "Urem"@,
        BiOperator::Sdiv => "Sdiv"@,
        BiOperator::Srem => "Srem"@,
        BiOperator::BitAnd => "BitAnd"@,
        BiOperator::BitOr => "BitOr"@,
        BiOperator::BitXor => "BitXor"@,
        BiOperator::BitNand => "BitNand"@,
        BiOperator::BitNor => "BitNor"@,
        BiOperator::BitXnor => "BitXnor"@,
        BiOperator::Eq => "Eq"@,
        BiOperator::Ne => "Ne"@,
        BiOperator::Implies => "Implies"@,
        BiOperator::Ult => "Ult"@,
        BiOperator::Ule => "Ule"@,
        BiOperator::Ugt => "Ugt"@,
        BiOperator::Uge => "Uge"@,
        BiOperator::Slt => "Slt"@,
        BiOperator::Sle => "Sle"@,
        BiOperator::Sgt => "Sgt"@,
        BiOperator::Sge => "Sge"@,
        BiOperator::Shl => "Shl"@,
        BiOperator::Lshr => "Lshr"@,
        BiOperator::Ashr => "Ashr"@,
    }
}

impl BiOperator {
    /// The name of the operator.
    pub fn name(&self) -> (r: &'static str)
        ensures
            r@ == operator_name(*self),
    {
        match self {
            BiOperator::Add => "Add",
            BiOperator::Sub => "Sub",
            BiOperator::Mul => "Mul",
            BiOperator::Udiv => "Udiv",
            BiOperator::Urem => "Urem",
            BiOperator::Sdiv => "Sdiv",
            BiOperator::Srem => "Srem",
            BiOperator::BitAnd => "BitAnd",
            BiOperator::BitOr => "BitOr",
            BiOperator::BitXor => "BitXor",
            BiOperator::BitNand => "BitNand",
            BiOperator::BitNor => "BitNor",
            BiOperator::BitXnor => "BitXnor",
            BiOperator::Eq => "Eq",
            BiOperator::Ne => "Ne",
            BiOperator::Implies => "Implies",
            BiOperator::Ult => "Ult",
            BiOperator::Ule => "Ule",
            BiOperator::Ugt => "Ugt",
            BiOperator::Uge => "Uge",
            BiOperator::Slt => "Slt",
            BiOperator::Sle => "Sle",
            BiOperator::Sgt => "Sgt",
            BiOperator::Sge => "Sge",
            BiOperator::Shl => "Shl",
            BiOperator::Lshr => "Lshr",
            BiOperator::Ashr => "Ashr",
        }
    }
}

/// The text of an operation: `Name_width(left,right)`.
pub open spec fn bi_op_text(op: BiOp) -> Seq<char> {
    operator_name(op.op) + "_"@ + decimal(op.input_width as nat) + "("@ + formula_text(op.left) + ","@ + formula_text(
        op.right,
    ) + ")"@
}

impl BiOp {
    /// Appends the text of the operation.
    pub fn write_text(&self, out: &mut String)
        ensures
            final(out)@ == old(out)@ + bi_op_text(*self),
    {
        out.append(self.op.name());
        out.append("_");
        append_decimal(out, self.input_width as u128);
        out.append("(");
        write_formula(out, self.left);
        out.append(",");
        write_formula(out, self.right);
        out.append(")");
        proof {
            assert(final(out)@ =~= old(out)@ + bi_op_text(*self));
        }
    }
}

} // verus!
