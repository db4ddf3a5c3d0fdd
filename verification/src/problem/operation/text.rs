//! Text of formulas and operations, as the problem is shown to a reader:
//! `#i` for a variable, `$i` for an operation result, and each operation as
//! its name with its widths, then its inputs in brackets.
use vstd::arithmetic::power2::pow2;
use vstd::prelude::*;
use vstd::string::StringExecFns;

use crate::domain::bitvector::{modulus_u128, ConcreteBitvector};
use crate::printing::{append_decimal, decimal};
use crate::problem::formula::FormulaId;
use crate::problem::operation::bi::BiOperator;
use crate::problem::operation::linear::combination::LinearCombination;
use crate::problem::operation::linear::relation::LinearRelation;
use crate::problem::operation::linear::{LinearOperation, LinearOperationType, LinearPolynomial, LinearSlice, LinearSystem};
use crate::problem::operation::{BiOp, Operation, UniOperator};

verus! {

/// The text of a formula: `#` and the variable index, or `$` and the
/// operation index.
pub open spec fn formula_text(id: FormulaId) -> Seq<char> {
    match id {
        FormulaId::Variable(v) => "#"@ + decimal(v.0 as nat),
        FormulaId::Operation(o) => "$"@ + decimal(o.0 as nat),
    }
}

/// Appends the text of a formula.
pub fn write_formula(out: &mut String, id: FormulaId)
    ensures
        final(out)@ == old(out)@ + formula_text(id),
{
    match id {
        FormulaId::Variable(v) => {
            out.append("#");
            append_decimal(out, v.0 as u128);
        },
        FormulaId::Operation(o) => {
            out.append("$");
            append_decimal(out, o.0 as u128);
        },
    }
    proof {
        assert(final(out)@ =~= old(out)@ + formula_text(id));
    }
}

/// The name of a binary operator.
pub open spec fn bi_operator_name(op: BiOperator) -> Seq<char> {
    match op {
        BiOperator::Add => "Add"@,
        BiOperator::Sub => "Sub"@,
        BiOperator::Mul => "Mul"@,
        BiOperator::BitAnd => "BitAnd"@,
        BiOperator::BitOr => "BitOr"@,
        BiOperator::BitXor => "BitXor"@,
        BiOperator::Eq => "Eq"@,
        BiOperator::Ne => "Ne"@,
        BiOperator::Implies => "Implies"@,
        BiOperator::Ult => "Ult"@,
        BiOperator::Ule => "Ule"@,
        BiOperator::Ugt => "Ugt"@,
        BiOperator::Uge => "Uge"@,
        BiOperator::Slt => "Slt"@,
        BiOperator::Sle => "Sle"@,
        BiOperator::Sgt => "Sgt"@,
        BiOperator::Sge => "Sge"@,
        BiOperator::Shl => "Shl"@,
        BiOperator::Lshr => "Lshr"@,
        BiOperator::Ashr => "Ashr"@,
    }
}

impl BiOperator {
    /// The name of the operator.
    pub fn name(&self) -> (r: &'static str)
        ensures
            r@ == bi_operator_name(*self),
    {
        match self {
            BiOperator::Add => "Add",
            BiOperator::Sub => "Sub",
            BiOperator::Mul => "Mul",
            BiOperator::BitAnd => "BitAnd",
            BiOperator::BitOr => "BitOr",
            BiOperator::BitXor => "BitXor",
            BiOperator::Eq => "Eq",
            BiOperator::Ne => "Ne",
            BiOperator::Implies => "Implies",
            BiOperator::Ult => "Ult",
            BiOperator::Ule => "Ule",
            BiOperator::Ugt => "Ugt",
            BiOperator::Uge => "Uge",
            BiOperator::Slt => "Slt",
            BiOperator::Sle => "Sle",
            BiOperator::Sgt => "Sgt",
            BiOperator::Sge => "Sge",
            BiOperator::Shl => "Shl",
            BiOperator::Lshr => "Lshr",
            BiOperator::Ashr => "Ashr",
        }
    }
}

/// The text of a binary operation: `Name_width(left,right)`.
pub open spec fn bi_op_text(op: BiOp) -> Seq<char> {
    bi_operator_name(op.op) + "_"@ + decimal(op.input_width as nat) + "("@ + formula_text(op.left) + ","@ + formula_text(
        op.right,
    ) + ")"@
}

impl BiOp {
    /// Appends the text of the operation.
    pub fn write_text(&self, out: &mut String)
        ensures
            final(out)@ == old(out)@ + bi_op_text(*self),
    {
        out.append(self.op.name());
        out.append("_");
        append_decimal(out, self.input_width as u128);
        out.append("(");
        write_formula(out, self.left);
        out.append(",");
        write_formula(out, self.right);
        out.append(")");
        proof {
            assert(final(out)@ =~= old(out)@ + bi_op_text(*self));
        }
    }
}

/// The text of a slice: its formula, then its highest and lowest bit.
pub open spec fn slice_text(slice: LinearSlice) -> Seq<char> {
    formula_text(slice.formula_id) + "["@ + decimal((slice.lsb + slice.width - 1) as nat) + ":"@ + decimal(slice.lsb as nat)
        + "]"@
}

/// The text of a term: the coefficient and `*` unless it is one, then the
/// slice.
pub open spec fn term_text(term: (LinearSlice, ConcreteBitvector)) -> Seq<char> {
    (if term.1.val() == 1nat % term.1.modulus() {
        Seq::empty()
    } else {
        decimal(term.1.val()) + "*"@
    }) + slice_text(term.0)
}

/// The text of terms, joined by ` + `.
pub open spec fn terms_text(terms: Seq<(LinearSlice, ConcreteBitvector)>) -> Seq<char>
    decreases terms.len(),
{
    if terms.len() == 0 {
        Seq::empty()
    } else if terms.len() == 1 {
        term_text(terms[0])
    } else {
        terms_text(terms.drop_last()) + " + "@ + term_text(terms.last())
    }
}

/// The text of a polynomial with the given constant: `(terms + constant)
/// mod 2^width`, the constant left out where it is zero and there are
/// terms.
pub open spec fn polynomial_text(terms: Seq<(LinearSlice, ConcreteBitvector)>, constant: nat, width: nat) -> Seq<char> {
    "("@ + (if terms.len() == 0 {
        decimal(constant)
    } else if constant != 0 {
        terms_text(terms) + " + "@ + decimal(constant)
    } else {
        terms_text(terms)
    }) + ") mod "@ + decimal(pow2(width))
}

/// Appends the text of a term.
fn write_term(out: &mut String, term: (LinearSlice, ConcreteBitvector))
    requires
        term.1.wf(),
        term.0.wf(),
    ensures
        final(out)@ == old(out)@ + term_text(term),
{
    let (slice, coefficient) = term;
    let one = ConcreteBitvector::one(coefficient.bound());
    if coefficient.value != one.value {
        append_decimal(out, coefficient.value as u128);
        out.append("*");
    }
    write_formula(out, slice.formula_id);
    out.append("[");
    append_decimal(out, (slice.lsb as u128) + (slice.width as u128) - 1);
    out.append(":");
    append_decimal(out, slice.lsb as u128);
    out.append("]");
    proof {
        assert(final(out)@ =~= old(out)@ + term_text(term));
    }
}

/// Appends the text of a polynomial with the given constant.
fn write_polynomial(out: &mut String, terms: &Vec<(LinearSlice, ConcreteBitvector)>, constant: ConcreteBitvector)
    requires
        constant.wf(),
        forall|i: int| 0 <= i < terms@.len() ==> (#[trigger] terms@[i]).1.wf() && terms@[i].0.wf(),
    ensures
        final(out)@ == old(out)@ + polynomial_text(terms@, constant.val(), constant.bound.width as nat),
{
    out.append("(");
    let ghost start = out@;
    let mut i: usize = 0;
    while i < terms.len()
        invariant
            0 <= i <= terms@.len(),
            forall|j: int| 0 <= j < terms@.len() ==> (#[trigger] terms@[j]).1.wf() && terms@[j].0.wf(),
            out@ == start + terms_text(terms@.take(i as int)),
        decreases terms@.len() - i,
    {
        if i > 0 {
            out.append(" + ");
        }
        write_term(out, terms[i]);
        proof {
            let t = terms@.take(i + 1);
            assert(t.drop_last() =~= terms@.take(i as int));
            assert(t.last() == terms@[i as int]);
            if i == 0 {
                assert(t.len() == 1);
                assert(terms@.take(0) =~= Seq::<(LinearSlice, ConcreteBitvector)>::empty());
            }
            assert(out@ =~= start + terms_text(terms@.take(i + 1)));
        }
        i = i + 1;
    }
    proof {
        assert(terms@.take(terms@.len() as int) =~= terms@);
    }
    if terms.len() == 0 {
        append_decimal(out, constant.value as u128);
    } else if constant.value != 0 {
        out.append(" + ");
        append_decimal(out, constant.value as u128);
    }
    out.append(") mod ");
    append_decimal(out, modulus_u128(constant.bound));
    proof {
        assert(final(out)@ =~= old(out)@ + polynomial_text(terms@, constant.val(), constant.bound.width as nat));
    }
}

impl LinearPolynomial {
    /// The text of the polynomial.
    pub open spec fn text(self) -> Seq<char> {
        polynomial_text(self.linear_terms@, self.constant_term.val(), self.constant_term.bound.width as nat)
    }

    /// Appends the text of the polynomial.
    pub fn write_text(&self, out: &mut String)
        requires
            self.wf(),
        ensures
            final(out)@ == old(out)@ + self.text(),
    {
        write_polynomial(out, &self.linear_terms, self.constant_term);
    }
}

impl LinearRelation {
    /// The text of the relation: where the slack is one below the full
    /// mask, the polynomial plus one and ` != 0`; otherwise the polynomial,
    /// ` == ` for a zero slack or ` <= ` for another, and the slack.
    pub open spec fn text(self) -> Seq<char> {
        let m = self.slack.modulus();
        if (self.slack.val() + 1) % m + 1 == m {
            polynomial_text(
                self.polynomial.linear_terms@,
                (self.polynomial.constant_term.val() + 1) % m,
                self.slack.bound.width as nat,
            ) + " != 0"@
        } else {
            self.polynomial.text() + (if self.slack.val() == 0 {
                " == "@
            } else {
                " <= "@
            }) + decimal(self.slack.val())
        }
    }

    /// Appends the text of the relation.
    pub fn write_text(&self, out: &mut String)
        requires
            self.wf(),
        ensures
            final(out)@ == old(out)@ + self.text(),
    {
        let one = ConcreteBitvector::one(self.slack.bound());
        if self.slack.add(one).is_full_mask() {
            let constant = self.polynomial.constant_term.add(one);
            proof {
                assert(forall|i: int|
                    0 <= i < self.polynomial.linear_terms@.len() ==> (#[trigger] self.polynomial.linear_terms@[i]).1.wf()
                        && self.polynomial.linear_terms@[i].0.wf());
                let m = self.slack.modulus();
                assert(one.val() == 1nat % m);
                crate::domain::bitvector::lemma_modulus_bounds(self.slack.bound);
                if m > 1 {
                    vstd::arithmetic::div_mod::lemma_small_mod(1, m);
                }
                vstd::arithmetic::div_mod::lemma_add_mod_noop(self.slack.val() as int, 1, m as int);
                vstd::arithmetic::div_mod::lemma_add_mod_noop(self.polynomial.constant_term.val() as int, 1, m as int);
                vstd::arithmetic::div_mod::lemma_mod_twice(1, m as int);
                vstd::arithmetic::div_mod::lemma_small_mod(self.slack.val(), m);
                vstd::arithmetic::div_mod::lemma_small_mod(self.polynomial.constant_term.val(), m);
            }
            write_polynomial(out, &self.polynomial.linear_terms, constant);
            out.append(" != 0");
        } else {
            proof {
                let m = self.slack.modulus();
                crate::domain::bitvector::lemma_modulus_bounds(self.slack.bound);
                if m > 1 {
                    vstd::arithmetic::div_mod::lemma_small_mod(1, m);
                }
                vstd::arithmetic::div_mod::lemma_add_mod_noop(self.slack.val() as int, 1, m as int);
                vstd::arithmetic::div_mod::lemma_mod_twice(1, m as int);
                vstd::arithmetic::div_mod::lemma_small_mod(self.slack.val(), m);
            }
            self.polynomial.write_text(out);
            if self.slack.is_zero() {
                out.append(" == ");
            } else {
                out.append(" <= ");
            }
            append_decimal(out, self.slack.value as u128);
        }
        proof {
            assert(final(out)@ =~= old(out)@ + self.text());
        }
    }
}

/// The texts of relations, joined by the separator.
pub open spec fn relations_text(relations: Seq<LinearRelation>, separator: Seq<char>) -> Seq<char>
    decreases relations.len(),
{
    if relations.len() == 0 {
        Seq::empty()
    } else if relations.len() == 1 {
        relations[0].text()
    } else {
        relations_text(relations.drop_last(), separator) + separator + relations.last().text()
    }
}

impl LinearSystem {
    /// The text of the system: its relations joined by ` ∧ ` for a
    /// conjunction and by ` ∨ ` otherwise.
    pub open spec fn text(self) -> Seq<char> {
        relations_text(self.relations(), if self is Conjunction {
            " ∧ "@
        } else {
            " ∨ "@
        })
    }

    /// Appends the text of the system.
    pub fn write_text(&self, out: &mut String)
        requires
            self.wf(),
        ensures
            final(out)@ == old(out)@ + self.text(),
    {
        match self {
            LinearSystem::Single(relation) => {
                assert(self.relations()[0] == *relation);
                relation.write_text(out);
                proof {
                    assert(final(out)@ =~= old(out)@ + self.text());
                }
            },
            LinearSystem::Conjunction(relations) => {
                assert(relations@ == self.relations());
                write_relations(out, relations, " ∧ ");
            },
            LinearSystem::Disjunction(relations) => {
                assert(relations@ == self.relations());
                write_relations(out, relations, " ∨ ");
            },
        }
    }
}

/// Appends the texts of relations, joined by the separator.
fn write_relations(out: &mut String, relations: &Vec<LinearRelation>, separator: &str)
    requires
        forall|i: int| 0 <= i < relations@.len() ==> (#[trigger] relations@[i]).wf(),
    ensures
        final(out)@ == old(out)@ + relations_text(relations@, separator@),
{
    let mut i: usize = 0;
    while i < relations.len()
        invariant
            0 <= i <= relations@.len(),
            forall|j: int| 0 <= j < relations@.len() ==> (#[trigger] relations@[j]).wf(),
            out@ == old(out)@ + relations_text(relations@.take(i as int), separator@),
        decreases relations@.len() - i,
    {
        if i > 0 {
            out.append(separator);
        }
        relations[i].write_text(out);
        proof {
            let t = relations@.take(i + 1);
            assert(t.drop_last() =~= relations@.take(i as int));
            assert(t.last() == relations@[i as int]);
            if i == 0 {
                assert(t.len() == 1);
                assert(relations@.take(0) =~= Seq::<LinearRelation>::empty());
            }
            assert(out@ =~= old(out)@ + relations_text(relations@.take(i + 1), separator@));
        }
        i = i + 1;
    }
    proof {
        assert(relations@.take(relations@.len() as int) =~= relations@);
    }
}

impl LinearOperation {
    /// The text of the polynomial or system.
    pub open spec fn text(self) -> Seq<char> {
        match self.0 {
            LinearOperationType::Polynomial(p) => p.text(),
            LinearOperationType::System(s) => s.text(),
        }
    }

    /// Appends the text of the operation.
    pub fn write_text(&self, out: &mut String)
        requires
            self.wf(),
        ensures
            final(out)@ == old(out)@ + self.text(),
    {
        match &self.0 {
            LinearOperationType::Polynomial(p) => p.write_text(out),
            LinearOperationType::System(s) => s.write_text(out),
        }
    }
}

impl Operation {
    /// The text of the operation: `bv_width(value)` for a constant, the
    /// operation name with its widths and then its inputs in brackets
    /// otherwise; an extraction shows its highest and lowest bit.
    pub open spec fn text(self) -> Seq<char> {
        match self {
            Operation::Constant(value, width) => "bv_"@ + decimal(width as nat) + "("@ + decimal(value as nat) + ")"@,
            Operation::UniOp(op) => "Not_"@ + decimal(op.input_width as nat) + "("@ + formula_text(op.inner) + ")"@,
            Operation::BiOp(op) => bi_op_text(op),
            Operation::ExtOp(op) => (if op.signed {
                "sext"@
            } else {
                "uext"@
            }) + "_"@ + decimal(op.input_width as nat) + "_"@ + decimal(op.output_width as nat) + "("@ + formula_text(
                op.inner,
            ) + ")"@,
            Operation::IteOp(op) => "ite_"@ + decimal(op.width as nat) + "("@ + formula_text(op.condition) + ","@
                + formula_text(op.formula_then) + ","@ + formula_text(op.formula_else) + ")"@,
            Operation::ConcatOp(op) => "concat_"@ + decimal(op.left_width as nat) + "_"@ + decimal(op.right_width as nat)
                + "("@ + formula_text(op.left) + ","@ + formula_text(op.right) + ")"@,
            Operation::ExtractOp(op) => "extract_"@ + decimal((op.lsb + op.width - 1) as nat) + "_"@ + decimal(
                op.lsb as nat,
            ) + "("@ + formula_text(op.inner) + ")"@,
            Operation::Linear(linear) => linear.text(),
        }
    }

    /// Appends the text of the operation.
    pub fn write_text(&self, out: &mut String)
        requires
            self.linear_wf(),
            self matches Operation::ExtractOp(op) ==> op.width > 0,
        ensures
            final(out)@ == old(out)@ + self.text(),
    {
        match self {
            Operation::Constant(value, width) => {
                out.append("bv_");
                append_decimal(out, *width as u128);
                out.append("(");
                append_decimal(out, *value as u128);
                out.append(")");
            },
            Operation::UniOp(op) => {
                match op.op {
                    UniOperator::Not => out.append("Not_"),
                }
                append_decimal(out, op.input_width as u128);
                out.append("(");
                write_formula(out, op.inner);
                out.append(")");
            },
            Operation::BiOp(op) => op.write_text(out),
            Operation::ExtOp(op) => {
                if op.signed {
                    out.append("sext");
                } else {
                    out.append("uext");
                }
                out.append("_");
                append_decimal(out, op.input_width as u128);
                out.append("_");
                append_decimal(out, op.output_width as u128);
                out.append("(");
                write_formula(out, op.inner);
                out.append(")");
            },
            Operation::IteOp(op) => {
                out.append("ite_");
                append_decimal(out, op.width as u128);
                out.append("(");
                write_formula(out, op.condition);
                out.append(",");
                write_formula(out, op.formula_then);
                out.append(",");
                write_formula(out, op.formula_else);
                out.append(")");
            },
            Operation::ConcatOp(op) => {
                out.append("concat_");
                append_decimal(out, op.left_width as u128);
                out.append("_");
                append_decimal(out, op.right_width as u128);
                out.append("(");
                write_formula(out, op.left);
                out.append(",");
                write_formula(out, op.right);
                out.append(")");
            },
            Operation::ExtractOp(op) => {
                out.append("extract_");
                append_decimal(out, (op.lsb as u128) + (op.width as u128) - 1);
                out.append("_");
                append_decimal(out, op.lsb as u128);
                out.append("(");
                write_formula(out, op.inner);
                out.append(")");
            },
            Operation::Linear(linear) => linear.write_text(out),
        }
        proof {
            assert(final(out)@ =~= old(out)@ + self.text());
        }
    }
}

impl LinearCombination {
    /// The text of the combination: that of the polynomial with the same
    /// constant and terms.
    pub open spec fn text(self) -> Seq<char> {
        polynomial_text(self.monomials@, self.constant.val(), self.constant.bound.width as nat)
    }

    /// Appends the text of the combination.
    pub fn write_text(&self, out: &mut String)
        requires
            self.wf(),
        ensures
            final(out)@ == old(out)@ + self.text(),
    {
        write_polynomial(out, &self.monomials, self.constant);
    }
}

} // verus!
