use roole::domain::bitvector::{ConcreteBitvector, RBound};
use roole::formula::{BiOp, BiOperator, ExtOp, IteOp, Operation, UniOp, UniOperator};
use roole::problem::formula::operation::bi::{BiOp as FullBiOp, BiOperator as FullOperator};
use roole::problem::formula::{FormulaId, OperationId, VariableId};
use roole::problem::valuation::FormulaValues;

fn text(operation: &Operation) -> String {
    let mut out = String::new();
    operation.write_text(&mut out);
    out
}

#[test]
fn result_widths_of_the_first_operations() {
    let x = FormulaId::Variable(VariableId(0));
    let y = FormulaId::Operation(OperationId(3));
    assert_eq!(Operation::Constant(5, 12).result_width(), 12);
    assert_eq!(Operation::BiOp(BiOp { op: BiOperator::Eq, input_width: 8, left: x, right: y }).result_width(), 1);
    assert_eq!(Operation::BiOp(BiOp { op: BiOperator::Add, input_width: 8, left: x, right: y }).result_width(), 8);
    assert_eq!(
        Operation::ExtOp(ExtOp { signed: true, input_width: 8, output_width: 16, inner: x }).result_width(),
        16
    );
    assert_eq!(Operation::UniOp(UniOp { op: UniOperator::Not, input_width: 4, inner: x }).result_width(), 4);
}

#[test]
fn text_of_the_first_operations() {
    let x = FormulaId::Variable(VariableId(0));
    let y = FormulaId::Operation(OperationId(3));
    assert_eq!(text(&Operation::BiOp(BiOp { op: BiOperator::Lshr, input_width: 8, left: x, right: y })), "Lshr_8(#0, $3)");
    assert_eq!(
        text(&Operation::ExtOp(ExtOp { signed: false, input_width: 8, output_width: 16, inner: y })),
        "\"uext\"_8_16($3)"
    );
    assert_eq!(
        text(&Operation::IteOp(IteOp { condition: x, width: 2, formula_then: y, formula_else: x })),
        "ite_2(#0, $3, #0)"
    );
}

fn values(left: u64, right: u64, width: u32) -> FormulaValues {
    let bound = RBound::new(width);
    FormulaValues {
        variables: vec![ConcreteBitvector::new(left, bound), ConcreteBitvector::new(right, bound)],
        operations: vec![],
    }
}

fn evaluate(op: FullOperator, left: u64, right: u64, width: u32) -> u64 {
    let operation = FullBiOp {
        op,
        input_width: width,
        left: FormulaId::Variable(VariableId(0)),
        right: FormulaId::Variable(VariableId(1)),
    };
    operation.evaluate(&values(left, right, width)).to_u64()
}

#[test]
fn full_operator_set_evaluates() {
    assert_eq!(evaluate(FullOperator::Udiv, 100, 7, 8), 14);
    assert_eq!(evaluate(FullOperator::Udiv, 100, 0, 8), 255);
    assert_eq!(evaluate(FullOperator::Urem, 100, 7, 8), 2);
    assert_eq!(evaluate(FullOperator::Urem, 100, 0, 8), 100);
    assert_eq!(evaluate(FullOperator::Sdiv, 256 - 100, 7, 8), 256 - 14);
    assert_eq!(evaluate(FullOperator::Srem, 256 - 100, 7, 8), 256 - 2);
    assert_eq!(evaluate(FullOperator::BitNand, 0b1100, 0b1010, 4), 0b0111);
    assert_eq!(evaluate(FullOperator::BitNor, 0b1100, 0b1010, 4), 0b0001);
    assert_eq!(evaluate(FullOperator::BitXnor, 0b1100, 0b1010, 4), 0b1001);
    assert_eq!(evaluate(FullOperator::Sge, 3, 200, 8), 1);
    assert_eq!(evaluate(FullOperator::Implies, 1, 0, 1), 0);
    assert_eq!(evaluate(FullOperator::Shl, 0b0011, 1, 4), 0b0110);
}

#[test]
fn full_operation_width_and_text() {
    let operation = FullBiOp {
        op: FullOperator::Srem,
        input_width: 16,
        left: FormulaId::Variable(VariableId(2)),
        right: FormulaId::Operation(OperationId(0)),
    };
    assert_eq!(operation.result_width(), 16);
    let mut out = String::new();
    operation.write_text(&mut out);
    assert_eq!(out, "Srem_16(#2,$0)");
    let comparison = FullBiOp { op: FullOperator::Ule, ..operation };
    assert_eq!(comparison.result_width(), 1);
}
