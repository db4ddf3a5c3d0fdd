use roole::domain::bitvector::{ConcreteBitvector, RBound};
use roole::problem::domain::OperationDomain;
use roole::problem::formula::{FormulaId, VariableId};
use roole::problem::operation::linear::{LinearOperation, LinearOperationType, LinearPolynomial, LinearSlice};

fn bv(value: u64, width: u32) -> ConcreteBitvector {
    ConcreteBitvector::new(value, RBound::new(width))
}

fn constant(value: u64, width: u32) -> OperationDomain {
    OperationDomain::single_value(bv(value, width))
}

fn variable(index: usize, width: u32, coefficient: u64, offset: u64) -> OperationDomain {
    let bound = RBound::new(width);
    OperationDomain::from_polynomial(LinearPolynomial {
        linear_terms: vec![(
            LinearSlice { formula_id: FormulaId::Variable(VariableId(index)), lsb: 0, width },
            ConcreteBitvector::new(coefficient, bound),
        )],
        constant_term: ConcreteBitvector::new(offset, bound),
    })
}

fn text(element: &OperationDomain) -> String {
    let mut out = String::new();
    element.write_text(&mut out);
    out
}

#[test]
fn linear_arithmetic_stays_linear() {
    let x = variable(0, 8, 3, 1);
    let y = variable(0, 8, 2, 250);
    assert_eq!(text(&x.add(y)), "(5*#0[7:0] + 251) mod 256");
    let x = variable(0, 8, 3, 1);
    let y = variable(0, 8, 2, 250);
    assert_eq!(text(&x.sub(y)), "(#0[7:0] + 7) mod 256");
    let x = variable(0, 8, 3, 1);
    assert_eq!(text(&x.arith_neg()), "(253*#0[7:0] + 255) mod 256");
    let x = variable(0, 8, 3, 1);
    assert_eq!(text(&x.mul(constant(4, 8))), "(12*#0[7:0] + 4) mod 256");
    let x = variable(0, 8, 3, 1);
    let y = variable(1, 8, 1, 0);
    assert_eq!(text(&x.mul(y)), "⊤(8)");
}

#[test]
fn equality_gives_a_relation_or_a_known_bit() {
    let x = variable(0, 8, 1, 0);
    let equal = x.eq(constant(5, 8));
    assert_eq!(equal.bound().width, 1);
    assert_eq!(text(&equal), "(#0[7:0] + 251) mod 256 == 0");
    let bit = variable(1, 1, 1, 0);
    // a single-bit relation with the slack at the full mask is shown as an inequality
    assert_eq!(text(&bit.eq(constant(1, 1))), "(#1[0:0]) mod 2 != 0");
    let bit = variable(1, 1, 1, 0);
    assert_eq!(text(&bit.eq(constant(0, 1))), "(#1[0:0] + 1) mod 2 != 0");
    // a relation compared with the constant one is the relation itself
    let relation = variable(0, 8, 1, 0).eq(constant(5, 8));
    assert_eq!(text(&relation.eq(constant(1, 1))), "(#0[7:0] + 251) mod 256 == 0");
    // and compared with zero its negation
    let relation = variable(0, 8, 1, 0).eq(constant(5, 8));
    assert_eq!(text(&constant(0, 1).eq(relation)), "(255*#0[7:0] + 5) mod 256 != 0");
}

#[test]
fn if_then_else_picks_and_simplifies() {
    let then_branch = variable(0, 8, 1, 0);
    let else_branch = constant(9, 8);
    let picked = OperationDomain::ite(constant(0, 1), then_branch, else_branch);
    assert_eq!(text(&picked), "(9) mod 256");
    // single-bit constant branches collapse onto the condition
    let condition = variable(2, 1, 1, 0);
    let collapsed = OperationDomain::ite(condition, constant(0, 1), constant(1, 1));
    assert_eq!(text(&collapsed), "(#2[0:0] + 1) mod 2");
}

#[test]
fn single_bit_conjunction_with_constants() {
    let bit = variable(0, 1, 1, 0);
    assert_eq!(text(&bit.bit_and(constant(1, 1))), "(#0[0:0]) mod 2");
    let bit = variable(0, 1, 1, 0);
    assert_eq!(text(&bit.bit_and(constant(0, 1))), "(0) mod 2");
    let bit = variable(0, 1, 1, 0);
    assert_eq!(text(&bit.bit_or(constant(1, 1))), "(1) mod 2");
    let bit = variable(0, 1, 1, 0);
    assert_eq!(text(&bit.bit_xor(constant(1, 1))), "⊤(1)");
}

#[test]
fn join_keeps_equal_elements_only() {
    let x = variable(0, 8, 1, 0);
    assert_eq!(text(&x.join(&variable(0, 8, 1, 0))), "(#0[7:0]) mod 256");
    let x = variable(0, 8, 1, 0);
    assert_eq!(text(&x.join(&variable(0, 8, 1, 1))), "⊤(8)");
}

#[test]
fn extensions_and_shifts() {
    let x = constant(0b1010_0000, 8);
    assert_eq!(text(&x.uext(RBound::new(4))), "(0) mod 16");
    let x = variable(0, 8, 1, 0);
    assert_eq!(text(&x.uext(RBound::new(16))), "(#0[7:0]) mod 65536");
    let x = variable(0, 8, 1, 0);
    assert_eq!(text(&x.sext(RBound::new(16))), "⊤(16)");
    let x = variable(0, 8, 1, 1);
    assert_eq!(text(&x.logic_shl(constant(2, 8))), "(4*#0[7:0] + 4) mod 256");
    let x = variable(0, 8, 1, 1);
    assert_eq!(text(&x.arith_shr(constant(2, 8))), "⊤(8)");
}

#[test]
fn bit_not_of_polynomial_and_top() {
    let x = variable(0, 8, 1, 0);
    assert_eq!(text(&x.bit_not()), "(255*#0[7:0] + 255) mod 256");
    assert_eq!(text(&OperationDomain::top(RBound::new(3)).bit_not()), "⊤(3)");
    let linear = LinearOperation(LinearOperationType::Polynomial(LinearPolynomial::single_bit(true)));
    assert!(OperationDomain::Linear(linear).constant_value().is_some());
}

fn domain32(constant: u64, coefficient: u64) -> OperationDomain {
    let bound = RBound::new(32);
    OperationDomain::from_polynomial(LinearPolynomial {
        linear_terms: vec![(
            LinearSlice { formula_id: FormulaId::Variable(VariableId(0)), lsb: 0, width: 32 },
            ConcreteBitvector::new(coefficient, bound),
        )],
        constant_term: ConcreteBitvector::new(constant, bound),
    })
}

#[test]
fn arith_test_addsub() {
    let a = domain32(38, 12);
    let b = domain32(17, 7);
    let add_result = domain32(55, 19);
    let sub_result = domain32(21, 5);
    assert_eq!(a.clone().add(b.clone()), add_result);
    assert_eq!(a.sub(b), sub_result);
}
