use roole::domain::bitvector::{ConcreteBitvector, RBound};
use roole::domain::three_valued_bitvector::ThreeValuedBitvector;
use roole::domain::value::param_valuation::ParamValuation;
use roole::domain::value::three_valued::ThreeValued;
use roole::problem::assignment::Assignment;
use roole::problem::decision::Decision;
use roole::problem::evaluator::Evaluator;
use roole::problem::formula::{FormulaId, OperationId, Variable, VariableId};
use roole::problem::operation::{BiOp, BiOperator, IteOp, Operation};
use roole::problem::Problem;

#[test]
fn three_valued_logic() {
    let (f, t, u) = (ThreeValued::False, ThreeValued::True, ThreeValued::Unknown);
    assert_eq!(f.bitand(u), f);
    assert_eq!(t.bitand(u), u);
    assert_eq!(t.bitor(u), t);
    assert_eq!(f.bitor(u), u);
    assert_eq!(t.bitxor(t), f);
    assert_eq!(u.not(), u);
    assert_eq!(t.join(&f), u);
    assert_eq!(t.join(&t), t);
    assert!(u.contains(&t));
    assert!(!t.contains(&u));
    assert_eq!(ThreeValued::from_bool(true), t);
    assert_eq!(u.to_opt_bool(), None);
    assert_eq!(t.to_display_string(), "true");
}

#[test]
fn parametric_valuations() {
    let t = ParamValuation::from_bool(true);
    let f = ParamValuation::from_bool(false);
    assert_eq!(t.try_into_bool(), Some(true));
    assert_eq!(f.not().try_into_bool(), Some(true));
    assert_eq!(t.bitand(f).try_into_bool(), Some(false));
    assert_eq!(t.bitor(f).try_into_bool(), Some(true));
    let unknown = ParamValuation::from_three_valued(ThreeValued::Unknown);
    assert!(unknown.is_unknown());
    assert!(unknown.can_be_true() && unknown.can_be_false());
    assert!(!t.can_be_false());
}

#[test]
fn three_valued_bitvectors() {
    let bound = RBound::new(4);
    let top = ThreeValuedBitvector::top(bound);
    assert_eq!(top.three_valued_from_bit(2), ThreeValued::Unknown);
    let value = ThreeValuedBitvector::single_value(ConcreteBitvector::new(0b1010, bound));
    assert_eq!(value.three_valued_from_bit(1), ThreeValued::True);
    assert_eq!(value.three_valued_from_bit(0), ThreeValued::False);
    assert_eq!(value.concrete_value(), Some(ConcreteBitvector::new(0b1010, bound)));
    assert!(top.contains(&value));
    assert!(!value.contains(&top));
    let other = ThreeValuedBitvector::single_value(ConcreteBitvector::new(0b1000, bound));
    let joined = value.join(&other);
    assert_eq!(joined.three_valued_from_bit(3), ThreeValued::True);
    assert_eq!(joined.three_valued_from_bit(1), ThreeValued::Unknown);
    assert_eq!(joined.concrete_value(), None);
}

#[test]
fn assignment_decisions() {
    let problem = Problem::new(vec![Variable { width: 3 }], vec![], FormulaId::Variable(VariableId(0)));
    let mut assignment: Assignment = problem.unknown_assignment();
    let decision = Decision::new(0, 1);
    assert_eq!(assignment.get_decision_value(decision), ThreeValued::Unknown);
    assignment.apply_bool_decision_to_undecided(decision, true);
    assert_eq!(assignment.get_decision_value(decision), ThreeValued::True);
    assert_eq!(assignment.get_decision_value(Decision::new(0, 0)), ThreeValued::Unknown);
    let unknown = problem.unknown_assignment();
    assert!(unknown.contains(&assignment));
    assert!(!assignment.contains(&unknown));
}

#[test]
fn evaluation_refuses_mismatched_widths() {
    // the operands of the addition have different widths
    let problem = Problem::new(
        vec![Variable { width: 8 }, Variable { width: 4 }],
        vec![Operation::BiOp(BiOp {
            op: BiOperator::Add,
            input_width: 8,
            left: FormulaId::Variable(VariableId(0)),
            right: FormulaId::Variable(VariableId(1)),
        })],
        FormulaId::Operation(OperationId(0)),
    );
    let mut evaluator = Evaluator::new(&problem);
    let values = vec![ConcreteBitvector::new(1, RBound::new(8)), ConcreteBitvector::new(1, RBound::new(4))];
    assert_eq!(evaluator.evaluate(&values), None);
    assert_eq!(evaluator.get_operation_result_ref(OperationId(0)), None);
}

#[test]
fn evaluation_keeps_needed_results_only() {
    // operation 0 is not needed by the assertion, operation 1 is
    let x = FormulaId::Variable(VariableId(0));
    let problem = Problem::new(
        vec![Variable { width: 8 }],
        vec![
            Operation::BiOp(BiOp { op: BiOperator::Mul, input_width: 8, left: x, right: x }),
            Operation::BiOp(BiOp { op: BiOperator::Add, input_width: 8, left: x, right: x }),
        ],
        FormulaId::Operation(OperationId(1)),
    );
    let mut evaluator = Evaluator::new(&problem);
    let values = vec![ConcreteBitvector::new(200, RBound::new(8))];
    assert_eq!(evaluator.evaluate(&values), Some(ConcreteBitvector::new(144, RBound::new(8))));
    assert_eq!(evaluator.get_operation_result_ref(OperationId(0)), None);
    assert_eq!(*evaluator.result(OperationId(1)), ConcreteBitvector::new(144, RBound::new(8)));
}

#[test]
fn trivial_results_of_constant_assertions() {
    let constant = |value: u64| {
        Problem::new(vec![], vec![Operation::Constant(value, 1)], FormulaId::Operation(OperationId(0)))
    };
    assert_eq!(constant(1).trivial_result(), ThreeValued::True);
    assert_eq!(constant(0).trivial_result(), ThreeValued::False);
    let variable = Problem::new(vec![Variable { width: 1 }], vec![], FormulaId::Variable(VariableId(0)));
    assert_eq!(variable.trivial_result(), ThreeValued::Unknown);
    let x = FormulaId::Variable(VariableId(0));
    let operation = Problem::new(
        vec![Variable { width: 1 }],
        vec![Operation::BiOp(BiOp { op: BiOperator::BitAnd, input_width: 1, left: x, right: x })],
        FormulaId::Operation(OperationId(0)),
    );
    assert_eq!(operation.trivial_result(), ThreeValued::Unknown);
}

#[test]
fn three_valued_if_then_else() {
    let bit = RBound::new(1);
    let byte = RBound::new(4);
    let then_value = ThreeValuedBitvector::single_value(ConcreteBitvector::new(0b1010, byte));
    let else_value = ThreeValuedBitvector::single_value(ConcreteBitvector::new(0b1000, byte));
    let ite = IteOp {
        condition: FormulaId::Variable(VariableId(0)),
        width: 4,
        formula_then: FormulaId::Variable(VariableId(1)),
        formula_else: FormulaId::Operation(OperationId(0)),
    };
    let results = vec![Some(else_value)];
    // known one: the then-branch
    let one = Assignment { values: vec![ThreeValuedBitvector::single_value(ConcreteBitvector::one(bit)), then_value] };
    assert_eq!(ite.evaluate_three_valued(&one, &results), then_value);
    // known zero: the else-branch, the then-branch is not looked at
    let zero = Assignment { values: vec![ThreeValuedBitvector::single_value(ConcreteBitvector::zero(bit)), then_value] };
    assert_eq!(ite.evaluate_three_valued(&zero, &results), else_value);
    let missing_then = IteOp { formula_then: FormulaId::Operation(OperationId(5)), ..ite };
    assert_eq!(missing_then.evaluate_three_valued(&zero, &results), else_value);
    // unknown: the join of both branches
    let unknown = Assignment { values: vec![ThreeValuedBitvector::top(bit), then_value] };
    let joined = ite.evaluate_three_valued(&unknown, &results);
    assert_eq!(joined, then_value.join(&else_value));
    assert_eq!(joined.three_valued_from_bit(3), ThreeValued::True);
    assert_eq!(joined.three_valued_from_bit(1), ThreeValued::Unknown);
    assert_eq!(joined.three_valued_from_bit(0), ThreeValued::False);
}
