use bimap::BiBTreeMap;
use roole::domain::bitvector::{ConcreteBitvector, RBound};
use roole::problem::formula::{FormulaId, OperationId, VariableId};
use roole::problem::operation::linear::{LinearOperation, LinearOperationType, LinearPolynomial, LinearSlice};
use roole::problem::operation::{BiOp, BiOperator, Operation};
use roole::problem::remap::{key_of, Remapping};

fn remapping(pairs: &[(FormulaId, FormulaId)]) -> Remapping {
    let mut map = BiBTreeMap::new();
    for (old, new) in pairs {
        map.insert(key_of(*old), key_of(*new));
    }
    map
}

fn variable(i: usize) -> FormulaId {
    FormulaId::Variable(VariableId(i))
}

fn operation(i: usize) -> FormulaId {
    FormulaId::Operation(OperationId(i))
}

#[test]
fn binary_operation_is_renumbered() {
    let map = remapping(&[(variable(0), operation(5)), (operation(1), variable(2))]);
    let op = Operation::BiOp(BiOp { op: BiOperator::Add, input_width: 8, left: variable(0), right: operation(1) });
    let remapped = op.remapped(&map);
    assert_eq!(
        remapped,
        Operation::BiOp(BiOp { op: BiOperator::Add, input_width: 8, left: operation(5), right: variable(2) })
    );
}

#[test]
fn missing_formula_is_not_remapped() {
    let map = remapping(&[(variable(0), variable(1))]);
    let op = Operation::BiOp(BiOp { op: BiOperator::Sub, input_width: 8, left: variable(0), right: variable(3) });
    assert!(op.try_remapped(&map).is_none());
    assert!(Operation::Constant(3, 8).try_remapped(&map).is_some());
}

#[test]
fn polynomial_terms_are_sorted_anew() {
    let bound = RBound::new(8);
    let slice = |id| LinearSlice { formula_id: id, lsb: 0, width: 8 };
    let polynomial = LinearPolynomial {
        linear_terms: vec![
            (slice(variable(0)), ConcreteBitvector::new(3, bound)),
            (slice(variable(1)), ConcreteBitvector::new(5, bound)),
        ],
        constant_term: ConcreteBitvector::new(7, bound),
    };
    // the order of the formulas is swapped by the renumbering
    let map = remapping(&[(variable(0), variable(9)), (variable(1), variable(4))]);
    let mut remapped = polynomial.clone();
    remapped.remap(&map);
    assert_eq!(
        remapped,
        LinearPolynomial {
            linear_terms: vec![
                (slice(variable(4)), ConcreteBitvector::new(5, bound)),
                (slice(variable(9)), ConcreteBitvector::new(3, bound)),
            ],
            constant_term: ConcreteBitvector::new(7, bound),
        }
    );
    let linear = Operation::Linear(LinearOperation(LinearOperationType::Polynomial(polynomial)));
    let remapped_op = linear.try_remapped(&map).expect("all formulas are remappable");
    assert_eq!(remapped_op, Operation::Linear(LinearOperation(LinearOperationType::Polynomial(remapped))));
}
