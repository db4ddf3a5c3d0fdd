use roole::domain::bitvector::{ConcreteBitvector, RBound};
use roole::problem::formula::{FormulaId, VariableId};
use roole::problem::operation::linear::{LinearCombination, LinearPolynomial, LinearSlice};

fn slice32() -> LinearSlice {
    LinearSlice {
        formula_id: FormulaId::Variable(VariableId(0)),
        lsb: 0,
        width: 32,
    }
}

#[test]
fn combination_test_addsub() {
    let bound = RBound::new(32);
    let slice = slice32();
    let a = LinearCombination {
        constant: ConcreteBitvector::new(38, bound),
        monomials: vec![(slice, ConcreteBitvector::new(12, bound))],
    };
    let b = LinearCombination {
        constant: ConcreteBitvector::new(17, bound),
        monomials: vec![(slice, ConcreteBitvector::new(7, bound))],
    };
    let add_result = LinearCombination {
        constant: ConcreteBitvector::new(55, bound),
        monomials: vec![(slice, ConcreteBitvector::new(19, bound))],
    };
    let sub_result = LinearCombination {
        constant: ConcreteBitvector::new(21, bound),
        monomials: vec![(slice, ConcreteBitvector::new(5, bound))],
    };
    assert_eq!(a.clone().add(b.clone()), add_result);
    assert_eq!(a.sub(b), sub_result);
}

#[test]
fn polynomial_test_addsub() {
    let bound = RBound::new(32);
    let slice = slice32();
    let a = LinearPolynomial {
        constant_term: ConcreteBitvector::new(38, bound),
        linear_terms: vec![(slice, ConcreteBitvector::new(12, bound))],
    };
    let b = LinearPolynomial {
        constant_term: ConcreteBitvector::new(17, bound),
        linear_terms: vec![(slice, ConcreteBitvector::new(7, bound))],
    };
    let add_result = LinearPolynomial {
        constant_term: ConcreteBitvector::new(55, bound),
        linear_terms: vec![(slice, ConcreteBitvector::new(19, bound))],
    };
    let sub_result = LinearPolynomial {
        constant_term: ConcreteBitvector::new(21, bound),
        linear_terms: vec![(slice, ConcreteBitvector::new(5, bound))],
    };
    assert_eq!(a.clone().add(b.clone()), add_result);
    assert_eq!(a.sub(b), sub_result);
}
