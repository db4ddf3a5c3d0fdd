use roole::domain::bitvector::{ConcreteBitvector, RBound};
use roole::problem::formula::{FormulaId, VariableId};
use roole::problem::operation::linear::{LinearCombination, LinearPolynomial, LinearRelation, LinearSlice, LinearSystem};
use roole::problem::valuation::FormulaValues;

fn x() -> FormulaId {
    FormulaId::Variable(VariableId(0))
}

fn values_of(value: u64, width: u32) -> FormulaValues {
    FormulaValues { variables: vec![ConcreteBitvector::new(value, RBound::new(width))], operations: vec![] }
}

fn slice_polynomial(lsb: u32, width: u32, coefficient: u64, bound: RBound) -> LinearPolynomial {
    LinearPolynomial::new(
        vec![(LinearSlice::new(x(), lsb, width), ConcreteBitvector::new(coefficient, bound))],
        ConcreteBitvector::zero(bound),
    )
}

#[test]
fn conjunction_with_a_constant_keeps_one_bit() {
    let bound = RBound::new(8);
    let constant = LinearPolynomial::from_constant(ConcreteBitvector::new(4, bound));
    let slice = slice_polynomial(0, 4, 1, bound);
    let combined = constant.bitwise_combine(slice, true).unwrap();
    assert_eq!(combined.constant_term, ConcreteBitvector::zero(bound));
    assert_eq!(
        combined.linear_terms,
        vec![(LinearSlice::new(x(), 2, 1), ConcreteBitvector::new(4, bound))]
    );
    assert_eq!(combined.evaluate(&values_of(6, 8)), ConcreteBitvector::new(4, bound));
    assert_eq!(combined.evaluate(&values_of(3, 8)), ConcreteBitvector::zero(bound));
}

#[test]
fn bitwise_combination_of_constants_and_refusals() {
    let bound = RBound::new(8);
    let a = LinearPolynomial::from_constant(ConcreteBitvector::new(0b1100, bound));
    let b = LinearPolynomial::from_constant(ConcreteBitvector::new(0b1010, bound));
    let and = a.clone().bitwise_combine(b.clone(), true).unwrap();
    assert_eq!(and.constant_value(), Some(ConcreteBitvector::new(0b1000, bound)));
    let or = a.bitwise_combine(b, false).unwrap();
    assert_eq!(or.constant_value(), Some(ConcreteBitvector::new(0b1110, bound)));
    // two sides with terms are not combined
    let s = slice_polynomial(0, 8, 1, bound);
    assert_eq!(s.clone().bitwise_combine(s.clone(), true), Err(()));
    // a coefficient that is not a power of two is not combined
    let three = slice_polynomial(0, 4, 3, bound);
    let c = LinearPolynomial::from_constant(ConcreteBitvector::new(1, bound));
    assert_eq!(c.bitwise_combine(three, true), Err(()));
}

#[test]
fn single_bit_relation_becomes_a_polynomial() {
    let bit = RBound::new(1);
    let lhs = slice_polynomial(0, 1, 1, bit);
    let rhs = LinearPolynomial::from_constant(ConcreteBitvector::one(bit));
    let system = LinearSystem::from_eq(lhs, rhs);
    for value in 0..2 {
        let values = values_of(value, 1);
        let expected = system.evaluate(&values);
        assert_eq!(expected, ConcreteBitvector::new(value, bit));
        let polynomial = system.clone().try_into_polynomial().unwrap();
        assert_eq!(polynomial.evaluate(&values), expected);
    }
}

#[test]
fn wide_relation_of_one_bit_slice_becomes_a_polynomial() {
    let bound = RBound::new(8);
    // 2 * x[3] == 2 holds exactly where bit 3 of x is set
    let lhs = slice_polynomial(3, 1, 2, bound);
    let rhs = LinearPolynomial::from_constant(ConcreteBitvector::new(2, bound));
    let system = LinearSystem::from_eq(lhs, rhs);
    let polynomial = system.clone().try_into_polynomial().unwrap();
    assert_eq!(polynomial.bound(), RBound::new(1));
    for value in [0u64, 8, 7, 15] {
        let values = values_of(value, 4);
        let expected = ConcreteBitvector::new((value >> 3) & 1, RBound::new(1));
        assert_eq!(system.evaluate(&values), expected);
        assert_eq!(polynomial.evaluate(&values), expected);
    }
}

#[test]
fn systems_of_several_relations_stay_systems() {
    let bound = RBound::new(8);
    let lhs = slice_polynomial(0, 8, 1, bound);
    let relation = LinearRelation::from_eq(lhs.clone(), LinearPolynomial::from_constant(ConcreteBitvector::zero(bound)));
    let system = LinearSystem::Conjunction(vec![relation.clone(), relation]);
    assert_eq!(system.clone().try_into_polynomial(), Err(system));
    // a wide slice times a coefficient is not a single bit
    let wide = LinearSystem::from_eq(lhs, LinearPolynomial::from_constant(ConcreteBitvector::one(bound)));
    assert_eq!(wide.clone().try_into_polynomial(), Err(wide));
}

#[test]
fn relation_negation_and_its_limit() {
    let bound = RBound::new(8);
    let lhs = slice_polynomial(0, 8, 1, bound);
    // x <= 10 negated is !x <= 244, that is x > 10
    let relation = LinearRelation::new(lhs.clone(), ConcreteBitvector::new(10, bound));
    let negated = relation.clone().bit_not().unwrap();
    assert_eq!(*negated.slack(), ConcreteBitvector::new(244, bound));
    for value in [0u64, 10, 11, 255] {
        let values = values_of(value, 8);
        let holds = relation.evaluate(&values);
        let negated_holds = negated.evaluate(&values);
        assert_eq!(holds, ConcreteBitvector::from_bool(value <= 10));
        assert_eq!(negated_holds, ConcreteBitvector::from_bool(value > 10));
    }
    // x <= 255 always holds: its negation is the constant false
    let always = LinearRelation::new(lhs, ConcreteBitvector::new(255, bound));
    let constant = always.bit_not().unwrap_err();
    assert_eq!(constant.constant_value(), Some(ConcreteBitvector::zero(RBound::new(1))));
}

#[test]
fn combination_extensions_truncations_and_shifts() {
    let wide = RBound::new(16);
    let narrow = RBound::new(8);
    let slice = LinearSlice::new(x(), 0, 16);
    let combination = LinearCombination::new(
        ConcreteBitvector::new(300, wide),
        vec![(slice, ConcreteBitvector::new(258, wide))],
    );
    // truncation keeps the values modulo the narrower bound
    let truncated = combination.clone().unsigned_extend(narrow).unwrap();
    assert_eq!(truncated.constant, ConcreteBitvector::new(44, narrow));
    assert_eq!(truncated.monomials, vec![(slice, ConcreteBitvector::new(2, narrow))]);
    assert_eq!(combination.clone().signed_extend(narrow), Ok(truncated.clone()));
    assert_eq!(combination.clone().truncate(narrow), truncated);
    // widening is refused where the combination might overflow
    let wider = RBound::new(32);
    assert_eq!(combination.clone().unsigned_extend(wider), Err(combination.clone()));
    assert_eq!(combination.clone().signed_extend(wider), Err(combination.clone()));
    // a lone slice with coefficient one widens
    let lone = LinearCombination::from_formula(x(), wide);
    let widened = lone.unsigned_extend(wider).unwrap();
    assert_eq!(widened.constant, ConcreteBitvector::zero(wider));
    assert_eq!(widened.monomials, vec![(slice, ConcreteBitvector::one(wider))]);
    // shifting left by a constant scales; a non-constant amount fails
    let two = LinearCombination::from_constant(ConcreteBitvector::new(2, wide));
    let shifted = combination.clone().logic_shl(two.clone()).unwrap();
    assert_eq!(shifted.constant, ConcreteBitvector::new(1200, wide));
    assert_eq!(shifted.monomials, vec![(slice, ConcreteBitvector::new(1032, wide))]);
    assert_eq!(combination.clone().logic_shl(combination.clone()), Err(()));
    assert_eq!(combination.arith_shr(two), Err(()));
}
