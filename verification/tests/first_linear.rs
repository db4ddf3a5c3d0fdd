use bimap::BiBTreeMap;
use roole::domain::bitvector::{ConcreteBitvector, RBound};
use roole::problem::formula::{FormulaId, VariableId};
use roole::problem::linear::system::LinearSystem;
use roole::problem::linear::{LinearCombination, LinearRelation};
use roole::problem::remap::key_of;
use vec1::Vec1;

fn variable(i: usize) -> FormulaId {
    FormulaId::Variable(VariableId(i))
}

fn combination(constant: u64, monomials: &[(usize, u64)]) -> LinearCombination {
    let bound = RBound::new(8);
    LinearCombination {
        constant: ConcreteBitvector::new(constant, bound),
        monomials: monomials.iter().map(|(i, c)| (variable(*i), ConcreteBitvector::new(*c, bound))).collect(),
    }
}

fn text(c: &LinearCombination) -> String {
    let mut out = String::new();
    c.write_text(&mut out);
    out
}

#[test]
fn combinations_add_subtract_and_negate() {
    let a = combination(38, &[(0, 12), (1, 1)]);
    let b = combination(17, &[(0, 7), (1, 1)]);
    assert_eq!(a.clone().add(b.clone()), combination(55, &[(0, 19), (1, 2)]));
    // the monomial of the second formula cancels out
    assert_eq!(a.clone().sub(b), combination(21, &[(0, 5)]));
    assert_eq!(a.clone().arith_neg(), combination(218, &[(0, 244), (1, 255)]));
    assert_eq!(a.bit_not(), combination(217, &[(0, 244), (1, 255)]));
}

#[test]
fn combination_scale_single_bit_and_text() {
    let mut a = combination(3, &[(0, 2)]);
    a.scale(ConcreteBitvector::new(128, RBound::new(8)));
    assert_eq!(a, combination(128, &[(0, 0)]));
    a.normalize();
    assert_eq!(a, combination(128, &[]));
    assert_eq!(text(&combination(7, &[(0, 1), (2, 5)])), "(#0 + 5*#2 + 7) mod 256");
    assert_eq!(text(&LinearCombination::single_bit(true)), "(1) mod 2");
    assert_eq!(combination(7, &[(0, 1), (2, 5)]).used_ids(), vec![variable(0), variable(2)]);
}

#[test]
fn combination_remap_sorts_anew() {
    let mut a = combination(7, &[(0, 1), (2, 5)]);
    let mut map = BiBTreeMap::new();
    map.insert(key_of(variable(0)), key_of(variable(9)));
    map.insert(key_of(variable(2)), key_of(variable(1)));
    a.remap(&map);
    assert_eq!(a, combination(7, &[(1, 5), (9, 1)]));
}

fn relation(constant: u64, slack: u64) -> LinearRelation {
    LinearRelation { combination: combination(constant, &[(0, 1)]), slack: ConcreteBitvector::new(slack, RBound::new(8)) }
}

#[test]
fn system_negation() {
    // x + 1 <= 5 is negated to -x - 2 <= 249
    let system = LinearSystem { universal: true, relations: Vec1::new(relation(1, 5)) };
    let negated = system.bit_not().ok().expect("no tautology");
    assert!(!negated.universal);
    let relations = negated.relations.into_vec();
    assert_eq!(relations, vec![LinearRelation { combination: combination(254, &[(0, 255)]), slack: ConcreteBitvector::new(249, RBound::new(8)) }]);

    // a disjunction with a tautology negates to false
    let disjunction = LinearSystem { universal: false, relations: Vec1::try_from_vec(vec![relation(1, 5), relation(0, 255)]).unwrap() };
    assert_eq!(disjunction.bit_not().err(), Some(false));

    // a conjunction of tautologies negates to false
    let tautologies = LinearSystem { universal: true, relations: Vec1::new(relation(0, 255)) };
    assert_eq!(tautologies.bit_not().err(), Some(false));
}

#[test]
fn systems_combine_when_compatible() {
    let single = LinearSystem { universal: true, relations: Vec1::new(relation(1, 5)) };
    let conjunction = LinearSystem { universal: true, relations: Vec1::try_from_vec(vec![relation(2, 5), relation(3, 5)]).unwrap() };
    let joined = single.and(conjunction).expect("compatible");
    assert_eq!(joined.relations.len(), 3);
    let disjunction = LinearSystem { universal: false, relations: Vec1::try_from_vec(vec![relation(2, 5), relation(3, 5)]).unwrap() };
    let single = LinearSystem { universal: true, relations: Vec1::new(relation(1, 5)) };
    assert!(single.and(disjunction).is_none());
}
