//! Systems of linear relations: a single relation, a conjunction or a
//! disjunction of relations.
use vstd::arithmetic::div_mod::*;
use vstd::prelude::*;

use crate::domain::bitvector::{lemma_modulus_bounds, ConcreteBitvector, RBound};
use crate::problem::formula::FormulaId;
use crate::problem::valuation::FormulaValues;
use crate::problem::terms::terms_sum;

use super::monomial::LinearMonomial;
use super::polynomial::LinearPolynomial;
use super::relation::LinearRelation;
use super::slice::LinearSlice;

pub mod ops;

verus! {

/// A system of linear relations.
#[derive(Clone, Debug, PartialEq, Eq, Hash)]
pub enum LinearSystem {
    Single(LinearRelation),
    Conjunction(Vec<LinearRelation>),
    Disjunction(Vec<LinearRelation>),
}

impl LinearSystem {
    /// The relations of the system, in order.
    pub open spec fn relations(self) -> Seq<LinearRelation> {
        match self {
            LinearSystem::Single(relation) => seq![relation],
            LinearSystem::Conjunction(relations) => relations@,
            LinearSystem::Disjunction(relations) => relations@,
        }
    }

    pub open spec fn wf(self) -> bool {
        forall|i: int| 0 <= i < self.relations().len() ==> (#[trigger] self.relations()[i]).wf()
    }

    /// Whether the system holds when each slice has the value `tv(slice)`.
    pub open spec fn holds(self, tv: spec_fn(LinearSlice) -> int) -> bool {
        match self {
            LinearSystem::Single(relation) => relation.holds(tv),
            LinearSystem::Conjunction(relations) => forall|i: int|
                0 <= i < relations@.len() ==> #[trigger] relations@[i].holds(tv),
            LinearSystem::Disjunction(relations) => exists|i: int|
                0 <= i < relations@.len() && #[trigger] relations@[i].holds(tv),
        }
    }

    /// Every relation can be evaluated on the values.
    pub open spec fn evaluable(self, values: FormulaValues) -> bool {
        forall|i: int| 0 <= i < self.relations().len() ==> (#[trigger] self.relations()[i]).polynomial.evaluable(values)
    }

    /// Whether the system holds on concrete formula values, as a single bit.
    pub fn evaluate(&self, values: &FormulaValues) -> (r: ConcreteBitvector)
        requires
            self.wf(),
            values.wf(),
            self.evaluable(*values),
        ensures
            r.wf(),
            r.bound.width == 1,
            r.value == (if self.holds(values.slice_values()) { 1u64 } else { 0u64 }),
    {
        match self {
            LinearSystem::Single(relation) => {
                proof {
                    assert(self.relations()[0] == relation);
                }
                relation.evaluate(values)
            },
            LinearSystem::Conjunction(relations) | LinearSystem::Disjunction(relations) => {
                proof {
                    assert forall|i: int| 0 <= i < relations@.len() implies (#[trigger] relations@[i]).wf()
                        && relations@[i].polynomial.evaluable(*values) by {
                        assert(self.relations()[i] == relations@[i]);
                    }
                }
                let universal = match self {
                    LinearSystem::Conjunction(_) => true,
                    _ => false,
                };
                Self::evaluate_relations(values, relations.as_slice(), universal)
            },
        }
    }

    /// Whether all (`universal`) or some of the relations hold on concrete
    /// formula values, as a single bit.
    pub fn evaluate_relations(values: &FormulaValues, relations: &[LinearRelation], universal: bool) -> (r: ConcreteBitvector)
        requires
            values.wf(),
            forall|i: int| 0 <= i < relations@.len() ==> (#[trigger] relations@[i]).wf() && relations@[i].polynomial.evaluable(*values),
        ensures
            r.wf(),
            r.bound.width == 1,
            r.value == (if universal {
                if forall|i: int| 0 <= i < relations@.len() ==> #[trigger] relations@[i].holds(values.slice_values()) { 1u64 } else { 0u64 }
            } else {
                if exists|i: int| 0 <= i < relations@.len() && #[trigger] relations@[i].holds(values.slice_values()) { 1u64 } else { 0u64 }
            }),
    {
        let bound = RBound::new(1);
        let ghost tv = values.slice_values();
        let mut result = if universal {
            ConcreteBitvector::one(bound)
        } else {
            ConcreteBitvector::zero(bound)
        };
        proof {
            vstd::arithmetic::power2::lemma2_to64();
        }
        let mut i: usize = 0;
        while i < relations.len()
            invariant
                0 <= i <= relations@.len(),
                values.wf(),
                tv == values.slice_values(),
                forall|j: int| 0 <= j < relations@.len() ==> (#[trigger] relations@[j]).wf() && relations@[j].polynomial.evaluable(*values),
                result.wf(),
                result.bound == bound,
                bound.width == 1,
                result.value == (if universal {
                    if forall|j: int| 0 <= j < i ==> #[trigger] relations@[j].holds(tv) { 1u64 } else { 0u64 }
                } else {
                    if exists|j: int| 0 <= j < i && #[trigger] relations@[j].holds(tv) { 1u64 } else { 0u64 }
                }),
            decreases relations@.len() - i,
        {
            let relation_result = relations[i].evaluate(values);
            let relation_result = ConcreteBitvector::new(relation_result.to_u64(), bound);
            proof {
                let k = i as int;
                if universal {
                    if forall|j: int| 0 <= j < k + 1 ==> #[trigger] relations@[j].holds(tv) {
                        assert(relations@[k].holds(tv));
                    }
                } else {
                    if exists|j: int| 0 <= j < k + 1 && #[trigger] relations@[j].holds(tv) {
                        let j = choose|j: int| 0 <= j < k + 1 && #[trigger] relations@[j].holds(tv);
                        if j < k {
                            assert(exists|j: int| 0 <= j < k && #[trigger] relations@[j].holds(tv));
                        }
                    }
                }
            }
            if universal {
                result = result.bit_and(relation_result);
            } else {
                result = result.bit_or(relation_result);
            }
            proof {
                assert(1u64 & 1u64 == 1u64 && 1u64 & 0u64 == 0u64 && 0u64 & 1u64 == 0u64 && 0u64 & 0u64 == 0u64) by (bit_vector);
                assert(1u64 | 1u64 == 1u64 && 1u64 | 0u64 == 1u64 && 0u64 | 1u64 == 1u64 && 0u64 | 0u64 == 0u64) by (bit_vector);
            }
            i = i + 1;
        }
        result
    }

    /// The equality `lhs == rhs` as a single relation `lhs - rhs <= 0`.
    pub fn from_eq(lhs: LinearPolynomial, rhs: LinearPolynomial) -> (r: LinearSystem)
        requires
            lhs.wf(),
            rhs.wf(),
            lhs.constant_term.bound == rhs.constant_term.bound,
        ensures
            r.wf(),
            r is Single,
            forall|tv: spec_fn(LinearSlice) -> int| #[trigger] r.holds(tv) <==> lhs.eval(tv) == rhs.eval(tv),
    {
        LinearSystem::Single(LinearRelation::from_eq(lhs, rhs))
    }

    /// Normalization of systems: nothing is changed yet.
    pub fn normalize(&mut self)
        ensures
            *final(self) == *old(self),
    {
    }

    /// The formula ids used by the relations, relation after relation.
    pub fn used_ids(&self) -> (r: Vec<FormulaId>)
        ensures
            r@ == self.relations().map_values(|relation: LinearRelation| relation.polynomial.spec_used_ids()).flatten(),
    {
        let mut r: Vec<FormulaId> = Vec::new();
        let ghost relations = self.relations();
        match self {
            LinearSystem::Single(relation) => {
                let mut ids = relation.used_ids();
                r.append(&mut ids);
                proof {
                    let s = relations.map_values(|relation: LinearRelation| relation.polynomial.spec_used_ids());
                    let e = Seq::<Seq<FormulaId>>::empty();
                    assert(s =~= e.push(relation.polynomial.spec_used_ids()));
                    e.lemma_flatten_push(relation.polynomial.spec_used_ids());
                    assert(e.flatten() =~= Seq::<FormulaId>::empty());
                    assert(r@ =~= s.flatten());
                }
            },
            LinearSystem::Conjunction(list) | LinearSystem::Disjunction(list) => {
                let mut i: usize = 0;
                while i < list.len()
                    invariant
                        0 <= i <= list.len(),
                        relations == list@,
                        r@ == list@.take(i as int).map_values(
                            |relation: LinearRelation| relation.polynomial.spec_used_ids(),
                        ).flatten(),
                    decreases list.len() - i,
                {
                    let mut ids = list[i].used_ids();
                    let ghost before = r@;
                    r.append(&mut ids);
                    proof {
                        let f = |relation: LinearRelation| relation.polynomial.spec_used_ids();
                        let s = list@.take(i as int).map_values(f);
                        assert(list@.take(i + 1).map_values(f) =~= s.push(f(list@[i as int])));
                        s.lemma_flatten_push(f(list@[i as int]));
                    }
                    i = i + 1;
                }
                proof {
                    assert(list@.take(list@.len() as int) =~= list@);
                }
            },
        }
        r
    }

    /// A single relation as a one-bit polynomial that is one exactly where
    /// it holds: for width one, and for wider bounds where the polynomial is
    /// a constant or a one-bit slice times a coefficient plus a constant.
    /// A relation of width zero becomes the empty polynomial of that bound.
    /// Other systems are given back unchanged.
    pub fn try_into_polynomial(self) -> (r: Result<LinearPolynomial, LinearSystem>)
        requires
            self.wf(),
        ensures
            r is Ok <==> self.spec_converts_to_polynomial(),
            r matches Err(s) ==> s == self,
            r matches Ok(p) ==> {
                let relation = self.relations()[0];
                let width = relation.polynomial.constant_term.bound.width;
                &&& p.wf()
                &&& width == 0 ==> p.linear_terms@.len() == 0 && p.constant_term.value == 0
                    && p.constant_term.bound == relation.polynomial.constant_term.bound
                &&& width != 0 ==> p.constant_term.bound.width == 1
                &&& width != 0 ==> forall|tv: spec_fn(LinearSlice) -> int|
                    (width == 1 || relation.polynomial.values_fit(tv)) ==> #[trigger] p.eval(tv) == if relation.holds(
                        tv,
                    ) {
                        1int
                    } else {
                        0int
                    }
            },
    {
        let ghost orig = self;
        let relation = match self {
            LinearSystem::Single(relation) => relation,
            _ => return Err(self),
        };
        let bound = relation.polynomial().bound();
        proof {
            assert(orig.relations()[0].wf());
            lemma_modulus_bounds(bound);
            vstd::arithmetic::power2::lemma2_to64();
        }
        if bound.width() == 0 {
            return Ok(LinearPolynomial::empty(bound));
        }
        if bound.width() == 1 {
            if relation.slack().is_nonzero() {
                // the relation always holds
                let p = LinearPolynomial::single_bit(true);
                proof {
                    assert(relation.slack.val() == 1);
                    assert forall|tv: spec_fn(LinearSlice) -> int| #[trigger] p.eval(tv) == if relation.holds(tv) { 1int } else { 0int } by {
                        assert(terms_sum(p.linear_terms@, tv) == 0);
                        let x = relation.polynomial.constant_term.val() + terms_sum(relation.polynomial.linear_terms@, tv);
                        lemma_mod_bound(x, 2);
                    }
                }
                return Ok(p);
            }
            // the relation is left == 0, that is, !left == 1
            return Ok(relation.into_polynomial().bit_not());
        }
        let slack = *relation.slack();
        let Some((monomial, constant)) = relation.polynomial().monomial_and_constant_value() else {
            return Err(LinearSystem::Single(relation));
        };
        if let Some(monomial) = monomial {
            let slice = monomial.slice;
            let coefficient = monomial.coefficient;
            // only a single-bit slice can be simplified
            if slice.width != 1 {
                return Err(LinearSystem::Single(relation));
            }
            proof {
                assert(relation.polynomial.linear_terms@[0].1.wf());
            }
            let result_if_zero = constant.ule(slack);
            let result_if_one = coefficient.add(constant).ule(slack);
            if result_if_zero == result_if_one {
                // the relation does not depend on the slice
                let p = LinearPolynomial::from_constant(result_if_one);
                proof {
                    assert forall|tv: spec_fn(LinearSlice) -> int| relation.polynomial.values_fit(tv) implies #[trigger] p.eval(tv)
                        == if relation.holds(tv) { 1int } else { 0int } by {
                        lemma_one_bit_slice_relation(relation, tv);
                        assert(terms_sum(p.linear_terms@, tv) == 0);
                        lemma_small_mod(result_if_one.val(), 2);
                    }
                }
                return Ok(p);
            }
            // the slice, or the slice plus one, modulo two
            let single_bit_bound = RBound::single_bit_bound();
            let one = ConcreteBitvector::one(single_bit_bound);
            proof {
                assert(relation.polynomial.linear_terms@[0].0.wf());
                lemma_modulus_bounds(single_bit_bound);
            }
            let p = LinearPolynomial::from_monomial_and_constant(LinearMonomial::new(one, slice), result_if_zero);
            proof {
                assert forall|tv: spec_fn(LinearSlice) -> int| relation.polynomial.values_fit(tv) implies #[trigger] p.eval(tv)
                    == if relation.holds(tv) { 1int } else { 0int } by {
                    lemma_one_bit_slice_relation(relation, tv);
                    let v = tv(slice);
                    assert(one.value == 1);
                    assert(p.linear_terms@ == seq![(slice, one)]);
                    assert(p.linear_terms@.last() == (slice, one));
                    assert(p.linear_terms@.drop_last().len() == 0);
                    assert(terms_sum(p.linear_terms@.drop_last(), tv) == 0);
                    assert(terms_sum(p.linear_terms@, tv) == v);
                    lemma_small_mod(result_if_zero.val(), 2);
                    lemma_small_mod((result_if_zero.val() + 1) as nat % 2, 2);
                }
            }
            Ok(p)
        } else {
            // the result is whether the constant is at most the slack
            let p = LinearPolynomial::from_constant(constant.ule(slack));
            proof {
                assert forall|tv: spec_fn(LinearSlice) -> int| #[trigger] p.eval(tv) == if relation.holds(tv) { 1int } else { 0int } by {
                    assert(terms_sum(p.linear_terms@, tv) == 0);
                    assert(terms_sum(relation.polynomial.linear_terms@, tv) == 0);
                    lemma_small_mod(constant.val(), constant.modulus());
                    lemma_small_mod(p.constant_term.val(), 2);
                }
            }
            Ok(p)
        }
    }

    /// Whether `try_into_polynomial` converts the system.
    pub open spec fn spec_converts_to_polynomial(self) -> bool {
        match self {
            LinearSystem::Single(relation) => {
                let width = relation.polynomial.constant_term.bound.width;
                let terms = relation.polynomial.linear_terms@;
                width <= 1 || terms.len() == 0 || (terms.len() == 1 && terms[0].0.width == 1)
            },
            _ => false,
        }
    }
}

/// A relation whose polynomial is a coefficient times a one-bit slice plus
/// a constant holds by the constant alone where the slice is zero, and by
/// their sum where it is one.
proof fn lemma_one_bit_slice_relation(relation: LinearRelation, tv: spec_fn(LinearSlice) -> int)
    requires
        relation.wf(),
        relation.polynomial.linear_terms@.len() == 1,
        relation.polynomial.linear_terms@[0].0.width == 1,
        relation.polynomial.values_fit(tv),
    ensures
        ({
            let (slice, coefficient) = relation.polynomial.linear_terms@[0];
            let c = relation.polynomial.constant_term.val();
            let m = relation.polynomial.modulus();
            &&& tv(slice) == 0 || tv(slice) == 1
            &&& tv(slice) == 0 ==> (relation.holds(tv) <==> c <= relation.slack.val())
            &&& tv(slice) == 1 ==> (relation.holds(tv) <==> (coefficient.val() + c) % m <= relation.slack.val())
        }),
{
    let p = relation.polynomial;
    let (slice, coefficient) = p.linear_terms@[0];
    vstd::arithmetic::power2::lemma2_to64();
    assert(0 <= tv(p.linear_terms@[0].0) < vstd::arithmetic::power2::pow2(1));
    lemma_modulus_bounds(p.constant_term.bound);
    assert(p.linear_terms@.drop_last().len() == 0);
    assert(terms_sum(p.linear_terms@.drop_last(), tv) == 0);
    assert(terms_sum(p.linear_terms@, tv) == coefficient.val() * tv(slice));
    assert(p.linear_terms@[0].1.wf());
    lemma_small_mod(p.constant_term.val(), p.modulus());
}

} // verus!
