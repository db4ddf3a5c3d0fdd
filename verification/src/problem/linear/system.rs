//! Systems of relations of linear combinations, held in a nonempty vector:
//! a conjunction (universal) or a disjunction of the relations.
use vec1::Vec1;
use vstd::prelude::*;

use crate::domain::bitvector::{lemma_modulus_bounds, ConcreteBitvector};
use crate::problem::formula::FormulaId;
use crate::problem::terms::copy_terms;

use super::{LinearCombination, LinearRelation};

verus! {

#[verifier::external_type_specification]
#[verifier::external_body]
#[verifier::reject_recursive_types(I)]
pub struct ExVec1<I>(Vec1<I>);

/// The relations that a nonempty vector of relations holds, in order.
pub uninterp spec fn vec1_relations(v: Vec1<LinearRelation>) -> Seq<LinearRelation>;

/// `Vec1::try_from_vec`: the nonempty vector of the relations, or nothing
/// where there are none.
#[verifier::external_body]
fn relations_try_from_vec(vec: Vec<LinearRelation>) -> (r: Option<Vec1<LinearRelation>>)
    ensures
        r is Some <==> vec@.len() > 0,
        r matches Some(v) ==> vec1_relations(v) == vec@,
{
    Vec1::try_from_vec(vec).ok()
}

/// `Vec1::as_vec`: the relations as a vector, which is never empty.
#[verifier::external_body]
fn relations_as_vec(v: &Vec1<LinearRelation>) -> (r: &Vec<LinearRelation>)
    ensures
        r@ == vec1_relations(*v),
        r@.len() > 0,
{
    v.as_vec()
}

/// `Extend::extend` of a nonempty vector by the relations of another.
#[verifier::external_body]
fn relations_extend(v: &mut Vec1<LinearRelation>, other: Vec1<LinearRelation>)
    ensures
        vec1_relations(*final(v)) == vec1_relations(*old(v)) + vec1_relations(other),
{
    v.extend(other)
}

/// A system of linear relations.
pub struct LinearSystem {
    /// If true, the system is a conjunction of relations. If false, it is a
    /// disjunction.
    pub universal: bool,
    /// Linear relations.
    pub relations: Vec1<LinearRelation>,
}

impl LinearCombination {
    /// A copy of the combination.
    pub fn duplicate(&self) -> (r: LinearCombination)
        ensures
            r.monomials@ == self.monomials@,
            r.constant == self.constant,
    {
        LinearCombination { constant: self.constant, monomials: copy_terms(&self.monomials) }
    }
}

impl LinearRelation {
    /// The relation holds whatever the values: its slack is the full mask.
    pub open spec fn is_tautology(self) -> bool {
        self.slack.val() + 1 == self.slack.modulus()
    }
}

/// A tautology holds for every value of the formulas.
proof fn lemma_tautology_holds(relation: LinearRelation, tv: spec_fn(FormulaId) -> int)
    requires
        relation.wf(),
        relation.is_tautology(),
    ensures
        relation.holds(tv),
{
    lemma_modulus_bounds(relation.slack.bound);
    vstd::arithmetic::div_mod::lemma_mod_bound(
        relation.combination.constant.val() + crate::problem::terms::terms_sum(relation.combination.monomials@, tv),
        relation.combination.modulus() as int,
    );
}

impl LinearSystem {
    /// The relations of the system, in order.
    pub open spec fn relations_seq(self) -> Seq<LinearRelation> {
        vec1_relations(self.relations)
    }

    pub open spec fn wf(self) -> bool {
        forall|i: int| 0 <= i < self.relations_seq().len() ==> (#[trigger] self.relations_seq()[i]).wf()
    }

    /// Whether the system holds when each formula has the value `tv(id)`.
    pub open spec fn holds(self, tv: spec_fn(FormulaId) -> int) -> bool {
        if self.universal {
            forall|i: int| 0 <= i < self.relations_seq().len() ==> #[trigger] self.relations_seq()[i].holds(tv)
        } else {
            exists|i: int| 0 <= i < self.relations_seq().len() && #[trigger] self.relations_seq()[i].holds(tv)
        }
    }

    /// Negation of the system: a conjunction becomes a disjunction of the
    /// negated relations and the other way round; a tautology negates to a
    /// contradiction, which makes a conjunction false and is left out of a
    /// disjunction. A constant result is given as the error, the constant
    /// value of the negation: false where a relation of a disjunction is a
    /// tautology, and false where every relation of a conjunction is one
    /// (the negation is then an empty disjunction).
    pub fn bit_not(self) -> (r: Result<LinearSystem, bool>)
        requires
            self.wf(),
        ensures
            r is Err <==> (!self.universal && exists|i: int|
                0 <= i < self.relations_seq().len() && (#[trigger] self.relations_seq()[i]).is_tautology()) || (
            self.universal && forall|i: int|
                0 <= i < self.relations_seq().len() ==> (#[trigger] self.relations_seq()[i]).is_tautology()),
            r matches Err(b) ==> !b && forall|tv: spec_fn(FormulaId) -> int| (!#[trigger] self.holds(tv)) == b,
            r matches Ok(n) ==> n.wf() && n.universal == !self.universal && forall|tv: spec_fn(FormulaId) -> int|
                #[trigger] n.holds(tv) <==> !self.holds(tv),
    {
        let new_universal = !self.universal;
        let ghost rels = self.relations_seq();
        let relations = relations_as_vec(&self.relations);
        let mut new_relations: Vec<LinearRelation> = Vec::new();
        let ghost mut origin: Seq<int> = Seq::empty();
        let mut i: usize = 0;
        while i < relations.len()
            invariant
                relations@ == rels,
                rels == self.relations_seq(),
                self.wf(),
                new_universal == !self.universal,
                0 <= i <= rels.len(),
                origin.len() == new_relations@.len(),
                forall|j: int| 0 <= j < origin.len() ==> 0 <= #[trigger] origin[j] < i && !rels[origin[j]].is_tautology(),
                forall|j: int| 0 <= j < new_relations@.len() ==> (#[trigger] new_relations@[j]).wf(),
                forall|j: int, tv: spec_fn(FormulaId) -> int|
                    0 <= j < new_relations@.len() ==> (#[trigger] new_relations@[j].holds(tv) <==> !rels[origin[j]].holds(tv)),
                forall|k: int| 0 <= k < i && !(#[trigger] rels[k]).is_tautology() ==> exists|j: int| 0 <= j < origin.len() && origin[j] == k,
                new_universal ==> forall|k: int| 0 <= k < i ==> !(#[trigger] rels[k]).is_tautology(),
            decreases rels.len() - i,
        {
            let relation = &relations[i];
            proof {
                assert(rels[i as int].wf());
            }
            let bit_not_slack = relation.slack.bit_not();
            if bit_not_slack.is_zero() {
                proof {
                    assert(rels[i as int].is_tautology());
                }
                if new_universal {
                    proof {
                        assert forall|tv: spec_fn(FormulaId) -> int| #[trigger] self.holds(tv) by {
                            lemma_tautology_holds(rels[i as int], tv);
                        }
                    }
                    return Err(false);
                }
                i = i + 1;
                continue;
            }
            let combination = relation.combination.duplicate().bit_not();
            let one = ConcreteBitvector::one(relation.slack.bound());
            let slack = bit_not_slack.sub(one);
            let negated = LinearRelation { combination, slack };
            proof {
                let m = relation.slack.modulus();
                lemma_modulus_bounds(relation.slack.bound);
                assert(relation.slack.val() + 1 < m);
                vstd::arithmetic::div_mod::lemma_small_mod(1, m);
                vstd::arithmetic::div_mod::lemma_small_mod((m - 2 - relation.slack.val()) as nat, m);
                assert(slack.val() == m - 2 - relation.slack.val());
                assert forall|tv: spec_fn(FormulaId) -> int| #[trigger] negated.holds(tv) <==> !rels[i as int].holds(tv) by {
                    let dup = LinearCombination { constant: relation.combination.constant, monomials: relation.combination.monomials };
                    assert(combination.eval(tv) == m - 1 - relation.combination.eval(tv));
                }
            }
            let ghost before = new_relations@;
            new_relations.push(negated);
            let ghost old_origin = origin;
            proof {
                origin = origin.push(i as int);
                assert forall|j: int, tv: spec_fn(FormulaId) -> int|
                    0 <= j < new_relations@.len() implies (#[trigger] new_relations@[j].holds(tv) <==> !rels[origin[j]].holds(tv)) by {
                    if j < before.len() {
                        assert(new_relations@[j] == before[j]);
                    }
                }
                assert forall|k: int| 0 <= k < i + 1 && !(#[trigger] rels[k]).is_tautology() implies exists|j: int|
                    0 <= j < origin.len() && origin[j] == k by {
                    if k == i {
                        assert(origin[origin.len() - 1] == k);
                    } else {
                        let j = choose|j: int| 0 <= j < old_origin.len() && old_origin[j] == k;
                        assert(origin[j] == k);
                    }
                }
            }
            i = i + 1;
        }
        let ghost negations = new_relations@;
        let ghost final_origin = origin;
        match relations_try_from_vec(new_relations) {
            None => {
                proof {
                    assert forall|k: int| 0 <= k < rels.len() implies (#[trigger] rels[k]).is_tautology() by {
                        if !rels[k].is_tautology() {
                            let j = choose|j: int| 0 <= j < final_origin.len() && final_origin[j] == k;
                        }
                    }
                    if new_universal {
                        assert(!rels[0].is_tautology());
                    }
                    assert forall|tv: spec_fn(FormulaId) -> int| #[trigger] self.holds(tv) by {
                        assert forall|k: int| 0 <= k < rels.len() implies #[trigger] rels[k].holds(tv) by {
                            lemma_tautology_holds(rels[k], tv);
                        }
                    }
                }
                Err(false)
            },
            Some(vec1) => {
                let n = LinearSystem { universal: new_universal, relations: vec1 };
                proof {
                    assert(n.relations_seq() == negations);
                    assert forall|tv: spec_fn(FormulaId) -> int| #[trigger] n.holds(tv) <==> !self.holds(tv) by {
                        if self.universal {
                            if n.holds(tv) {
                                let j = choose|j: int| 0 <= j < negations.len() && #[trigger] negations[j].holds(tv);
                                assert(!rels[final_origin[j]].holds(tv));
                            }
                            if !self.holds(tv) {
                                let k = choose|k: int| 0 <= k < rels.len() && !(#[trigger] rels[k].holds(tv));
                                if rels[k].is_tautology() {
                                    lemma_tautology_holds(rels[k], tv);
                                }
                                let j = choose|j: int| 0 <= j < final_origin.len() && final_origin[j] == k;
                                assert(negations[j].holds(tv));
                            }
                        } else {
                            if n.holds(tv) && self.holds(tv) {
                                let k = choose|k: int| 0 <= k < rels.len() && #[trigger] rels[k].holds(tv);
                                let j = choose|j: int| 0 <= j < final_origin.len() && final_origin[j] == k;
                                assert(negations[j].holds(tv));
                            }
                            if !n.holds(tv) {
                                let j = choose|j: int| 0 <= j < negations.len() && !(#[trigger] negations[j].holds(tv));
                                assert(rels[final_origin[j]].holds(tv));
                            }
                        }
                    }
                    if self.universal {
                        let k = final_origin[0];
                        assert(!rels[k].is_tautology());
                    }
                }
                Ok(n)
            },
        }
    }

    /// Conjunction of two systems.
    pub fn and(self, rhs: LinearSystem) -> (r: Option<LinearSystem>)
        requires
            self.wf(),
            rhs.wf(),
        ensures
            r is Some <==> self.combinable(rhs, true),
            r matches Some(s) ==> s.wf() && s.universal == self.universal && s.relations_seq() == self.relations_seq()
                + rhs.relations_seq(),
            r matches Some(s) ==> self.universal ==> forall|tv: spec_fn(FormulaId) -> int|
                #[trigger] s.holds(tv) <==> self.holds(tv) && rhs.holds(tv),
    {
        self.combine(rhs, true)
    }

    /// Disjunction of two systems.
    pub fn or(self, rhs: LinearSystem) -> (r: Option<LinearSystem>)
        requires
            self.wf(),
            rhs.wf(),
        ensures
            r is Some <==> self.combinable(rhs, false),
            r matches Some(s) ==> s.wf() && s.universal == self.universal && s.relations_seq() == self.relations_seq()
                + rhs.relations_seq(),
            r matches Some(s) ==> !self.universal ==> forall|tv: spec_fn(FormulaId) -> int|
                #[trigger] s.holds(tv) <==> self.holds(tv) || rhs.holds(tv),
    {
        self.combine(rhs, false)
    }

    /// Each system is a single relation or of the wanted kind.
    pub open spec fn combinable(self, rhs: LinearSystem, universal: bool) -> bool {
        &&& (self.relations_seq().len() == 1 || self.universal == universal)
        &&& (rhs.relations_seq().len() == 1 || rhs.universal == universal)
    }

    /// Appends the relations of the other system; the kind of this system
    /// is kept.
    fn combine(self, rhs: LinearSystem, universal: bool) -> (r: Option<LinearSystem>)
        requires
            self.wf(),
            rhs.wf(),
        ensures
            r is Some <==> self.combinable(rhs, universal),
            r matches Some(s) ==> s.wf() && s.universal == self.universal && s.relations_seq() == self.relations_seq()
                + rhs.relations_seq(),
            r matches Some(s) ==> self.universal == universal ==> forall|tv: spec_fn(FormulaId) -> int|
                #[trigger] s.holds(tv) <==> if universal {
                    self.holds(tv) && rhs.holds(tv)
                } else {
                    self.holds(tv) || rhs.holds(tv)
                },
    {
        let lhs_compatible = relations_as_vec(&self.relations).len() == 1 || self.universal == universal;
        let rhs_compatible = relations_as_vec(&rhs.relations).len() == 1 || rhs.universal == universal;
        if !lhs_compatible || !rhs_compatible {
            return None;
        }
        let ghost left = self.relations_seq();
        let ghost right = rhs.relations_seq();
        let ghost orig_self = self;
        let ghost orig_rhs = rhs;
        let mut result = self;
        relations_extend(&mut result.relations, rhs.relations);
        proof {
            let all = result.relations_seq();
            assert(all == left + right);
            assert forall|i: int| 0 <= i < all.len() implies (#[trigger] all[i]).wf() by {
                if i < left.len() {
                    assert(all[i] == left[i]);
                } else {
                    assert(all[i] == right[i - left.len()]);
                }
            }
            if orig_self.universal == universal {
                assert forall|tv: spec_fn(FormulaId) -> int| #[trigger] result.holds(tv) <==> if universal {
                    orig_self.holds(tv) && orig_rhs.holds(tv)
                } else {
                    orig_self.holds(tv) || orig_rhs.holds(tv)
                } by {
                    if universal {
                        if result.holds(tv) {
                            assert forall|i: int| 0 <= i < left.len() implies #[trigger] left[i].holds(tv) by {
                                assert(all[i] == left[i]);
                            }
                            assert forall|i: int| 0 <= i < right.len() implies #[trigger] right[i].holds(tv) by {
                                assert(all[left.len() + i] == right[i]);
                            }
                            if right.len() == 1 {
                                assert(right[0].holds(tv));
                            }
                        }
                        if orig_self.holds(tv) && orig_rhs.holds(tv) {
                            assert forall|i: int| 0 <= i < all.len() implies #[trigger] all[i].holds(tv) by {
                                if i < left.len() {
                                    assert(all[i] == left[i]);
                                } else {
                                    assert(all[i] == right[i - left.len()]);
                                    if !orig_rhs.universal {
                                        assert(right.len() == 1);
                                        let j = choose|j: int| 0 <= j < right.len() && #[trigger] right[j].holds(tv);
                                    }
                                }
                            }
                        }
                    } else {
                        if result.holds(tv) {
                            let i = choose|i: int| 0 <= i < all.len() && #[trigger] all[i].holds(tv);
                            if i < left.len() {
                                assert(all[i] == left[i]);
                            } else {
                                assert(all[i] == right[i - left.len()]);
                                if orig_rhs.universal {
                                    assert(right.len() == 1);
                                }
                            }
                        }
                        if orig_self.holds(tv) {
                            let i = choose|i: int| 0 <= i < left.len() && #[trigger] left[i].holds(tv);
                            assert(all[i] == left[i]);
                        }
                        if orig_rhs.holds(tv) {
                            if orig_rhs.universal {
                                assert(right.len() == 1);
                                assert(right[0].holds(tv));
                                assert(all[left.len() as int] == right[0]);
                            } else {
                                let i = choose|i: int| 0 <= i < right.len() && #[trigger] right[i].holds(tv);
                                assert(all[left.len() + i] == right[i]);
                            }
                        }
                    }
                }
            }
        }
        Some(result)
    }
}

} // verus!
