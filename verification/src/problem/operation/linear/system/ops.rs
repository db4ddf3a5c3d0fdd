//! Negation and combination of linear systems.
use vstd::prelude::*;

use crate::problem::operation::linear::relation::LinearRelation;
use crate::problem::operation::linear::slice::LinearSlice;

use super::LinearSystem;

verus! {

impl LinearRelation {
    /// The slack is the highest value of the bound: the relation always holds.
    pub open spec fn always_holds(self) -> bool {
        self.slack.val() + 1 == self.slack.modulus()
    }
}

impl LinearSystem {
    /// Whether the negation of the system is the constant false (or, for an
    /// empty disjunction, given as false).
    pub open spec fn negation_is_constant(self) -> bool {
        match self {
            LinearSystem::Single(relation) => relation.always_holds(),
            LinearSystem::Conjunction(relations) => forall|i: int|
                0 <= i < relations@.len() ==> (#[trigger] relations@[i]).always_holds(),
            LinearSystem::Disjunction(relations) => relations@.len() == 0 || exists|i: int|
                0 <= i < relations@.len() && (#[trigger] relations@[i]).always_holds(),
        }
    }

    /// The relations, moved out of the system.
    fn into_relations(self) -> (r: Vec<LinearRelation>)
        ensures
            r@ == self.relations(),
    {
        match self {
            LinearSystem::Single(relation) => {
                let mut r: Vec<LinearRelation> = Vec::new();
                r.push(relation);
                proof {
                    assert(r@ =~= seq![relation]);
                }
                r
            },
            LinearSystem::Conjunction(relations) => relations,
            LinearSystem::Disjunction(relations) => relations,
        }
    }

    /// The negation of the system, by De Morgan: each relation is negated
    /// and a conjunction becomes a disjunction and back. Relations that
    /// always hold drop out of a conjunction; in a single relation or a
    /// disjunction they make the negation the constant false, which is
    /// given as `Err(false)`, as is the negation of a system left without
    /// relations.
    #[verifier::loop_isolation(false)]
    pub fn bit_not(self) -> (r: Result<LinearSystem, bool>)
        requires
            self.wf(),
        ensures
            r is Err <==> self.negation_is_constant(),
            r matches Err(b) ==> !b && ((self is Disjunction && self.relations().len() == 0) || forall|
                tv: spec_fn(LinearSlice) -> int,
            | #[trigger] self.holds(tv)),
            r matches Ok(n) ==> n.wf() && n.relations().len() > 0 && forall|tv: spec_fn(LinearSlice) -> int| #[trigger] n.holds(tv) <==> !self.holds(tv),
    {
        let was_conjunction: Option<bool> = match &self {
            LinearSystem::Single(_) => None,
            LinearSystem::Disjunction(_) => Some(false),
            LinearSystem::Conjunction(_) => Some(true),
        };
        let ghost orig = self;
        let ghost rels = self.relations();
        let mut relations = self.into_relations();
        let mut new_relations: Vec<LinearRelation> = Vec::new();
        let ghost mut k: int = 0;
        while relations.len() > 0
            invariant
                0 <= k <= rels.len(),
                rels == orig.relations(),
                orig.wf(),
                was_conjunction == Some(true) <==> orig is Conjunction,
                was_conjunction == Some(false) <==> orig is Disjunction,
                relations@ == rels.subrange(k, rels.len() as int),
                forall|j: int| 0 <= j < new_relations@.len() ==> (#[trigger] new_relations@[j]).wf(),
                was_conjunction != Some(true) ==> {
                    &&& new_relations@.len() == k
                    &&& forall|i: int| 0 <= i < k ==> !(#[trigger] rels[i]).always_holds()
                    &&& forall|j: int, tv: spec_fn(LinearSlice) -> int|
                        0 <= j < k ==> (#[trigger] new_relations@[j].holds(tv) <==> !rels[j].holds(tv))
                },
                was_conjunction == Some(true) ==> {
                    &&& (new_relations@.len() == 0 <==> forall|i: int| 0 <= i < k ==> (#[trigger] rels[i]).always_holds())
                    &&& forall|tv: spec_fn(LinearSlice) -> int|
                        #[trigger] some_holds(new_relations@, tv) <==> some_fails(rels, k, tv)
                },
            decreases relations.len(),
        {
            let relation = relations.remove(0);
            proof {
                assert(relation == rels[k]);
                assert(rels[k].wf());
            }
            match relation.bit_not() {
                Err(_) => {
                    match was_conjunction {
                        None | Some(false) => {
                            proof {
                                assert(orig.negation_is_constant());
                                assert forall|tv: spec_fn(LinearSlice) -> int| #[trigger] orig.holds(tv) by {
                                    lemma_always_holds(rels[k], tv);
                                    lemma_holds_relations(orig, tv);
                                }
                            }
                            return Err(false);
                        },
                        Some(true) => {
                            // dropped from the conjunction: it always holds
                            proof {
                                let k0 = k;
                                assert forall|tv: spec_fn(LinearSlice) -> int| #[trigger] some_holds(new_relations@, tv) <==> some_fails(rels, k0 + 1, tv) by {
                                    lemma_always_holds(rels[k0], tv);
                                    if some_fails(rels, k0 + 1, tv) {
                                        let i = choose|i: int| 0 <= i < k0 + 1 && !(#[trigger] rels[i].holds(tv));
                                        assert(some_fails(rels, k0, tv));
                                    }
                                }
                                assert((forall|i: int| 0 <= i < k0 + 1 ==> (#[trigger] rels[i]).always_holds()) <==> (forall|i: int| 0 <= i < k0 ==> (#[trigger] rels[i]).always_holds()));
                                k = k + 1;
                            }
                        },
                    }
                },
                Ok(negated) => {
                    let ghost before = new_relations@;
                    proof {
                        if was_conjunction == Some(true) {
                            assert(forall|tv: spec_fn(LinearSlice) -> int| #[trigger] some_holds(before, tv) <==> some_fails(rels, k, tv));
                        }
                    }
                    new_relations.push(negated);
                    proof {
                        let k0 = k;
                        if was_conjunction == Some(true) {
                            assert forall|tv: spec_fn(LinearSlice) -> int| #[trigger] some_holds(new_relations@, tv) <==> some_fails(rels, k0 + 1, tv) by {
                                if some_holds(new_relations@, tv) {
                                    let j = choose|j: int| 0 <= j < new_relations@.len() && #[trigger] new_relations@[j].holds(tv);
                                    if j < before.len() {
                                        assert(before[j] == new_relations@[j]);
                                        assert(some_holds(before, tv));
                                    }
                                }
                                if some_fails(rels, k0 + 1, tv) {
                                    let i = choose|i: int| 0 <= i < k0 + 1 && !(#[trigger] rels[i].holds(tv));
                                    if i < k0 {
                                        assert(some_fails(rels, k0, tv));
                                        assert(some_holds(before, tv));
                                        let j = choose|j: int| 0 <= j < before.len() && #[trigger] before[j].holds(tv);
                                        assert(new_relations@[j] == before[j]);
                                    } else {
                                        assert(new_relations@[before.len() as int].holds(tv));
                                    }
                                }
                                if some_holds(before, tv) {
                                    let j = choose|j: int| 0 <= j < before.len() && #[trigger] before[j].holds(tv);
                                    assert(new_relations@[j] == before[j]);
                                }
                            }
                        } else {
                            assert forall|j: int, tv: spec_fn(LinearSlice) -> int| 0 <= j < k0 + 1 implies (#[trigger] new_relations@[j].holds(tv) <==> !rels[j].holds(tv)) by {
                                if j < k0 {
                                    assert(new_relations@[j] == before[j]);
                                }
                            }
                        }
                        k = k + 1;
                    }
                },
            }
        }
        proof {
            assert(k == rels.len());
        }
        if new_relations.len() == 0 {
            proof {
                if was_conjunction == Some(true) {
                    assert forall|tv: spec_fn(LinearSlice) -> int| #[trigger] orig.holds(tv) by {
                        assert forall|i: int| 0 <= i < rels.len() implies #[trigger] rels[i].holds(tv) by {
                            lemma_always_holds(rels[i], tv);
                        }
                        lemma_holds_relations(orig, tv);
                    }
                }
            }
            return Err(false);
        }
        let ghost negations = new_relations@;
        let system = if new_relations.len() == 1 {
            let relation = new_relations.remove(0);
            LinearSystem::Single(relation)
        } else {
            match was_conjunction {
                Some(false) => LinearSystem::Conjunction(new_relations),
                _ => LinearSystem::Disjunction(new_relations),
            }
        };
        proof {
            assert(system.relations() =~= negations);
            assert(!orig.negation_is_constant()) by {
                match orig {
                    LinearSystem::Single(relation) => {
                        assert(rels[0] == relation);
                    },
                    LinearSystem::Conjunction(list) => {
                        let i = choose|i: int| 0 <= i < rels.len() && !(#[trigger] rels[i]).always_holds();
                        assert(list@[i] == rels[i]);
                    },
                    LinearSystem::Disjunction(list) => {
                        assert forall|i: int| 0 <= i < list@.len() implies !(#[trigger] list@[i]).always_holds() by {
                            assert(list@[i] == rels[i]);
                        }
                    },
                }
            }
            assert forall|tv: spec_fn(LinearSlice) -> int| #[trigger] system.holds(tv) <==> !orig.holds(tv) by {
                lemma_holds_relations(orig, tv);
                lemma_holds_relations(system, tv);
                if was_conjunction == Some(true) {
                    assert(some_holds(negations, tv) <==> some_fails(rels, k, tv));
                    if some_fails(rels, k, tv) {
                        let i = choose|i: int| 0 <= i < k && !(#[trigger] rels[i].holds(tv));
                    }
                    if some_holds(negations, tv) {
                        let j = choose|j: int| 0 <= j < negations.len() && #[trigger] negations[j].holds(tv);
                        assert(system.relations()[j].holds(tv));
                    }
                    if system.holds(tv) {
                        let j = choose|j: int| 0 <= j < system.relations().len() && #[trigger] system.relations()[j].holds(tv);
                        assert(negations[j].holds(tv));
                    }
                } else {
                    assert forall|j: int| 0 <= j < negations.len() implies (#[trigger] negations[j].holds(tv) <==> !rels[j].holds(tv)) by {}
                    if orig.holds(tv) {
                        let i = choose|i: int| 0 <= i < rels.len() && #[trigger] rels[i].holds(tv);
                        assert(!negations[i].holds(tv));
                        assert(!system.relations()[i].holds(tv));
                    } else {
                        assert forall|j: int| 0 <= j < negations.len() implies #[trigger] system.relations()[j].holds(tv) by {
                            assert(!rels[j].holds(tv));
                            assert(negations[j].holds(tv));
                        }
                    }
                }
            }
        }
        Ok(system)
    }

    /// Conjunction of two systems.
    pub fn and(self, rhs: LinearSystem) -> (r: Option<LinearSystem>)
        requires
            self.wf(),
            rhs.wf(),
            self.combinable(rhs, true) ==> self.relations().len() + rhs.relations().len() > 0,
        ensures
            r is Some <==> self.combinable(rhs, true),
            r matches Some(s) ==> s.wf() && s.relations() == self.relations() + rhs.relations() && forall|
                tv: spec_fn(LinearSlice) -> int,
            | #[trigger] s.holds(tv) <==> self.holds(tv) && rhs.holds(tv),
    {
        self.combine(rhs, true)
    }

    /// Disjunction of two systems.
    pub fn or(self, rhs: LinearSystem) -> (r: Option<LinearSystem>)
        requires
            self.wf(),
            rhs.wf(),
            self.combinable(rhs, false) ==> self.relations().len() + rhs.relations().len() > 0,
        ensures
            r is Some <==> self.combinable(rhs, false),
            r matches Some(s) ==> s.wf() && s.relations() == self.relations() + rhs.relations() && forall|
                tv: spec_fn(LinearSlice) -> int,
            | #[trigger] s.holds(tv) <==> self.holds(tv) || rhs.holds(tv),
    {
        self.combine(rhs, false)
    }

    /// Both systems are single relations or of the kind asked for.
    pub open spec fn combinable(self, rhs: LinearSystem, universal: bool) -> bool {
        &&& (self is Single || universal == (self is Conjunction))
        &&& (rhs is Single || universal == (rhs is Conjunction))
    }

    /// Joins the relations of two systems into a conjunction (`universal`)
    /// or a disjunction; fails where a system is of the other kind.
    fn combine(self, rhs: LinearSystem, universal: bool) -> (r: Option<LinearSystem>)
        requires
            self.wf(),
            rhs.wf(),
            self.combinable(rhs, universal) ==> self.relations().len() + rhs.relations().len() > 0,
        ensures
            r is Some <==> self.combinable(rhs, universal),
            r matches Some(s) ==> s.wf() && s.relations() == self.relations() + rhs.relations() && forall|
                tv: spec_fn(LinearSlice) -> int,
            | #[trigger] s.holds(tv) <==> if universal {
                self.holds(tv) && rhs.holds(tv)
            } else {
                self.holds(tv) || rhs.holds(tv)
            },
    {
        let lhs_compatible = match &self {
            LinearSystem::Single(_) => true,
            LinearSystem::Conjunction(_) => universal,
            LinearSystem::Disjunction(_) => !universal,
        };
        let rhs_compatible = match &rhs {
            LinearSystem::Single(_) => true,
            LinearSystem::Conjunction(_) => universal,
            LinearSystem::Disjunction(_) => !universal,
        };
        if !lhs_compatible || !rhs_compatible {
            return None;
        }
        let ghost lhs_orig = self;
        let ghost rhs_orig = rhs;
        let mut new_relations = self.into_relations();
        let mut rhs_relations = rhs.into_relations();
        new_relations.append(&mut rhs_relations);
        let system = if new_relations.len() == 1 {
            let relation = new_relations.remove(0);
            proof {
                assert(seq![relation] =~= lhs_orig.relations() + rhs_orig.relations());
            }
            LinearSystem::Single(relation)
        } else if universal {
            LinearSystem::Conjunction(new_relations)
        } else {
            LinearSystem::Disjunction(new_relations)
        };
        proof {
            let all = lhs_orig.relations() + rhs_orig.relations();
            assert(system.relations() =~= all);
            assert forall|tv: spec_fn(LinearSlice) -> int| #[trigger] system.holds(tv) <==> if universal {
                lhs_orig.holds(tv) && rhs_orig.holds(tv)
            } else {
                lhs_orig.holds(tv) || rhs_orig.holds(tv)
            } by {
                lemma_holds_relations(lhs_orig, tv);
                lemma_holds_relations(rhs_orig, tv);
                lemma_holds_relations(system, tv);
                let nl = lhs_orig.relations().len();
                if universal {
                    if lhs_orig.holds(tv) && rhs_orig.holds(tv) {
                        assert forall|i: int| 0 <= i < all.len() implies #[trigger] all[i].holds(tv) by {
                            if i < nl {
                                assert(lhs_orig.relations()[i].holds(tv));
                            } else {
                                assert(rhs_orig.relations()[i - nl].holds(tv));
                            }
                        }
                    }
                    if system.holds(tv) {
                        assert forall|i: int| 0 <= i < nl implies #[trigger] lhs_orig.relations()[i].holds(tv) by {
                            assert(all[i].holds(tv));
                        }
                        assert forall|i: int| 0 <= i < rhs_orig.relations().len() implies #[trigger] rhs_orig.relations()[i].holds(tv) by {
                            assert(all[i + nl].holds(tv));
                        }
                    }
                } else {
                    if lhs_orig.holds(tv) {
                        let i = choose|i: int| 0 <= i < nl && #[trigger] lhs_orig.relations()[i].holds(tv);
                        assert(all[i].holds(tv));
                    }
                    if rhs_orig.holds(tv) {
                        let i = choose|i: int| 0 <= i < rhs_orig.relations().len() && #[trigger] rhs_orig.relations()[i].holds(tv);
                        assert(all[i + nl].holds(tv));
                    }
                    if system.holds(tv) {
                        let i = choose|i: int| 0 <= i < all.len() && #[trigger] all[i].holds(tv);
                        if i < nl {
                            assert(lhs_orig.relations()[i].holds(tv));
                        } else {
                            assert(rhs_orig.relations()[i - nl].holds(tv));
                        }
                    }
                }
            }
        }
        Some(system)
    }
}

/// A relation whose slack is the highest value holds everywhere.
proof fn lemma_always_holds(relation: LinearRelation, tv: spec_fn(LinearSlice) -> int)
    requires
        relation.wf(),
        relation.always_holds(),
    ensures
        relation.holds(tv),
{
    crate::domain::bitvector::lemma_modulus_bounds(relation.slack.bound);
}

/// A system holds as the conjunction or disjunction of its relations: a
/// single relation as both.
proof fn lemma_holds_relations(system: LinearSystem, tv: spec_fn(LinearSlice) -> int)
    ensures
        !(system is Disjunction) ==> (system.holds(tv) <==> forall|i: int|
            0 <= i < system.relations().len() ==> #[trigger] system.relations()[i].holds(tv)),
        !(system is Conjunction) ==> (system.holds(tv) <==> exists|i: int|
            0 <= i < system.relations().len() && #[trigger] system.relations()[i].holds(tv)),
{
    match system {
        LinearSystem::Single(relation) => {
            assert(system.relations().len() == 1);
            assert(system.relations()[0] == relation);
            if relation.holds(tv) {
                assert forall|i: int| 0 <= i < system.relations().len() implies #[trigger] system.relations()[i].holds(tv) by {
                    assert(i == 0);
                }
            }
        },
        LinearSystem::Conjunction(relations) => {
            assert(system.relations() == relations@);
        },
        LinearSystem::Disjunction(relations) => {
            assert(system.relations() == relations@);
        },
    }
}

/// Some relation of the list holds.
pub open spec fn some_holds(relations: Seq<LinearRelation>, tv: spec_fn(LinearSlice) -> int) -> bool {
    exists|j: int| 0 <= j < relations.len() && #[trigger] relations[j].holds(tv)
}

/// Some relation among the first `n` fails.
pub open spec fn some_fails(relations: Seq<LinearRelation>, n: int, tv: spec_fn(LinearSlice) -> int) -> bool {
    exists|i: int| 0 <= i < n && !(#[trigger] relations[i].holds(tv))
}

} // verus!
