//! Steps of evaluation on three-valued bitvectors: a value may leave bits
//! unknown, and an if-then-else whose condition is unknown stands for both
//! of its branches.
use vstd::prelude::*;

use crate::domain::three_valued_bitvector::{width_mask, ThreeValuedBitvector};
use crate::problem::assignment::Assignment;
use crate::problem::formula::FormulaId;
use crate::problem::operation::IteOp;

verus! {

/// The three-valued value of the formula is known: a variable of the
/// assignment, or an operation whose result is there.
pub open spec fn three_valued_known(
    assignment: Assignment,
    results: Seq<Option<ThreeValuedBitvector>>,
    id: FormulaId,
) -> bool {
    match id {
        FormulaId::Variable(v) => v.0 < assignment.values@.len(),
        FormulaId::Operation(o) => o.0 < results.len() && results[o.0 as int] is Some,
    }
}

/// The three-valued value of the formula (meaningful where it is known).
pub open spec fn three_valued_of(
    assignment: Assignment,
    results: Seq<Option<ThreeValuedBitvector>>,
    id: FormulaId,
) -> ThreeValuedBitvector {
    match id {
        FormulaId::Variable(v) => assignment.values@[v.0 as int],
        FormulaId::Operation(o) => results[o.0 as int]->Some_0,
    }
}

/// Every bit is known: the bitvector stands for one value, `ones`.
pub open spec fn is_concrete(value: ThreeValuedBitvector) -> bool {
    value.zeros & value.ones == 0
}

/// Fetches the known three-valued value of a formula.
fn fetch_three_valued(
    assignment: &Assignment,
    results: &Vec<Option<ThreeValuedBitvector>>,
    id: FormulaId,
) -> (r: ThreeValuedBitvector)
    requires
        three_valued_known(*assignment, results@, id),
    ensures
        r == three_valued_of(*assignment, results@, id),
{
    match id {
        FormulaId::Variable(v) => assignment.values[v.0],
        FormulaId::Operation(o) => results[o.0].unwrap(),
    }
}

/// A join stands for every value that either side stands for.
proof fn lemma_join_concretizes(a: ThreeValuedBitvector, b: ThreeValuedBitvector, x: u64)
    requires
        a.bound == b.bound,
        a.concretizes(x),
    ensures
        (ThreeValuedBitvector { zeros: a.zeros | b.zeros, ones: a.ones | b.ones, bound: a.bound }).concretizes(x),
        (ThreeValuedBitvector { zeros: b.zeros | a.zeros, ones: b.ones | a.ones, bound: a.bound }).concretizes(x),
{
    let m = width_mask(a.bound.width);
    let (az, ao, bz, bo) = (a.zeros, a.ones, b.zeros, b.ones);
    assert(x & !ao == 0 && (!x & m) & !az == 0 ==> x & !(ao | bo) == 0 && (!x & m) & !(az | bz) == 0
        && x & !(bo | ao) == 0 && (!x & m) & !(bz | az) == 0) by (bit_vector);
}

impl IteOp {
    /// If-then-else on three-valued values: a condition known to be one
    /// gives the then-branch and one known to be zero the else-branch,
    /// fetching only that branch; an unknown condition gives the join of
    /// both branches, which stands for every value either stands for.
    pub fn evaluate_three_valued(
        &self,
        assignment: &Assignment,
        results: &Vec<Option<ThreeValuedBitvector>>,
    ) -> (r: ThreeValuedBitvector)
        requires
            three_valued_known(*assignment, results@, self.condition),
            three_valued_of(*assignment, results@, self.condition).wf(),
            three_valued_of(*assignment, results@, self.condition).bound.width == 1,
            ({
                let c = three_valued_of(*assignment, results@, self.condition);
                let t = three_valued_of(*assignment, results@, self.formula_then);
                let e = three_valued_of(*assignment, results@, self.formula_else);
                &&& is_concrete(c) && c.ones != 0 ==> three_valued_known(*assignment, results@, self.formula_then)
                &&& is_concrete(c) && c.ones == 0 ==> three_valued_known(*assignment, results@, self.formula_else)
                &&& !is_concrete(c) ==> {
                    &&& three_valued_known(*assignment, results@, self.formula_then)
                    &&& three_valued_known(*assignment, results@, self.formula_else)
                    &&& t.wf()
                    &&& e.wf()
                    &&& t.bound == e.bound
                }
            }),
        ensures
            ({
                let c = three_valued_of(*assignment, results@, self.condition);
                let t = three_valued_of(*assignment, results@, self.formula_then);
                let e = three_valued_of(*assignment, results@, self.formula_else);
                &&& is_concrete(c) && c.ones != 0 ==> r == t
                &&& is_concrete(c) && c.ones == 0 ==> r == e
                &&& !is_concrete(c) ==> {
                    &&& r.wf()
                    &&& r.bound == t.bound
                    &&& r.zeros == t.zeros | e.zeros
                    &&& r.ones == t.ones | e.ones
                    &&& forall|x: u64| #[trigger] t.concretizes(x) ==> r.concretizes(x)
                    &&& forall|y: u64| #[trigger] e.concretizes(y) ==> r.concretizes(y)
                }
            }),
    {
        let condition = fetch_three_valued(assignment, results, self.condition);
        match condition.concrete_value() {
            Some(value) => {
                if value.is_nonzero() {
                    fetch_three_valued(assignment, results, self.formula_then)
                } else {
                    fetch_three_valued(assignment, results, self.formula_else)
                }
            },
            None => {
                let value_then = fetch_three_valued(assignment, results, self.formula_then);
                let value_else = fetch_three_valued(assignment, results, self.formula_else);
                let r = value_then.join(&value_else);
                proof {
                    assert forall|x: u64| #[trigger] value_then.concretizes(x) implies r.concretizes(x) by {
                        lemma_join_concretizes(value_then, value_else, x);
                    }
                    assert forall|y: u64| #[trigger] value_else.concretizes(y) implies r.concretizes(y) by {
                        lemma_join_concretizes(value_else, value_then, y);
                    }
                }
                r
            },
        }
    }
}

} // verus!
