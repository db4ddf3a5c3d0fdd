//! Solutions of the satisfiability problem.
use vstd::prelude::*;

use crate::domain::value::three_valued::ThreeValued;
use crate::problem::assignment::Assignment;

pub mod proof_tree;

use proof_tree::{assignment_nodes, nodes_wf, proof_text, Proof, ProofNode};

verus! {

/// A solution of the satisfiability problem.
///
/// It either says the problem is satisfiable, producing an assignment that
/// satisfies the problem (a model), or says that the problem is
/// unsatisfiable, producing an unsatisfiability proof.
#[derive(Debug)]
pub enum Solution {
    Satisfiable(Assignment),
    Unsatisfiable(Proof),
}

impl Solution {
    /// Whether the solution says the problem is satisfiable.
    pub fn result(&self) -> (r: bool)
        ensures
            r == (self is Satisfiable),
    {
        match self {
            Solution::Satisfiable(_) => true,
            Solution::Unsatisfiable(_) => false,
        }
    }

    /// The nodes of the proof of the solution: the proof from the
    /// satisfying assignment, or the unsatisfiability proof.
    pub open spec fn proof_nodes(self) -> Seq<ProofNode> {
        match self {
            Solution::Satisfiable(assignment) => assignment_nodes(assignment.values@, assignment.values@.len()).push(
                ProofNode::Value(ThreeValued::True),
            ),
            Solution::Unsatisfiable(proof) => proof.nodes@,
        }
    }

    /// Appends the text of the proof of the solution, with its result.
    pub fn write_smt_proof(&self, out: &mut String)
        requires
            self matches Solution::Satisfiable(assignment) ==> assignment.wf() && assignment.values@.len() * 128 + 1
                < usize::MAX,
            self matches Solution::Unsatisfiable(proof) ==> nodes_wf(proof.nodes@) && 1 <= proof.nodes@.len() < usize::MAX - 1,
        ensures
            final(out)@ == old(out)@ + proof_text(self.proof_nodes(), self is Satisfiable),
    {
        match self {
            Solution::Satisfiable(assignment) => {
                let proof = Proof::from_satisfying(assignment);
                proof.write_smt(out, true);
            },
            Solution::Unsatisfiable(proof) => {
                proof.write_smt(out, false);
            },
        }
    }
}

} // verus!
