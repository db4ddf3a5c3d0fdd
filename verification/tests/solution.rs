use roole::domain::bitvector::RBound;
use roole::domain::three_valued_bitvector::ThreeValuedBitvector;
use roole::domain::value::three_valued::ThreeValued;
use roole::problem::assignment::Assignment;
use roole::problem::decision::Decision;
use roole::problem::solution::proof_tree::{Proof, ProofDecisionNode, ProofNode};
use roole::problem::solution::Solution;

fn known_bits(zeros: u64, ones: u64, width: u32) -> ThreeValuedBitvector {
    ThreeValuedBitvector { zeros, ones, bound: RBound::new(width) }
}

#[test]
fn proof_from_satisfying_assignment() {
    // variable 0: two bits, bit 0 is one and bit 1 unknown
    // variable 1: one bit, zero
    let assignment = Assignment { values: vec![known_bits(0b10, 0b11, 2), known_bits(0b1, 0b0, 1)] };
    let proof = Proof::from_satisfying(&assignment);
    assert_eq!(
        proof.nodes,
        vec![
            ProofNode::Decision(ProofDecisionNode { decision: Decision::new(0, 0), child_zero: 1, child_one: 2 }),
            ProofNode::Value(ThreeValued::Unknown),
            ProofNode::Decision(ProofDecisionNode { decision: Decision::new(1, 0), child_zero: 4, child_one: 3 }),
            ProofNode::Value(ThreeValued::Unknown),
            ProofNode::Value(ThreeValued::True),
        ]
    );
    let mut text = String::new();
    proof.write_smt(&mut text, true);
    assert_eq!(
        text,
        "(roole-proof true \n\t(decision 0 0 \n\t\tirrelevant\n\t\t(decision 1 0 \n\t\t\trelevant\n\t\t\tirrelevant\n\t\t)\n\t)\n)\n"
    );
}

#[test]
fn proof_of_unsatisfiability_text() {
    let proof = Proof::new(vec![
        ProofNode::Decision(ProofDecisionNode { decision: Decision::new(3, 7), child_zero: 1, child_one: 2 }),
        ProofNode::Value(ThreeValued::False),
        ProofNode::Value(ThreeValued::False),
    ]);
    let mut text = String::new();
    proof.write_smt(&mut text, false);
    assert_eq!(text, "(roole-proof false \n\t(decision 3 7 \n\t\trelevant\n\t\trelevant\n\t)\n)\n");
}

#[test]
fn solution_result_and_proof() {
    let unsat = Solution::Unsatisfiable(Proof::new(vec![ProofNode::Value(ThreeValued::False)]));
    assert!(!unsat.result());
    let mut text = String::new();
    unsat.write_smt_proof(&mut text);
    assert_eq!(text, "(roole-proof false \n\trelevant\n)\n");

    let sat = Solution::Satisfiable(Assignment { values: vec![] });
    assert!(sat.result());
    let mut text = String::new();
    sat.write_smt_proof(&mut text);
    assert_eq!(text, "(roole-proof true \n\trelevant\n)\n");
}
