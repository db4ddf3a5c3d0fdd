//! Proofs of satisfiability results: trees of decisions on single bits of
//! variables, with claimed evaluation values at the leaves.
use vstd::prelude::*;
use vstd::string::StringExecFns;

use crate::domain::three_valued_bitvector::ThreeValuedBitvector;
use crate::domain::value::three_valued::ThreeValued;
use crate::printing::{append_decimal, append_tabs, decimal, tabs};
use crate::problem::assignment::Assignment;
use crate::problem::decision::Decision;

verus! {

/// Proof on the satisfiability problem: its nodes, the root first.
#[derive(Debug)]
pub struct Proof {
    pub nodes: Vec<ProofNode>,
}

/// Proof node.
#[derive(Clone, Copy, Debug, PartialEq, Eq, Structural)]
pub enum ProofNode {
    /// Non-leaf decision.
    Decision(ProofDecisionNode),
    /// Leaf claimed evaluation value.
    Value(ThreeValued),
}

/// Proof decision node.
///
/// The decision splits a given variable bit to the zero (false) case and
/// the one (true) case. The two children are proof nodes too; each one has
/// its index greater than the index of its parent, so the proof is not
/// circular.
#[derive(Clone, Copy, Debug, PartialEq, Eq, Structural)]
pub struct ProofDecisionNode {
    pub decision: Decision,
    pub child_zero: usize,
    pub child_one: usize,
}

/// Every decision node has both children after it and below the limit.
pub open spec fn nodes_linked(nodes: Seq<ProofNode>, limit: int) -> bool {
    forall|i: int|
        0 <= i < nodes.len() ==> match #[trigger] nodes[i] {
            ProofNode::Decision(d) => i < d.child_zero < limit && i < d.child_one < limit,
            ProofNode::Value(_) => true,
        }
}

/// Every decision node has both children after it and within the nodes.
pub open spec fn nodes_wf(nodes: Seq<ProofNode>) -> bool {
    nodes_linked(nodes, nodes.len() as int)
}

/// The nodes after one bit of a satisfying assignment: a known bit adds a
/// decision, whose child for the value not taken is the unknown leaf that
/// follows it and whose child for the value taken is the next node; an
/// unknown bit adds nothing.
pub open spec fn push_bit_nodes(nodes: Seq<ProofNode>, decision: Decision, value: ThreeValued) -> Seq<ProofNode> {
    if value == ThreeValued::Unknown {
        nodes
    } else {
        let not_taken = (nodes.len() + 1) as usize;
        let taken = (nodes.len() + 2) as usize;
        let children = if value == ThreeValued::True {
            (not_taken, taken)
        } else {
            (taken, not_taken)
        };
        nodes.push(ProofNode::Decision(ProofDecisionNode { decision, child_zero: children.0, child_one: children.1 })).push(
            ProofNode::Value(ThreeValued::Unknown),
        )
    }
}

/// The nodes after the bits below `bits` of one variable.
pub open spec fn variable_nodes(nodes: Seq<ProofNode>, variable_index: usize, value: ThreeValuedBitvector, bits: nat) -> Seq<
    ProofNode,
>
    decreases bits,
{
    if bits == 0 {
        nodes
    } else {
        let bit = (bits - 1) as nat;
        push_bit_nodes(
            variable_nodes(nodes, variable_index, value, bit),
            Decision { variable_index, bit_index: bit as u32 },
            value.bit(bit as u64),
        )
    }
}

/// The nodes of the bits of the first `count` variables.
pub open spec fn assignment_nodes(values: Seq<ThreeValuedBitvector>, count: nat) -> Seq<ProofNode>
    decreases count,
{
    if count == 0 {
        Seq::empty()
    } else {
        let v = (count - 1) as nat;
        variable_nodes(assignment_nodes(values, v), v as usize, values[v as int], values[v as int].bound.width as nat)
    }
}

/// The text of a node and its descendants, indented by `column` tabs.
pub open spec fn node_text(nodes: Seq<ProofNode>, index: int, column: nat) -> Seq<char>
    decreases nodes.len() - index,
{
    if !(0 <= index < nodes.len()) {
        Seq::empty()
    } else {
        match nodes[index] {
            ProofNode::Decision(d) => if index < d.child_zero < nodes.len() && index < d.child_one < nodes.len() {
                tabs(column) + "(decision "@ + decimal(d.decision.variable_index as nat) + " "@ + decimal(
                    d.decision.bit_index as nat,
                ) + " \n"@ + node_text(nodes, d.child_zero as int, column + 1) + node_text(
                    nodes,
                    d.child_one as int,
                    column + 1,
                ) + tabs(column) + ")\n"@
            } else {
                Seq::empty()
            },
            ProofNode::Value(value) => tabs(column) + if value == ThreeValued::Unknown {
                "irrelevant\n"@
            } else {
                "relevant\n"@
            },
        }
    }
}

/// The text of a proof of the result.
pub open spec fn proof_text(nodes: Seq<ProofNode>, result: bool) -> Seq<char> {
    "(roole-proof "@ + (if result {
        "true"@
    } else {
        "false"@
    }) + " \n"@ + node_text(nodes, 0, 1) + ")\n"@
}

impl Proof {
    pub fn new(nodes: Vec<ProofNode>) -> (r: Proof)
        ensures
            r.nodes@ == nodes@,
    {
        Proof { nodes }
    }

    /// The proof of satisfiability by an assignment: a decision for each
    /// known bit, in order of variables and bits, whose branch against
    /// the assignment ends in an unknown leaf, and a leaf that is true at
    /// the end.
    pub fn from_satisfying(assignment: &Assignment) -> (r: Proof)
        requires
            assignment.wf(),
            assignment.values@.len() * 128 + 1 < usize::MAX,
        ensures
            r.nodes@ == assignment_nodes(assignment.values@, assignment.values@.len()).push(
                ProofNode::Value(ThreeValued::True),
            ),
            nodes_wf(r.nodes@),
            r.nodes@.len() <= assignment.values@.len() * 128 + 1,
    {
        let mut nodes: Vec<ProofNode> = Vec::new();
        let values = assignment.values();
        let mut variable_index: usize = 0;
        while variable_index < values.len()
            invariant
                values@ == assignment.values@,
                assignment.wf(),
                values@.len() * 128 + 1 < usize::MAX,
                0 <= variable_index <= values@.len(),
                nodes@ == assignment_nodes(values@, variable_index as nat),
                nodes@.len() <= variable_index * 128,
                nodes_linked(nodes@, nodes@.len() + 1int),
            decreases values@.len() - variable_index,
        {
            let value = values[variable_index];
            let width = value.bound().width;
            proof {
                assert(value.wf());
            }
            let mut bit_index: u32 = 0;
            let ghost start = nodes@;
            while bit_index < width
                invariant
                    value.wf(),
                    width == value.bound.width,
                    0 <= bit_index <= width,
                    variable_index < values@.len(),
                    values@.len() * 128 + 1 < usize::MAX,
                    nodes@ == variable_nodes(start, variable_index, value, bit_index as nat),
                    nodes@.len() <= variable_index * 128 + 2 * bit_index,
                    nodes_linked(nodes@, nodes@.len() + 1int),
                decreases width - bit_index,
            {
                let decision = Decision::new(variable_index, bit_index);
                let bit = value.three_valued_from_bit(bit_index);
                let ghost before = nodes@;
                match bit.to_opt_bool() {
                    Some(known) => {
                        let not_taken = nodes.len() + 1;
                        let taken = not_taken + 1;
                        let (child_zero, child_one) = if known {
                            (not_taken, taken)
                        } else {
                            (taken, not_taken)
                        };
                        nodes.push(ProofNode::Decision(ProofDecisionNode { decision, child_zero, child_one }));
                        nodes.push(ProofNode::Value(ThreeValued::Unknown));
                        proof {
                            assert(nodes@ =~= push_bit_nodes(before, decision, bit));
                            assert forall|i: int| 0 <= i < nodes@.len() implies match #[trigger] nodes@[i] {
                                ProofNode::Decision(d) => i < d.child_zero < nodes@.len() + 1 && i < d.child_one < nodes@.len() + 1,
                                ProofNode::Value(_) => true,
                            } by {
                                if i < before.len() {
                                    assert(nodes@[i] == before[i]);
                                }
                            }
                        }
                    },
                    None => {},
                }
                proof {
                    assert(variable_nodes(start, variable_index, value, (bit_index + 1) as nat) == push_bit_nodes(
                        variable_nodes(start, variable_index, value, bit_index as nat),
                        decision,
                        value.bit(bit_index as u64),
                    ));
                }
                bit_index = bit_index + 1;
            }
            variable_index = variable_index + 1;
        }
        let ghost before = nodes@;
        nodes.push(ProofNode::Value(ThreeValued::True));
        proof {
            assert forall|i: int| 0 <= i < nodes@.len() implies match #[trigger] nodes@[i] {
                ProofNode::Decision(d) => i < d.child_zero < nodes@.len() && i < d.child_one < nodes@.len(),
                ProofNode::Value(_) => true,
            } by {
                if i < before.len() {
                    assert(nodes@[i] == before[i]);
                }
            }
        }
        Proof::new(nodes)
    }

    /// Appends the text of the node at `index` and its descendants,
    /// indented by `column` tabs.
    fn write_node(&self, out: &mut String, index: usize, column: usize)
        requires
            nodes_wf(self.nodes@),
            index < self.nodes@.len(),
            column + self.nodes@.len() - index < usize::MAX,
        ensures
            final(out)@ == old(out)@ + node_text(self.nodes@, index as int, column as nat),
        decreases self.nodes@.len() - index,
    {
        let ghost nodes = self.nodes@;
        match self.nodes[index] {
            ProofNode::Decision(node) => {
                proof {
                    assert(index < node.child_zero < nodes.len() && index < node.child_one < nodes.len());
                }
                append_tabs(out, column);
                out.append("(decision ");
                append_decimal(out, node.decision.variable_index() as u128);
                out.append(" ");
                append_decimal(out, node.decision.bit_index() as u128);
                out.append(" \n");
                self.write_node(out, node.child_zero, column + 1);
                self.write_node(out, node.child_one, column + 1);
                append_tabs(out, column);
                out.append(")\n");
                proof {
                    assert(final(out)@ =~= old(out)@ + node_text(nodes, index as int, column as nat));
                }
            },
            ProofNode::Value(value) => {
                append_tabs(out, column);
                match value.to_opt_bool() {
                    Some(_) => out.append("relevant\n"),
                    None => out.append("irrelevant\n"),
                }
                proof {
                    assert(final(out)@ =~= old(out)@ + node_text(nodes, index as int, column as nat));
                }
            },
        }
    }

    /// Appends the text of the proof of the result: the root decision
    /// nodes, each with the text of its zero child and then of its one
    /// child, indented by depth, and the leaves as relevant (known value)
    /// or irrelevant (unknown value).
    pub fn write_smt(&self, out: &mut String, result: bool)
        requires
            nodes_wf(self.nodes@),
            1 <= self.nodes@.len() < usize::MAX - 1,
        ensures
            final(out)@ == old(out)@ + proof_text(self.nodes@, result),
    {
        out.append("(roole-proof ");
        if result {
            out.append("true");
        } else {
            out.append("false");
        }
        out.append(" \n");
        self.write_node(out, 0, 1);
        out.append(")\n");
        proof {
            assert(final(out)@ =~= old(out)@ + proof_text(self.nodes@, result));
        }
    }
}

} // verus!
