//! Renumbering of formulas: a bijective map from old formula keys to new
//! ones, and operations with their inputs renumbered by it.
use bimap::BiBTreeMap;
use vstd::prelude::*;

use crate::problem::formula::{FormulaId, OperationId, VariableId};
use crate::problem::operation::{BiOp, ConcatOp, ExtOp, ExtractOp, IteOp, Operation, UniOp};

verus! {

/// The key by which a formula is ordered and found in a remapping:
/// `false` and the index for a variable, `true` and the index for an
/// operation.
pub type FormulaKey = (bool, usize);

/// A bijective map from old formula keys to new formula keys.
pub type Remapping = BiBTreeMap<FormulaKey, FormulaKey>;

#[verifier::external_type_specification]
#[verifier::external_body]
#[verifier::reject_recursive_types(L)]
#[verifier::reject_recursive_types(R)]
pub struct ExBiBTreeMap<L, R>(BiBTreeMap<L, R>);

/// The left-to-right pairs of a remapping.
pub uninterp spec fn remap_pairs(m: BiBTreeMap<(bool, usize), (bool, usize)>) -> Map<(bool, usize), (bool, usize)>;

/// `BiBTreeMap::get_by_left`: the right value paired with the given left
/// value, if there is one. A bimap pairs each right value with one left
/// value only, so no other left value is paired with the result.
#[verifier::external_body]
fn get_by_left(map: &BiBTreeMap<(bool, usize), (bool, usize)>, left: (bool, usize)) -> (r: Option<(bool, usize)>)
    ensures
        r is Some <==> remap_pairs(*map).dom().contains(left),
        r matches Some(v) ==> v == remap_pairs(*map)[left] && forall|k: (bool, usize)|
            #[trigger] remap_pairs(*map).dom().contains(k) && remap_pairs(*map)[k] == v ==> k == left,
{
    map.get_by_left(&left).copied()
}

/// The key of a formula.
pub open spec fn formula_key(id: FormulaId) -> FormulaKey {
    match id {
        FormulaId::Variable(v) => (false, v.0),
        FormulaId::Operation(o) => (true, o.0),
    }
}

/// The formula of a key.
pub open spec fn key_formula(key: FormulaKey) -> FormulaId {
    if key.0 {
        FormulaId::Operation(OperationId(key.1))
    } else {
        FormulaId::Variable(VariableId(key.1))
    }
}

/// The key of a formula.
pub fn key_of(id: FormulaId) -> (r: FormulaKey)
    ensures
        r == formula_key(id),
        key_formula(r) == id,
{
    match id {
        FormulaId::Variable(v) => (false, v.0),
        FormulaId::Operation(o) => (true, o.0),
    }
}

/// The formula of a key.
pub fn formula_of_key(key: FormulaKey) -> (r: FormulaId)
    ensures
        r == key_formula(key),
        formula_key(r) == key,
{
    if key.0 {
        FormulaId::Operation(OperationId(key.1))
    } else {
        FormulaId::Variable(VariableId(key.1))
    }
}

/// The remapping has a new formula for the formula.
pub open spec fn id_remappable(m: Remapping, id: FormulaId) -> bool {
    remap_pairs(m).dom().contains(formula_key(id))
}

/// The new formula of a formula.
pub open spec fn remap_id(m: Remapping, id: FormulaId) -> FormulaId {
    key_formula(remap_pairs(m)[formula_key(id)])
}

/// No other remappable formula has the same new formula.
pub open spec fn remap_injective_at(m: Remapping, id: FormulaId) -> bool {
    forall|other: FormulaId| id_remappable(m, other) && #[trigger] remap_id(m, other) == remap_id(m, id) ==> other == id
}

/// The new formula of a formula, if the remapping has one.
pub fn try_remap_id(m: &Remapping, id: FormulaId) -> (r: Option<FormulaId>)
    ensures
        r is Some <==> id_remappable(*m, id),
        r matches Some(new_id) ==> new_id == remap_id(*m, id) && remap_injective_at(*m, id),
{
    let key = key_of(id);
    match get_by_left(m, key) {
        Some(new_key) => {
            proof {
                assert forall|other: FormulaId| id_remappable(*m, other) && #[trigger] remap_id(*m, other) == remap_id(*m, id) implies other == id by {
                    let ko = formula_key(other);
                    let vo = remap_pairs(*m)[ko];
                    assert(formula_key(key_formula(vo)) == vo);
                    assert(formula_key(key_formula(new_key)) == new_key);
                    assert(key_formula(formula_key(other)) == other);
                }
            }
            Some(formula_of_key(new_key))
        },
        None => None,
    }
}

/// The new formula of a remappable formula.
pub fn remap_formula_id(m: &Remapping, id: FormulaId) -> (r: FormulaId)
    requires
        id_remappable(*m, id),
    ensures
        r == remap_id(*m, id),
        remap_injective_at(*m, id),
{
    match try_remap_id(m, id) {
        Some(new_id) => new_id,
        None => id,
    }
}

impl BiOp {
    /// The operation with both operands renumbered.
    pub fn remapped(&self, old_to_new: &Remapping) -> (r: BiOp)
        requires
            id_remappable(*old_to_new, self.left),
            id_remappable(*old_to_new, self.right),
        ensures
            r == (BiOp {
                left: remap_id(*old_to_new, self.left),
                right: remap_id(*old_to_new, self.right),
                ..*self
            }),
    {
        BiOp {
            op: self.op,
            input_width: self.input_width,
            left: remap_formula_id(old_to_new, self.left),
            right: remap_formula_id(old_to_new, self.right),
        }
    }
}

impl Operation {
    /// Every input of the operation has a new formula.
    pub open spec fn remappable(self, m: Remapping) -> bool {
        match self {
            Operation::Linear(linear) => linear.remappable(m),
            _ => forall|i: int| 0 <= i < self.spec_used_ids().len() ==> id_remappable(m, #[trigger] self.spec_used_ids()[i]),
        }
    }

    /// A linear operation is well-formed.
    pub open spec fn linear_wf(self) -> bool {
        match self {
            Operation::Linear(linear) => linear.wf(),
            _ => true,
        }
    }

    /// The operation with its inputs renumbered: an operation that is not
    /// linear keeps everything but its input formulas, a linear one is
    /// renumbered term by term.
    pub open spec fn is_remap_of(self, old: Operation, m: Remapping) -> bool {
        match old {
            Operation::Constant(_, _) => self == old,
            Operation::UniOp(op) => self == Operation::UniOp(UniOp { inner: remap_id(m, op.inner), ..op }),
            Operation::BiOp(op) => self == Operation::BiOp(
                BiOp { left: remap_id(m, op.left), right: remap_id(m, op.right), ..op },
            ),
            Operation::ExtOp(op) => self == Operation::ExtOp(ExtOp { inner: remap_id(m, op.inner), ..op }),
            Operation::IteOp(op) => self == Operation::IteOp(
                IteOp {
                    condition: remap_id(m, op.condition),
                    formula_then: remap_id(m, op.formula_then),
                    formula_else: remap_id(m, op.formula_else),
                    ..op
                },
            ),
            Operation::ConcatOp(op) => self == Operation::ConcatOp(
                ConcatOp { left: remap_id(m, op.left), right: remap_id(m, op.right), ..op },
            ),
            Operation::ExtractOp(op) => self == Operation::ExtractOp(ExtractOp { inner: remap_id(m, op.inner), ..op }),
            Operation::Linear(linear) => self matches Operation::Linear(new_linear) && new_linear.wf()
                && new_linear.is_remap_of(linear, m),
        }
    }

    /// The operation with its inputs renumbered.
    pub fn remapped(&self, old_to_new: &Remapping) -> (r: Operation)
        requires
            self.linear_wf(),
            self.remappable(*old_to_new),
        ensures
            r.is_remap_of(*self, *old_to_new),
    {
        match self {
            Operation::Constant(value, width) => Operation::Constant(*value, *width),
            Operation::UniOp(uni_op) => {
                assert(self.spec_used_ids()[0] == uni_op.inner);
                Operation::UniOp(UniOp { op: uni_op.op, input_width: uni_op.input_width, inner: remap_formula_id(old_to_new, uni_op.inner) })
            },
            Operation::BiOp(bi_op) => {
                assert(self.spec_used_ids()[0] == bi_op.left);
                assert(self.spec_used_ids()[1] == bi_op.right);
                Operation::BiOp(bi_op.remapped(old_to_new))
            },
            Operation::ExtOp(ext_op) => {
                assert(self.spec_used_ids()[0] == ext_op.inner);
                Operation::ExtOp(
                    ExtOp {
                        signed: ext_op.signed,
                        input_width: ext_op.input_width,
                        output_width: ext_op.output_width,
                        inner: remap_formula_id(old_to_new, ext_op.inner),
                    },
                )
            },
            Operation::IteOp(ite_op) => {
                assert(self.spec_used_ids()[0] == ite_op.condition);
                assert(self.spec_used_ids()[1] == ite_op.formula_then);
                assert(self.spec_used_ids()[2] == ite_op.formula_else);
                Operation::IteOp(
                    IteOp {
                        condition: remap_formula_id(old_to_new, ite_op.condition),
                        width: ite_op.width,
                        formula_then: remap_formula_id(old_to_new, ite_op.formula_then),
                        formula_else: remap_formula_id(old_to_new, ite_op.formula_else),
                    },
                )
            },
            Operation::ConcatOp(concat_op) => {
                assert(self.spec_used_ids()[0] == concat_op.left);
                assert(self.spec_used_ids()[1] == concat_op.right);
                Operation::ConcatOp(
                    ConcatOp {
                        left_width: concat_op.left_width,
                        left: remap_formula_id(old_to_new, concat_op.left),
                        right_width: concat_op.right_width,
                        right: remap_formula_id(old_to_new, concat_op.right),
                    },
                )
            },
            Operation::ExtractOp(extract_op) => {
                assert(self.spec_used_ids()[0] == extract_op.inner);
                Operation::ExtractOp(
                    ExtractOp { inner: remap_formula_id(old_to_new, extract_op.inner), lsb: extract_op.lsb, width: extract_op.width },
                )
            },
            Operation::Linear(linear) => Operation::Linear(linear.remapped(old_to_new)),
        }
    }

    /// Whether every input of the operation has a new formula.
    pub fn all_remappable(&self, m: &Remapping) -> (r: bool)
        ensures
            r == self.remappable(*m),
    {
        if let Operation::Linear(linear) = self {
            return linear.all_remappable(m);
        }
        let ids = self.used_ids();
        let mut i: usize = 0;
        while i < ids.len()
            invariant
                ids@ == self.spec_used_ids(),
                !(self is Linear),
                0 <= i <= ids@.len(),
                forall|j: int| 0 <= j < i ==> id_remappable(*m, #[trigger] ids@[j]),
            decreases ids@.len() - i,
        {
            if try_remap_id(m, ids[i]).is_none() {
                return false;
            }
            i = i + 1;
        }
        true
    }

    /// The operation with its inputs renumbered, or nothing where an input
    /// has no new formula.
    pub fn try_remapped(&self, old_to_new: &Remapping) -> (r: Option<Operation>)
        requires
            self.linear_wf(),
        ensures
            r is Some <==> self.remappable(*old_to_new),
            r matches Some(op) ==> op.is_remap_of(*self, *old_to_new),
    {
        if self.all_remappable(old_to_new) {
            Some(self.remapped(old_to_new))
        } else {
            None
        }
    }
}

} // verus!
