//! Assignments of three-valued bitvectors to the problem variables.
use vstd::prelude::*;

use crate::domain::three_valued_bitvector::ThreeValuedBitvector;
use crate::domain::value::three_valued::ThreeValued;
use crate::problem::decision::Decision;
use crate::problem::formula::VariableId;

verus! {

/// Assignment of the problem variables, by variable index, to
/// three-valued bitvectors.
#[derive(Clone, Debug, PartialEq, Eq)]
pub struct Assignment {
    pub values: Vec<ThreeValuedBitvector>,
}

impl Assignment {
    pub open spec fn wf(self) -> bool {
        forall|i: int| 0 <= i < self.values@.len() ==> (#[trigger] self.values@[i]).wf()
    }

    /// Both assignments have values of the same bounds, variable by variable.
    pub open spec fn same_shape(self, other: Assignment) -> bool {
        &&& self.values@.len() == other.values@.len()
        &&& forall|i: int| 0 <= i < self.values@.len() ==> (#[trigger] self.values@[i]).bound == other.values@[i].bound
    }

    /// A decision names a bit of a variable of the assignment.
    pub open spec fn decision_in_range(self, decision: Decision) -> bool {
        &&& decision.variable_index < self.values@.len()
        &&& decision.bit_index < self.values@[decision.variable_index as int].bound.width
    }

    pub fn values(&self) -> (r: &[ThreeValuedBitvector])
        ensures
            r@ == self.values@,
    {
        self.values.as_slice()
    }

    pub fn value(&self, id: VariableId) -> (r: &ThreeValuedBitvector)
        requires
            id.0 < self.values@.len(),
        ensures
            *r == self.values@[id.0 as int],
    {
        &self.values[id.0]
    }

    /// Joins each value with the other assignment's value of the variable.
    pub fn join(self, other: &Assignment) -> (r: Assignment)
        requires
            self.wf(),
            other.wf(),
            self.same_shape(*other),
        ensures
            r.wf(),
            r.same_shape(self),
            forall|i: int|
                0 <= i < r.values@.len() ==> (#[trigger] r.values@[i]).zeros == self.values@[i].zeros
                    | other.values@[i].zeros && r.values@[i].ones == self.values@[i].ones | other.values@[i].ones,
    {
        let mut result = self;
        let mut i: usize = 0;
        while i < result.values.len()
            invariant
                0 <= i <= result.values@.len(),
                result.values@.len() == self.values@.len(),
                self.same_shape(*other),
                other.wf(),
                self.wf(),
                forall|j: int| 0 <= j < result.values@.len() ==> (#[trigger] result.values@[j]).wf()
                    && result.values@[j].bound == self.values@[j].bound,
                forall|j: int|
                    0 <= j < i ==> (#[trigger] result.values@[j]).zeros == self.values@[j].zeros
                        | other.values@[j].zeros && result.values@[j].ones == self.values@[j].ones
                        | other.values@[j].ones,
                forall|j: int| i <= j < result.values@.len() ==> #[trigger] result.values@[j] == self.values@[j],
            decreases result.values@.len() - i,
        {
            let joined = result.values[i].join(&other.values[i]);
            result.values.set(i, joined);
            i = i + 1;
        }
        result
    }

    /// Whether each value contains the other assignment's value of the variable.
    pub fn contains(&self, other: &Assignment) -> (r: bool)
        requires
            self.same_shape(*other),
        ensures
            r == forall|i: int|
                0 <= i < self.values@.len() ==> (#[trigger] other.values@[i].zeros) & !self.values@[i].zeros == 0
                    && other.values@[i].ones & !self.values@[i].ones == 0,
    {
        let mut i: usize = 0;
        while i < self.values.len()
            invariant
                0 <= i <= self.values@.len(),
                self.same_shape(*other),
                forall|j: int|
                    0 <= j < i ==> (#[trigger] other.values@[j].zeros) & !self.values@[j].zeros == 0
                        && other.values@[j].ones & !self.values@[j].ones == 0,
            decreases self.values@.len() - i,
        {
            if !self.values[i].contains(&other.values[i]) {
                return false;
            }
            i = i + 1;
        }
        true
    }

    /// Sets the decided bit to a three-valued value.
    pub fn set_decision_value(&mut self, decision: Decision, value: ThreeValued)
        requires
            old(self).wf(),
            old(self).decision_in_range(decision),
        ensures
            final(self).wf(),
            final(self).same_shape(*old(self)),
            final(self).values@[decision.variable_index as int].bit(decision.bit_index as u64) == value,
            forall|j: u64|
                j < 64 && j != decision.bit_index as u64 ==> #[trigger] final(self).values@[decision.variable_index as int].bit(j)
                    == old(self).values@[decision.variable_index as int].bit(j),
            forall|i: int|
                0 <= i < old(self).values@.len() && i != decision.variable_index ==> #[trigger] final(self).values@[i]
                    == old(self).values@[i],
    {
        let index = decision.variable_index();
        let mut bitvector = self.values[index];
        bitvector.set_bit_to_three_valued(decision.bit_index(), value);
        self.values.set(index, bitvector);
    }

    /// Decides a bit that was undecided.
    pub fn apply_bool_decision_to_undecided(&mut self, decision: Decision, value: bool)
        requires
            old(self).wf(),
            old(self).decision_in_range(decision),
            old(self).values@[decision.variable_index as int].bit(decision.bit_index as u64) == ThreeValued::Unknown,
        ensures
            final(self).wf(),
            final(self).same_shape(*old(self)),
            final(self).values@[decision.variable_index as int].bit(decision.bit_index as u64) == (if value {
                ThreeValued::True
            } else {
                ThreeValued::False
            }),
            forall|j: u64|
                j < 64 && j != decision.bit_index as u64 ==> #[trigger] final(self).values@[decision.variable_index as int].bit(j)
                    == old(self).values@[decision.variable_index as int].bit(j),
            forall|i: int|
                0 <= i < old(self).values@.len() && i != decision.variable_index ==> #[trigger] final(self).values@[i]
                    == old(self).values@[i],
    {
        self.set_decision_value(decision, ThreeValued::from_bool(value));
    }

    /// The three-valued value of the decided bit.
    pub fn get_decision_value(&self, decision: Decision) -> (r: ThreeValued)
        requires
            self.wf(),
            self.decision_in_range(decision),
        ensures
            r == self.values@[decision.variable_index as int].bit(decision.bit_index as u64),
    {
        self.values[decision.variable_index()].three_valued_from_bit(decision.bit_index())
    }
}

} // verus!
