//! Concrete values of the variables and operation results of a problem.
use vstd::arithmetic::power2::pow2;
use vstd::prelude::*;

use crate::domain::bitvector::ConcreteBitvector;
use crate::problem::formula::FormulaId;
use crate::problem::operation::linear::slice::LinearSlice;

verus! {

/// Concrete values of formulas: each variable by index, and each operation
/// result by index where it is known.
#[derive(Clone, Debug)]
pub struct FormulaValues {
    pub variables: Vec<ConcreteBitvector>,
    pub operations: Vec<Option<ConcreteBitvector>>,
}

impl FormulaValues {
    /// The value of the formula is known.
    pub open spec fn has(self, id: FormulaId) -> bool {
        match id {
            FormulaId::Variable(v) => v.0 < self.variables@.len(),
            FormulaId::Operation(o) => o.0 < self.operations@.len() && self.operations@[o.0 as int] is Some,
        }
    }

    /// The value of the formula (meaningful where it is known).
    pub open spec fn value(self, id: FormulaId) -> ConcreteBitvector {
        match id {
            FormulaId::Variable(v) => self.variables@[v.0 as int],
            FormulaId::Operation(o) => self.operations@[o.0 as int]->Some_0,
        }
    }

    /// Every known value is well-formed.
    pub open spec fn wf(self) -> bool {
        &&& forall|i: int| 0 <= i < self.variables@.len() ==> (#[trigger] self.variables@[i]).wf()
        &&& forall|i: int|
            0 <= i < self.operations@.len() && self.operations@[i] is Some ==> (#[trigger] self.operations@[i])->Some_0.wf()
    }

    /// The value of a slice: the formula value moved down to the slice's
    /// lowest bit.
    pub open spec fn slice_values(self) -> spec_fn(LinearSlice) -> int {
        |s: LinearSlice| (self.value(s.formula_id).val() / pow2(s.lsb as nat)) as int
    }

    /// The known value of a formula.
    pub fn fetch(&self, id: FormulaId) -> (r: ConcreteBitvector)
        requires
            self.wf(),
            self.has(id),
        ensures
            r == self.value(id),
            r.wf(),
    {
        match id {
            FormulaId::Variable(v) => self.variables[v.0],
            FormulaId::Operation(o) => {
                let value = self.operations[o.0];
                proof {
                    assert(self.operations@[o.0 as int] is Some);
                }
                match value {
                    Some(value) => value,
                    None => {
                        proof {
                            assert(false);
                        }
                        ConcreteBitvector::from_bool(false)
                    },
                }
            },
        }
    }
}

} // verus!
