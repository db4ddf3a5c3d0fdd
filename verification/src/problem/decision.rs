//! Decisions on single bits of variables.
use vstd::prelude::*;

verus! {

/// A decision on one bit of one variable.
#[derive(Clone, Copy, Debug, PartialEq, Eq, Structural)]
pub struct Decision {
    pub variable_index: usize,
    pub bit_index: u32,
}

impl Decision {
    pub fn new(variable_index: usize, bit_index: u32) -> (r: Decision)
        ensures
            r == (Decision { variable_index, bit_index }),
    {
        Decision { variable_index, bit_index }
    }

    pub fn variable_index(&self) -> (r: usize)
        ensures
            r == self.variable_index,
    {
        self.variable_index
    }

    pub fn bit_index(&self) -> (r: u32)
        ensures
            r == self.bit_index,
    {
        self.bit_index
    }
}

} // verus!
