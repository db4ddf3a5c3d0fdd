//! Text of relations of linear combinations.
use vstd::prelude::*;
use vstd::string::StringExecFns;

use crate::printing::{append_decimal, decimal};

use super::LinearRelation;

verus! {

impl LinearRelation {
    /// The combination, the slack and the sum of their well-formedness.
    pub open spec fn wf(self) -> bool {
        &&& self.combination.wf()
        &&& self.slack.wf()
        &&& self.slack.bound == self.combination.constant.bound
    }

    /// Whether the relation holds when each formula has the value `tv(id)`.
    pub open spec fn holds(self, tv: spec_fn(crate::problem::formula::FormulaId) -> int) -> bool {
        self.combination.eval(tv) <= self.slack.val()
    }

    /// The text of the relation: the combination, ` == ` for a zero slack
    /// or ` <= ` for another, and the slack.
    pub open spec fn text(self) -> Seq<char> {
        self.combination.text() + (if self.slack.val() == 0 {
            " == "@
        } else {
            " <= "@
        }) + decimal(self.slack.val())
    }

    /// Appends the text of the relation.
    pub fn write_text(&self, out: &mut String)
        requires
            self.wf(),
        ensures
            final(out)@ == old(out)@ + self.text(),
    {
        self.combination.write_text(out);
        if self.slack.is_zero() {
            out.append(" == ");
        } else {
            out.append(" <= ");
        }
        append_decimal(out, self.slack.value as u128);
        proof {
            assert(final(out)@ =~= old(out)@ + self.text());
        }
    }
}

} // verus!
