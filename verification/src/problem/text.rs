//! Text of a problem: its variables and operations as the fields of a
//! structure, each named by its formula.
use vstd::prelude::*;
use vstd::string::{StrSliceExecFns, StringExecFns};

use crate::printing::{append_decimal, decimal};
use crate::problem::formula::Variable;
use crate::problem::operation::Operation;
use crate::problem::Problem;

verus! {

/// The text of a variable field: `#i: Variable { width: w }`.
pub open spec fn variable_field(index: nat, variable: Variable) -> Seq<char> {
    "#"@ + decimal(index) + ": Variable { width: "@ + decimal(variable.width as nat) + " }"@
}

/// The text of an operation field: `$i: ` and the operation.
pub open spec fn operation_field(index: nat, operation: Operation) -> Seq<char> {
    "$"@ + decimal(index) + ": "@ + operation.text()
}

/// The fields of the first `n` variables, each followed by `, `.
pub open spec fn variable_fields(variables: Seq<Variable>, n: nat) -> Seq<char>
    decreases n,
{
    if n == 0 {
        Seq::empty()
    } else {
        variable_fields(variables, (n - 1) as nat) + variable_field((n - 1) as nat, variables[n - 1]) + ", "@
    }
}

/// The fields of the first `n` operations, each followed by `, `.
pub open spec fn operation_fields(operations: Seq<Operation>, n: nat) -> Seq<char>
    decreases n,
{
    if n == 0 {
        Seq::empty()
    } else {
        operation_fields(operations, (n - 1) as nat) + operation_field((n - 1) as nat, operations[n - 1]) + ", "@
    }
}

impl Problem {
    /// The text of the problem: `Problem`, and where it has variables or
    /// operations, their fields in braces, separated by commas.
    pub open spec fn text(self) -> Seq<char> {
        let fields = variable_fields(self.variables@, self.variables@.len()) + operation_fields(
            self.operations@,
            self.operations@.len(),
        );
        if fields.len() == 0 {
            "Problem"@
        } else {
            "Problem { "@ + fields.subrange(0, fields.len() - 2) + " }"@
        }
    }

    /// Appends the text of the problem.
    pub fn write_text(&self, out: &mut String)
        requires
            forall|i: int| 0 <= i < self.operations@.len() ==> (#[trigger] self.operations@[i]).linear_wf(),
            forall|i: int|
                0 <= i < self.operations@.len() ==> (#[trigger] self.operations@[i] matches Operation::ExtractOp(op)
                    ==> op.width > 0),
        ensures
            final(out)@ == old(out)@ + self.text(),
    {
        let mut fields = String::new();
        let mut i: usize = 0;
        while i < self.variables.len()
            invariant
                0 <= i <= self.variables@.len(),
                fields@ == variable_fields(self.variables@, i as nat),
            decreases self.variables@.len() - i,
        {
            fields.append("#");
            append_decimal(&mut fields, i as u128);
            fields.append(": Variable { width: ");
            append_decimal(&mut fields, self.variables[i].width as u128);
            fields.append(" }");
            fields.append(", ");
            i = i + 1;
            proof {
                assert(fields@ =~= variable_fields(self.variables@, i as nat));
            }
        }
        let ghost variables_text = fields@;
        let mut j: usize = 0;
        while j < self.operations.len()
            invariant
                0 <= j <= self.operations@.len(),
                forall|k: int| 0 <= k < self.operations@.len() ==> (#[trigger] self.operations@[k]).linear_wf(),
                forall|k: int|
                    0 <= k < self.operations@.len() ==> (#[trigger] self.operations@[k] matches Operation::ExtractOp(op)
                        ==> op.width > 0),
                fields@ == variables_text + operation_fields(self.operations@, j as nat),
            decreases self.operations@.len() - j,
        {
            fields.append("$");
            append_decimal(&mut fields, j as u128);
            fields.append(": ");
            proof {
                assert(self.operations@[j as int].linear_wf());
            }
            self.operations[j].write_text(&mut fields);
            fields.append(", ");
            j = j + 1;
            proof {
                assert(fields@ =~= variables_text + operation_fields(self.operations@, j as nat));
            }
        }
        if fields.unicode_len() == 0 {
            out.append("Problem");
        } else {
            out.append("Problem { ");
            let n = fields.unicode_len();
            proof {
                reveal_strlit(", ");
                let vn = self.variables@.len();
                let on = self.operations@.len();
                if vn > 0 {
                    assert(variable_fields(self.variables@, vn) == variable_fields(self.variables@, (vn - 1) as nat)
                        + variable_field((vn - 1) as nat, self.variables@[vn - 1]) + ", "@);
                } else {
                    assert(variable_fields(self.variables@, 0) == Seq::<char>::empty());
                    assert(on > 0);
                    assert(operation_fields(self.operations@, on) == operation_fields(self.operations@, (on - 1) as nat)
                        + operation_field((on - 1) as nat, self.operations@[on - 1]) + ", "@);
                }
            }
            out.append(fields.as_str().substring_char(0, n - 2));
            out.append(" }");
        }
        proof {
            assert(final(out)@ =~= old(out)@ + self.text());
        }
    }
}

} // verus!
