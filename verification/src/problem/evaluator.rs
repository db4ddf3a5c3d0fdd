//! Evaluation of a problem's assertion on concrete values of its variables.
//!
//! The evaluator first marks the operations that the assertion depends on,
//! going down from the assertion, and then evaluates the marked operations
//! in order, each on the results of the earlier ones.
use vstd::prelude::*;

use crate::domain::bitvector::{modulus_u128, ConcreteBitvector, RBound};
use crate::problem::formula::{FormulaId, OperationId};
use crate::problem::operation::linear::{LinearOperation, LinearOperationType, LinearPolynomial, LinearSystem};
use crate::problem::operation::Operation;
use crate::problem::terms::lemma_terms_sum_agree;
use crate::problem::valuation::FormulaValues;
use crate::problem::Problem;

verus! {

impl FormulaValues {
    /// Every value known here is known, and the same, in the other values.
    pub open spec fn extended_by(self, other: FormulaValues) -> bool {
        forall|id: FormulaId| #[trigger] self.has(id) ==> other.has(id) && other.value(id) == self.value(id)
    }

    /// Whether the value of the formula is known.
    pub fn knows(&self, id: FormulaId) -> (r: bool)
        ensures
            r == self.has(id),
    {
        match id {
            FormulaId::Variable(v) => v.0 < self.variables.len(),
            FormulaId::Operation(o) => o.0 < self.operations.len() && self.operations[o.0].is_some(),
        }
    }
}

/// A polynomial that can be evaluated keeps its value on extended values.
pub proof fn lemma_polynomial_extended(p: LinearPolynomial, v1: FormulaValues, v2: FormulaValues)
    requires
        p.evaluable(v1),
        v1.extended_by(v2),
    ensures
        p.evaluable(v2),
        p.eval(v2.slice_values()) == p.eval(v1.slice_values()),
{
    let s = p.linear_terms@;
    assert forall|i: int| 0 <= i < s.len() implies v2.slice_values()(#[trigger] s[i].0) == v1.slice_values()(s[i].0) by {
        assert(v1.has(s[i].0.formula_id));
    }
    assert forall|i: int| 0 <= i < s.len() implies #[trigger] v2.has(s[i].0.formula_id) && (s[i].0.lsb == 0 || (
    s[i].0.lsb as nat) < v2.value(s[i].0.formula_id).modulus()) by {
        assert(v1.has(s[i].0.formula_id));
    }
    lemma_terms_sum_agree(s, v2.slice_values(), v1.slice_values());
}

/// A system that can be evaluated keeps whether it holds on extended values.
pub proof fn lemma_system_extended(system: LinearSystem, v1: FormulaValues, v2: FormulaValues)
    requires
        system.evaluable(v1),
        v1.extended_by(v2),
    ensures
        system.evaluable(v2),
        system.holds(v2.slice_values()) == system.holds(v1.slice_values()),
{
    let rs = system.relations();
    assert forall|i: int| 0 <= i < rs.len() implies (#[trigger] rs[i]).polynomial.evaluable(v2) && rs[i].holds(
        v2.slice_values(),
    ) == rs[i].holds(v1.slice_values()) by {
        lemma_polynomial_extended(rs[i].polynomial, v1, v2);
    }
    match system {
        LinearSystem::Single(relation) => {
            assert(rs[0] == relation);
        },
        LinearSystem::Conjunction(relations) => {
            assert(rs == relations@);
        },
        LinearSystem::Disjunction(relations) => {
            assert(rs == relations@);
            if system.holds(v1.slice_values()) {
                let i = choose|i: int| 0 <= i < relations@.len() && #[trigger] relations@[i].holds(v1.slice_values());
                assert(relations@[i].holds(v2.slice_values()));
            }
            if system.holds(v2.slice_values()) {
                let i = choose|i: int| 0 <= i < relations@.len() && #[trigger] relations@[i].holds(v2.slice_values());
                assert(relations@[i].holds(v1.slice_values()));
            }
        },
    }
}

/// An operation that can be evaluated keeps its result on extended values.
pub proof fn lemma_operation_extended(op: Operation, v1: FormulaValues, v2: FormulaValues)
    requires
        op.evaluable(v1),
        v1.extended_by(v2),
    ensures
        op.evaluable(v2),
        op.spec_value_width(v2) == op.spec_value_width(v1),
        op.spec_value(v2) == op.spec_value(v1),
{
    match op {
        Operation::Constant(_, _) => {},
        Operation::UniOp(u) => {
            assert(v1.has(u.inner));
        },
        Operation::BiOp(b) => {
            assert(v1.has(b.left));
            assert(v1.has(b.right));
        },
        Operation::ExtOp(e) => {
            assert(v1.has(e.inner));
        },
        Operation::IteOp(i) => {
            assert(v1.has(i.condition));
            assert(v1.has(i.formula_then));
            assert(v1.has(i.formula_else));
        },
        Operation::ConcatOp(c) => {
            assert(v1.has(c.left));
            assert(v1.has(c.right));
        },
        Operation::ExtractOp(x) => {
            assert(v1.has(x.inner));
        },
        Operation::Linear(linear) => {
            match linear.0 {
                LinearOperationType::Polynomial(p) => lemma_polynomial_extended(p, v1, v2),
                LinearOperationType::System(s) => lemma_system_extended(s, v1, v2),
            }
        },
    }
}

impl LinearPolynomial {
    /// Whether the polynomial can be evaluated on the values.
    pub fn can_evaluate(&self, values: &FormulaValues) -> (r: bool)
        requires
            values.wf(),
        ensures
            r == self.evaluable(*values),
    {
        let mut i: usize = 0;
        while i < self.linear_terms.len()
            invariant
                values.wf(),
                0 <= i <= self.linear_terms@.len(),
                forall|j: int|
                    0 <= j < i ==> #[trigger] values.has(self.linear_terms@[j].0.formula_id) && (
                    self.linear_terms@[j].0.lsb == 0 || (self.linear_terms@[j].0.lsb as nat) < values.value(
                        self.linear_terms@[j].0.formula_id,
                    ).modulus()),
            decreases self.linear_terms@.len() - i,
        {
            let slice = self.linear_terms[i].0;
            if !values.knows(slice.formula_id) {
                return false;
            }
            if slice.lsb != 0 {
                let value = values.fetch(slice.formula_id);
                if (slice.lsb as u128) >= modulus_u128(value.bound) {
                    return false;
                }
            }
            proof {
                assert(slice == self.linear_terms@[i as int].0);
                assert(values.has(self.linear_terms@[i as int].0.formula_id) && (self.linear_terms@[i as int].0.lsb == 0
                    || (self.linear_terms@[i as int].0.lsb as nat) < values.value(
                    self.linear_terms@[i as int].0.formula_id,
                ).modulus()));
                assert forall|j: int| 0 <= j < i + 1 implies #[trigger] values.has(self.linear_terms@[j].0.formula_id) && (
                    self.linear_terms@[j].0.lsb == 0 || (self.linear_terms@[j].0.lsb as nat) < values.value(
                        self.linear_terms@[j].0.formula_id,
                    ).modulus()) by {
                    if j == i {
                        assert(self.linear_terms@[j] == self.linear_terms@[i as int]);
                    }
                }
            }
            i = i + 1;
        }
        true
    }
}

impl LinearSystem {
    /// Whether every relation of the system can be evaluated on the values.
    pub fn can_evaluate(&self, values: &FormulaValues) -> (r: bool)
        requires
            values.wf(),
        ensures
            r == self.evaluable(*values),
    {
        match self {
            LinearSystem::Single(relation) => {
                assert(self.relations()[0] == *relation);
                relation.polynomial.can_evaluate(values)
            },
            LinearSystem::Conjunction(relations) | LinearSystem::Disjunction(relations) => {
                let mut i: usize = 0;
                while i < relations.len()
                    invariant
                        values.wf(),
                        relations@ == self.relations(),
                        0 <= i <= relations@.len(),
                        forall|j: int| 0 <= j < i ==> (#[trigger] relations@[j]).polynomial.evaluable(*values),
                    decreases relations@.len() - i,
                {
                    if !relations[i].polynomial.can_evaluate(values) {
                        return false;
                    }
                    i = i + 1;
                }
                true
            },
        }
    }
}

impl Operation {
    /// Whether the operation can be evaluated on the values (a linear
    /// operation being well-formed).
    pub fn can_evaluate(&self, values: &FormulaValues) -> (r: bool)
        requires
            values.wf(),
            self.linear_wf(),
        ensures
            r == self.evaluable(*values),
    {
        match self {
            Operation::Constant(value, width) => {
                if *width > 64 {
                    return false;
                }
                (*value as u128) < modulus_u128(RBound::new(*width))
            },
            Operation::UniOp(op) => values.knows(op.inner),
            Operation::BiOp(op) => {
                values.knows(op.left) && values.knows(op.right) && values.fetch(op.left).bound == values.fetch(
                    op.right,
                ).bound
            },
            Operation::ExtOp(op) => values.knows(op.inner) && op.output_width <= 64,
            Operation::IteOp(op) => {
                values.knows(op.condition) && values.knows(op.formula_then) && values.knows(op.formula_else)
                    && values.fetch(op.condition).bound.width == 1
            },
            Operation::ConcatOp(op) => {
                values.knows(op.left) && values.knows(op.right) && values.fetch(op.left).bound.width == op.left_width
                    && values.fetch(op.right).bound.width == op.right_width && (op.left_width as u64)
                    + (op.right_width as u64) <= 64
            },
            Operation::ExtractOp(op) => {
                values.knows(op.inner) && op.width > 0 && (op.lsb as u64) + (op.width as u64) <= values.fetch(
                    op.inner,
                ).bound.width as u64
            },
            Operation::Linear(linear) => match &linear.0 {
                LinearOperationType::Polynomial(polynomial) => polynomial.can_evaluate(values),
                LinearOperationType::System(system) => system.can_evaluate(values),
            },
        }
    }
}

impl Problem {
    /// The formula is a variable of the problem or an operation before the
    /// given index.
    pub open spec fn formula_before(self, id: FormulaId, index: int) -> bool {
        match id {
            FormulaId::Variable(v) => v.0 < self.variables@.len(),
            FormulaId::Operation(o) => o.0 < index,
        }
    }

    /// Every operation only uses variables and earlier operations, the
    /// linear operations are well-formed, and the assertion is a formula of
    /// the problem.
    pub open spec fn wf(self) -> bool {
        &&& forall|i: int, k: int|
            0 <= i < self.operations@.len() && 0 <= k < self.operations@[i].spec_used_ids().len() ==> self.formula_before(
                #[trigger] self.operations@[i].spec_used_ids()[k],
                i,
            )
        &&& forall|i: int| 0 <= i < self.operations@.len() ==> (#[trigger] self.operations@[i]).linear_wf()
        &&& self.formula_before(self.assertion, self.operations@.len() as int)
    }
}

/// Each known operation result is the result of the operation on the
/// values.
pub open spec fn values_consistent(operations: Seq<Operation>, values: FormulaValues) -> bool {
    &&& values.wf()
    &&& values.operations@.len() == operations.len()
    &&& forall|i: int|
        0 <= i < operations.len() && (#[trigger] values.operations@[i]) is Some ==> {
            let r = values.operations@[i]->Some_0;
            &&& operations[i].evaluable(values)
            &&& r.bound.width == operations[i].spec_value_width(values)
            &&& r.val() == operations[i].spec_value(values)
        }
}

/// Evaluator of a problem's assertion on concrete variable values.
pub struct Evaluator<'a> {
    pub problem: &'a Problem,
    /// The results of the operations of the last evaluation, by index.
    pub results: Vec<Option<ConcreteBitvector>>,
}

impl<'a> Evaluator<'a> {
    pub fn new(problem: &'a Problem) -> (r: Evaluator<'a>)
        ensures
            r.problem == problem,
            r.results@.len() == problem.operations@.len(),
            forall|i: int| 0 <= i < r.results@.len() ==> (#[trigger] r.results@[i]) is None,
    {
        Evaluator { problem, results: none_results(problem.operations.len()) }
    }

    pub fn problem(&self) -> (r: &'a Problem)
        ensures
            r == self.problem,
    {
        self.problem
    }

    /// The result of an operation in the last evaluation, if it was
    /// evaluated.
    pub fn get_operation_result_ref(&self, operation_id: OperationId) -> (r: Option<&ConcreteBitvector>)
        requires
            operation_id.0 < self.results@.len(),
        ensures
            r == match self.results@[operation_id.0 as int] {
                Some(v) => Some(&v),
                None => None::<&ConcreteBitvector>,
            },
    {
        match &self.results[operation_id.0] {
            Some(v) => Some(v),
            None => None,
        }
    }

    /// The result of an operation that the last evaluation computed.
    pub fn result(&self, operation_id: OperationId) -> (r: &ConcreteBitvector)
        requires
            operation_id.0 < self.results@.len(),
            self.results@[operation_id.0 as int] is Some,
        ensures
            Some(*r) == self.results@[operation_id.0 as int],
    {
        self.results[operation_id.0].as_ref().unwrap()
    }

    /// Marks the operations that the assertion depends on: the assertion's
    /// operation, and every operation that a marked operation uses.
    fn needed_operations(&self) -> (r: Vec<bool>)
        requires
            self.problem.wf(),
        ensures
            r@.len() == self.problem.operations@.len(),
            self.problem.assertion matches FormulaId::Operation(o) ==> r@[o.0 as int],
    {
        let n = self.problem.operations.len();
        let mut needed: Vec<bool> = Vec::new();
        let mut k: usize = 0;
        while k < n
            invariant
                0 <= k <= n,
                needed@.len() == k,
            decreases n - k,
        {
            needed.push(false);
            k = k + 1;
        }
        if let FormulaId::Operation(o) = self.problem.assertion {
            needed.set(o.0, true);
        }
        let mut i: usize = n;
        while i > 0
            invariant
                0 <= i <= n,
                n == self.problem.operations@.len(),
                needed@.len() == n,
                self.problem.wf(),
                self.problem.assertion matches FormulaId::Operation(o) ==> needed@[o.0 as int],
            decreases i,
        {
            i = i - 1;
            if needed[i] {
                let used = self.problem.operations[i].used_ids();
                let mut k: usize = 0;
                while k < used.len()
                    invariant
                        0 <= k <= used@.len(),
                        self.problem.wf(),
                        n == self.problem.operations@.len(),
                        needed@.len() == n,
                        self.problem.assertion matches FormulaId::Operation(o) ==> needed@[o.0 as int],
                    decreases used@.len() - k,
                {
                    if let FormulaId::Operation(o) = used[k] {
                        if o.0 < n {
                            needed.set(o.0, true);
                        }
                    }
                    k = k + 1;
                }
            }
        }
        needed
    }

    /// Evaluates the assertion on the given variable values: the
    /// operations the assertion depends on are evaluated in order, and
    /// their results kept. Where one of them cannot be evaluated on the
    /// results before it, nothing is returned.
    pub fn evaluate(&mut self, variables: &Vec<ConcreteBitvector>) -> (r: Option<ConcreteBitvector>)
        requires
            old(self).problem.wf(),
            variables@.len() == old(self).problem.variables@.len(),
            forall|i: int| 0 <= i < variables@.len() ==> (#[trigger] variables@[i]).wf(),
        ensures
            final(self).problem == old(self).problem,
            values_consistent(
                final(self).problem.operations@,
                FormulaValues { variables: *variables, operations: final(self).results },
            ),
            r matches Some(v) ==> {
                let values = FormulaValues { variables: *variables, operations: final(self).results };
                values.has(final(self).problem.assertion) && v == values.value(final(self).problem.assertion)
            },
            r is None ==> exists|i: int|
                0 <= i < final(self).problem.operations@.len() && #[trigger] final(self).results@[i] is None
                    && !final(self).problem.operations@[i].evaluable(
                    FormulaValues { variables: *variables, operations: final(self).results },
                ),
    {
        let problem = self.problem;
        let n = problem.operations.len();
        let needed = self.needed_operations();
        let mut values = FormulaValues { variables: copy_values(variables), operations: none_results(n) };
        let mut i: usize = 0;
        while i < n
            invariant
                problem == self.problem,
                problem == old(self).problem,
                problem.wf(),
                n == problem.operations@.len(),
                needed@.len() == n,
                problem.assertion matches FormulaId::Operation(o) ==> needed@[o.0 as int],
                0 <= i <= n,
                values.variables@ == variables@,
                values_consistent(problem.operations@, values),
                forall|j: int| i <= j < n ==> (#[trigger] values.operations@[j]) is None,
                forall|j: int| 0 <= j < i && needed@[j] ==> (#[trigger] values.operations@[j]) is Some,
            decreases n - i,
        {
            if needed[i] {
                let operation = &problem.operations[i];
                proof {
                    assert(operation.linear_wf());
                }
                if !operation.can_evaluate(&values) {
                    let ghost before = values;
                    self.results = values.operations;
                    proof {
                        let after = FormulaValues { variables: *variables, operations: self.results };
                        lemma_same_views_consistent(problem.operations@, before, after);
                        if problem.operations@[i as int].evaluable(after) {
                            lemma_operation_extended(problem.operations@[i as int], after, before);
                        }
                        assert(self.results@[i as int] is None);
                    }
                    return None;
                }
                let result = operation.evaluate(&values);
                let ghost before = values;
                values.operations.set(i, Some(result));
                proof {
                    assert forall|id: FormulaId| #[trigger] before.has(id) implies values.has(id) && values.value(id)
                        == before.value(id) by {
                        if let FormulaId::Operation(o) = id {
                            assert(o.0 != i);
                        }
                    }
                    assert forall|j: int|
                        0 <= j < n && (#[trigger] values.operations@[j]) is Some implies {
                        let r = values.operations@[j]->Some_0;
                        &&& problem.operations@[j].evaluable(values)
                        &&& r.bound.width == problem.operations@[j].spec_value_width(values)
                        &&& r.val() == problem.operations@[j].spec_value(values)
                    } by {
                        if j != i {
                            assert(before.operations@[j] is Some);
                        }
                        lemma_operation_extended(problem.operations@[j], before, values);
                    }
                    assert(values.wf());
                }
            }
            i = i + 1;
        }
        let r = match problem.assertion {
            FormulaId::Variable(v) => Some(values.variables[v.0]),
            FormulaId::Operation(o) => values.operations[o.0],
        };
        let ghost before = values;
        self.results = values.operations;
        proof {
            lemma_same_views_consistent(problem.operations@, before, FormulaValues { variables: *variables, operations: self.results });
        }
        r
    }
}

/// Consistency only depends on the views of the values.
proof fn lemma_same_views_consistent(operations: Seq<Operation>, v1: FormulaValues, v2: FormulaValues)
    requires
        values_consistent(operations, v1),
        v1.variables@ == v2.variables@,
        v1.operations@ == v2.operations@,
    ensures
        values_consistent(operations, v2),
        v1.extended_by(v2),
        v2.extended_by(v1),
{
    assert forall|j: int|
        0 <= j < operations.len() && (#[trigger] v2.operations@[j]) is Some implies {
        let r = v2.operations@[j]->Some_0;
        &&& operations[j].evaluable(v2)
        &&& r.bound.width == operations[j].spec_value_width(v2)
        &&& r.val() == operations[j].spec_value(v2)
    } by {
        assert(v1.operations@[j] is Some);
        lemma_operation_extended(operations[j], v1, v2);
    }
}

/// `n` unknown results.
fn none_results(n: usize) -> (r: Vec<Option<ConcreteBitvector>>)
    ensures
        r@.len() == n,
        forall|i: int| 0 <= i < n ==> (#[trigger] r@[i]) is None,
{
    let mut r: Vec<Option<ConcreteBitvector>> = Vec::new();
    let mut k: usize = 0;
    while k < n
        invariant
            0 <= k <= n,
            r@.len() == k,
            forall|i: int| 0 <= i < k ==> (#[trigger] r@[i]) is None,
        decreases n - k,
    {
        r.push(None);
        k = k + 1;
    }
    r
}

/// A copy of the values.
fn copy_values(values: &Vec<ConcreteBitvector>) -> (r: Vec<ConcreteBitvector>)
    ensures
        r@ == values@,
{
    let mut r: Vec<ConcreteBitvector> = Vec::new();
    let mut k: usize = 0;
    while k < values.len()
        invariant
            0 <= k <= values@.len(),
            r@ == values@.take(k as int),
        decreases values@.len() - k,
    {
        r.push(values[k]);
        k = k + 1;
        proof {
            assert(r@ =~= values@.take(k as int));
        }
    }
    proof {
        assert(values@.take(values@.len() as int) =~= values@);
    }
    r
}

} // verus!
