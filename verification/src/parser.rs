//! Parsing of SMT-LIB-2 commands into problems.
//!
//! The parser declares variables, builds the operations of asserted terms
//! and, at each check-sat, puts the conjunction of the assertions into a
//! problem for the solver. Only simple parsing without pushing and popping
//! of assertion scopes is done.
use vstd::arithmetic::power2::pow2;
use vstd::prelude::*;

use crate::domain::value::three_valued::ThreeValued;
use crate::problem::formula::{FormulaId, OperationId, Variable, VariableId};
use crate::problem::operation::{BiOp, BiOperator, Operation};
use crate::problem::evaluator::values_consistent;
use crate::problem::valuation::FormulaValues;
use crate::problem::Problem;

pub mod input;
pub mod model;
pub mod names;
pub mod operation;
pub mod stack;
pub mod syntax;
pub mod text;

use model::{
    add_op, conjunction_formula, conjunction_operations, binary_prefix_value, binding_names, compile_constant, compile_identifier, compile_term, extends,
    id_valid, index_numeral, lemma_add_op_wf, lemma_binary_prefix_bits, lemma_conjunction_value, lemma_compile_term, lemma_lookup_found, lookup, model_wf, parse_u64,
    pop_scope, push_scope, bind_names, ParseError, ParserModel,
};
use names::Scope;
use operation::numeral_of;
use stack::{lemma_expand_application, lemma_expand_let, rev_binding_terms, rev_terms, run_stack, stack_weight, ReversePolishElement};
use syntax::{SmtAttributeValue, SmtCommand, SmtConstant, SmtIdentifier, SmtIndex, SmtQualIdentifier, SmtSort, SmtTerm};
use text::{parse_u64_from, starts_with_bv, text_equal};

verus! {

/// The result of parsing a file.
#[derive(Clone, Copy, Debug, PartialEq, Eq, Structural)]
pub enum ParserResult {
    /// Not exactly one check-sat.
    NoResult,
    Unknown,
    /// Satisfiable (`true`) or unsatisfiable (`false`).
    Known(bool),
    /// A result that differs from the status the file gives.
    Wrong(bool),
}

/// What is to be done after a command.
#[derive(Debug)]
pub enum ParseStep {
    /// Go on with the next command.
    Continue,
    /// Stop parsing.
    Exit,
    /// Solve the problem of the assertions so far; `None` where there are
    /// no assertions.
    CheckSat(Option<Problem>),
}

/// The parser: binding scopes (the global one first), variables,
/// operations, assertions, the results of check-sat calls and the result
/// that the file expects.
pub struct Parser {
    pub scopes: Vec<Scope>,
    pub variables: Vec<Variable>,
    pub operations: Vec<Operation>,
    pub assertions: Vec<FormulaId>,
    pub results: Vec<ParserResult>,
    pub expected_result: Option<bool>,
}

impl Parser {
    /// The variables, operations and scopes of the parser.
    pub open spec fn model(self) -> ParserModel {
        ParserModel {
            variables: self.variables@,
            operations: self.operations@,
            scopes: self.scopes@.map_values(|s: Scope| s.view()),
        }
    }

    /// The model is consistent, there is a global scope, and the assertions
    /// are valid formulas.
    pub open spec fn wf(self) -> bool {
        &&& model_wf(self.model())
        &&& self.scopes@.len() >= 1
        &&& forall|i: int| 0 <= i < self.assertions@.len() ==> id_valid(self.model(), #[trigger] self.assertions@[i])
    }

    /// A parser without declarations, with one empty scope.
    pub fn new() -> (r: Parser)
        ensures
            r.wf(),
            r.model().variables.len() == 0,
            r.model().operations.len() == 0,
            r.model().scopes == seq![Map::<Seq<char>, FormulaId>::empty()],
            r.assertions@.len() == 0,
            r.results@.len() == 0,
            r.expected_result is None,
    {
        let mut scopes: Vec<Scope> = Vec::new();
        scopes.push(Scope::new());
        let r = Parser {
            scopes,
            variables: Vec::new(),
            operations: Vec::new(),
            assertions: Vec::new(),
            results: Vec::new(),
            expected_result: None,
        };
        proof {
            assert(r.model().scopes =~= seq![Map::<Seq<char>, FormulaId>::empty()]);
        }
        r
    }

    /// Adds an operation and gives its formula.
    fn add_operation(&mut self, operation: Operation) -> (r: FormulaId)
        ensures
            final(self).model() == add_op(old(self).model(), operation).0,
            r == add_op(old(self).model(), operation).1,
            final(self).scopes@ == old(self).scopes@,
            final(self).assertions@ == old(self).assertions@,
            final(self).results@ == old(self).results@,
            final(self).expected_result == old(self).expected_result,
    {
        self.operations.push(operation);
        proof {
            assert(self.model().scopes =~= old(self).model().scopes);
        }
        FormulaId::Operation(OperationId(self.operations.len() - 1))
    }

    /// The formula a name is bound to in the innermost scope binding it.
    pub fn find_by_name(&self, name: &str) -> (r: Option<FormulaId>)
        ensures
            r == lookup(self.model().scopes, name@),
    {
        let ghost scopes = self.model().scopes;
        proof {
            assert(scopes.take(scopes.len() as int) =~= scopes);
        }
        let mut i = self.scopes.len();
        while i > 0
            invariant
                i <= self.scopes@.len(),
                scopes == self.model().scopes,
                lookup(scopes, name@) == lookup(scopes.take(i as int), name@),
            decreases i,
        {
            let found = self.scopes[i - 1].get(name);
            proof {
                let t = scopes.take(i as int);
                assert(t.drop_last() =~= scopes.take(i - 1));
                assert(t.last() == self.scopes@[i - 1].view());
            }
            if found.is_some() {
                return found;
            }
            i = i - 1;
        }
        proof {
            assert(scopes.take(0).len() == 0);
        }
        None
    }

    /// The formula of an identifier: a bound name, `true` or `false`, or a
    /// bit-vector constant `(_ bvN w)`.
    pub fn create_formula_from_identifier(&mut self, identifier: SmtIdentifier) -> (r: Result<FormulaId, ParseError>)
        requires
            model_wf(old(self).model()),
        ensures
            match compile_identifier(identifier, old(self).model()) {
                Ok((m, id)) => r == Ok::<FormulaId, ParseError>(id) && final(self).model() == m,
                Err(e) => r == Err::<FormulaId, ParseError>(e),
            },
            final(self).scopes@ == old(self).scopes@,
            final(self).assertions@ == old(self).assertions@,
            final(self).results@ == old(self).results@,
            final(self).expected_result == old(self).expected_result,
    {
        match identifier {
            SmtIdentifier::Simple { symbol } => {
                let name = symbol.as_str();
                if let Some(id) = self.find_by_name(name) {
                    Ok(id)
                } else if text_equal(name, "false") {
                    Ok(self.add_operation(Operation::Constant(0, 1)))
                } else if text_equal(name, "true") {
                    Ok(self.add_operation(Operation::Constant(1, 1)))
                } else {
                    Err(ParseError::UnknownIdentifier)
                }
            },
            SmtIdentifier::Indexed { symbol, indices } => {
                // only bit-vector constants are indexed identifiers here
                if !starts_with_bv(symbol.as_str()) {
                    return Err(ParseError::UnsupportedIndexedIdentifier);
                }
                let value = match parse_u64_from(symbol.as_str(), 2) {
                    Some(value) => value,
                    None => return Err(ParseError::BitvectorConstantValue),
                };
                if indices.len() != 1 {
                    return Err(ParseError::IndexCount);
                }
                let width = match numeral_of(&indices[0]) {
                    Ok(width) => width,
                    Err(e) => return Err(e),
                };
                Ok(self.add_operation(Operation::Constant(value, width)))
            },
        }
    }

    /// The formula of a binary constant.
    fn create_binary_constant(&mut self, bits: Vec<bool>) -> (r: Result<FormulaId, ParseError>)
        ensures
            match compile_constant(SmtConstant::Binary(bits), old(self).model()) {
                Ok((m, id)) => r == Ok::<FormulaId, ParseError>(id) && final(self).model() == m,
                Err(e) => r == Err::<FormulaId, ParseError>(e),
            },
            r is Ok ==> (final(self).model().operations.last() matches Operation::Constant(v, w) && w == bits@.len() && (
            v as nat) < pow2(w as nat) && forall|i: int|
                0 <= i < bits@.len() ==> ((v as nat) / pow2((bits@.len() - 1 - i) as nat)) % 2 == (if #[trigger] bits@[i] {
                    1nat
                } else {
                    0nat
                })),
            final(self).scopes@ == old(self).scopes@,
            final(self).assertions@ == old(self).assertions@,
            final(self).results@ == old(self).results@,
            final(self).expected_result == old(self).expected_result,
    {
        proof {
            lemma_binary_prefix_bits(bits@, bits@.len());
        }
        let mut value: u64 = 0;
        let mut i: usize = 0;
        while i < bits.len()
            invariant
                0 <= i <= bits@.len(),
                binary_prefix_value(bits@, i as nat) == Some(value),
            decreases bits@.len() - i,
        {
            let doubled = match value.checked_mul(2) {
                Some(doubled) => doubled,
                None => {
                    proof {
                        lemma_binary_overflow_stays(bits@, (i + 1) as nat, bits@.len());
                    }
                    return Err(ParseError::BinaryConstantTooBig);
                },
            };
            value = doubled + if bits[i] {
                1
            } else {
                0
            };
            i = i + 1;
        }
        if bits.len() > u32::MAX as usize {
            return Err(ParseError::BinaryConstantWidthTooBig);
        }
        Ok(self.add_operation(Operation::Constant(value, bits.len() as u32)))
    }

    /// Builds a term that gives a formula at once; pushes the elements of an
    /// application or a let onto the stack and gives no formula.
    fn create_formula_inner(&mut self, term: SmtTerm, op_stack: &mut Vec<ReversePolishElement>) -> (r: Result<
        Option<FormulaId>,
        ParseError,
    >)
        requires
            model_wf(old(self).model()),
        ensures
            match r {
                Ok(Some(id)) => {
                    &&& compile_term(term, old(self).model()) == Ok::<(ParserModel, FormulaId), ParseError>(
                        (final(self).model(), id),
                    )
                    &&& final(op_stack)@ == old(op_stack)@
                },
                Ok(None) => {
                    &&& final(self).model() == old(self).model()
                    &&& forall|m: ParserModel, vals: Seq<FormulaId>|
                        #[trigger] run_stack(final(op_stack)@, m, vals) == run_stack(
                            old(op_stack)@.push(ReversePolishElement::Term(term)),
                            m,
                            vals,
                        )
                    &&& stack_weight(final(op_stack)@) < stack_weight(
                        old(op_stack)@.push(ReversePolishElement::Term(term)),
                    )
                },
                Err(e) => compile_term(term, old(self).model()) == Err::<(ParserModel, FormulaId), ParseError>(e),
            },
            term matches SmtTerm::Application { qual_identifier, arguments } ==> {
                &&& r == Ok::<Option<FormulaId>, ParseError>(None)
                &&& final(op_stack)@ == old(op_stack)@.push(
                    ReversePolishElement::Application(qual_identifier, arguments@.len() as usize),
                ) + rev_terms(arguments@)
            },
            term matches SmtTerm::Let { var_bindings, term: body } ==> {
                let n = old(op_stack)@.len() as int;
                &&& r == Ok::<Option<FormulaId>, ParseError>(None)
                &&& final(op_stack)@.len() == n + 3 + var_bindings@.len()
                &&& final(op_stack)@.take(n) == old(op_stack)@
                &&& final(op_stack)@[n] == ReversePolishElement::LetEnd
                &&& final(op_stack)@[n + 1] == ReversePolishElement::Term(*body)
                &&& final(op_stack)@[n + 2] matches ReversePolishElement::LetStart(names) && names@ == binding_names(
                    var_bindings@,
                )
                &&& final(op_stack)@.skip(n + 3) == rev_binding_terms(var_bindings@)
            },
            final(self).scopes@ == old(self).scopes@,
            final(self).assertions@ == old(self).assertions@,
            final(self).results@ == old(self).results@,
            final(self).expected_result == old(self).expected_result,
    {
        let ghost t = term;
        let ghost rest = op_stack@;
        match term {
            SmtTerm::Constant(constant) => match constant {
                SmtConstant::Binary(bits) => match self.create_binary_constant(bits) {
                    Ok(id) => Ok(Some(id)),
                    Err(e) => Err(e),
                },
                SmtConstant::Text => Err(ParseError::StringConstant),
                _ => Err(ParseError::UnsupportedConstant),
            },
            SmtTerm::QualIdentifier(qual_identifier) => match qual_identifier {
                SmtQualIdentifier::Simple { identifier } => match self.create_formula_from_identifier(identifier) {
                    Ok(id) => Ok(Some(id)),
                    Err(e) => Err(e),
                },
                SmtQualIdentifier::Sorted { .. } => Err(ParseError::SortedIdentifier),
            },
            SmtTerm::Application { qual_identifier, arguments } => {
                // the application first, then its arguments in reverse
                // order, so that the first argument is built first
                let ghost args = arguments@;
                let n = arguments.len();
                op_stack.push(ReversePolishElement::Application(qual_identifier, n));
                let ghost base = op_stack@;
                let mut arguments = arguments;
                while arguments.len() > 0
                    invariant
                        arguments@ == args.take(arguments@.len() as int),
                        arguments@.len() <= args.len(),
                        op_stack@ == base + rev_terms(args.skip(arguments@.len() as int)),
                    decreases arguments@.len(),
                {
                    let ghost k: int = arguments@.len() as int;
                    let argument = arguments.pop().unwrap();
                    op_stack.push(ReversePolishElement::Term(argument));
                    proof {
                        assert(arguments@ =~= args.take(k - 1));
                        assert(rev_terms(args.skip(k - 1)) =~= rev_terms(args.skip(k as int)).push(
                            ReversePolishElement::Term(args[k - 1]),
                        ));
                    }
                }
                proof {
                    assert(args.skip(0) =~= args);
                    assert forall|m: ParserModel, vals: Seq<FormulaId>|
                        #[trigger] run_stack(op_stack@, m, vals) == run_stack(
                            rest.push(ReversePolishElement::Term(t)),
                            m,
                            vals,
                        ) by {
                        lemma_expand_application(rest, qual_identifier, args, t, m, vals);
                    }
                    lemma_expand_application(rest, qual_identifier, args, t, self.model(), Seq::empty());
                }
                Ok(None)
            },
            SmtTerm::Let { var_bindings, term } => {
                // the end of the scope, the body, the start of the scope,
                // then the binding terms in reverse order
                let ghost bs = var_bindings@;
                let ghost body = *term;
                let mut var_bindings = var_bindings;
                let mut names: Vec<String> = Vec::new();
                let mut terms: Vec<SmtTerm> = Vec::new();
                while var_bindings.len() > 0
                    invariant
                        var_bindings@ == bs.take(var_bindings@.len() as int),
                        var_bindings@.len() <= bs.len(),
                        names@ == binding_names(bs.skip(var_bindings@.len() as int)),
                        terms@.len() == bs.len() - var_bindings@.len(),
                        forall|j: int|
                            0 <= j < terms@.len() ==> #[trigger] terms@[j] == bs[bs.len() - 1 - j].1,
                    decreases var_bindings@.len(),
                {
                    let ghost k: int = var_bindings@.len() as int;
                    let (name, binding_term) = var_bindings.pop().unwrap();
                    names.insert(0, name);
                    terms.push(binding_term);
                    proof {
                        assert(var_bindings@ =~= bs.take(k - 1));
                        assert(names@ =~= binding_names(bs.skip(k - 1)));
                    }
                }
                proof {
                    assert(bs.skip(0) =~= bs);
                }
                op_stack.push(ReversePolishElement::LetEnd);
                op_stack.push(ReversePolishElement::Term(*term));
                let ghost names_view = names@;
                op_stack.push(ReversePolishElement::LetStart(names));
                let ghost base = op_stack@;
                let mut i: usize = 0;
                let n = terms.len();
                let mut terms = terms;
                while terms.len() > 0
                    invariant
                        n == bs.len(),
                        terms@.len() + i == n,
                        forall|j: int| 0 <= j < terms@.len() ==> #[trigger] terms@[j] == bs[bs.len() - 1 - i - j].1,
                        op_stack@ == base + rev_binding_terms(bs).take(i as int),
                    decreases terms@.len(),
                {
                    let ghost old_terms = terms@;
                    let binding_term = terms.remove(0);
                    op_stack.push(ReversePolishElement::Term(binding_term));
                    proof {
                        assert(binding_term == bs[bs.len() - 1 - i].1);
                        assert(rev_binding_terms(bs).take(i + 1) =~= rev_binding_terms(bs).take(i as int).push(
                            ReversePolishElement::Term(bs[bs.len() - 1 - i].1),
                        ));
                        assert forall|j: int| 0 <= j < terms@.len() implies #[trigger] terms@[j] == bs[bs.len() - 1 - (i + 1) - j].1 by {
                            assert(terms@[j] == old_terms[j + 1]);
                        }
                    }
                    i = i + 1;
                }
                proof {
                    assert(rev_binding_terms(bs).take(n as int) =~= rev_binding_terms(bs));
                    assert(op_stack@.take(rest.len() as int) =~= rest);
                    assert(op_stack@.skip(rest.len() as int + 3) =~= rev_binding_terms(bs));
                    assert(op_stack@[rest.len() as int + 2] matches ReversePolishElement::LetStart(ns) && ns@ == names_view);
                    let last = op_stack@[base.len() - 1];
                    assert forall|m: ParserModel, vals: Seq<FormulaId>|
                        #[trigger] run_stack(op_stack@, m, vals) == run_stack(
                            rest.push(ReversePolishElement::Term(t)),
                            m,
                            vals,
                        ) by {
                        if let ReversePolishElement::LetStart(names) = last {
                            assert(base == rest.push(ReversePolishElement::LetEnd).push(ReversePolishElement::Term(body)).push(
                                ReversePolishElement::LetStart(names),
                            ));
                            lemma_expand_let(rest, names, bs, body, t, m, vals);
                        }
                    }
                    if let ReversePolishElement::LetStart(names) = last {
                        lemma_expand_let(rest, names, bs, body, t, self.model(), Seq::empty());
                    }
                }
                Ok(None)
            },
            SmtTerm::Forall | SmtTerm::Exists => Err(ParseError::Quantifier),
            SmtTerm::Match => Err(ParseError::MatchTerm),
            SmtTerm::Attributes => Err(ParseError::AttributedTerm),
        }
    }

    /// Builds the formula of a term, without recursion: an evaluation stack
    /// holds the terms still to build and the applications and let scopes
    /// waiting for their argument values, which a value stack holds.
    pub fn create_formula(&mut self, term: SmtTerm) -> (r: Result<FormulaId, ParseError>)
        requires
            old(self).wf(),
        ensures
            match compile_term(term, old(self).model()) {
                Ok((m, id)) => r == Ok::<FormulaId, ParseError>(id) && final(self).model() == m,
                Err(e) => r == Err::<FormulaId, ParseError>(e),
            },
            r is Ok ==> final(self).wf() && extends(old(self).model(), final(self).model()),
            final(self).assertions@ == old(self).assertions@,
            final(self).results@ == old(self).results@,
            final(self).expected_result == old(self).expected_result,
    {
        let ghost m0 = self.model();
        let ghost target = run_stack(seq![ReversePolishElement::Term(term)], m0, Seq::empty());
        proof {
            let s = seq![ReversePolishElement::Term(term)];
            assert(s.drop_last() =~= Seq::<ReversePolishElement>::empty());
            assert(s.last() == ReversePolishElement::Term(term));
            lemma_compile_term(term, m0);
            match compile_term(term, m0) {
                Ok((m1, id)) => {
                    assert(Seq::<FormulaId>::empty().push(id) =~= seq![id]);
                    assert(target == run_stack(s.drop_last(), m1, Seq::<FormulaId>::empty().push(id)));
                },
                Err(e) => {
                    assert(target == Err::<(ParserModel, Seq<FormulaId>), ParseError>(e));
                },
            }
        }
        let mut op_stack: Vec<ReversePolishElement> = Vec::new();
        op_stack.push(ReversePolishElement::Term(term));
        let mut value_stack: Vec<FormulaId> = Vec::new();
        proof {
            assert(op_stack@ =~= seq![ReversePolishElement::Term(term)]);
            assert(value_stack@ =~= Seq::<FormulaId>::empty());
        }
        while op_stack.len() > 0
            invariant
                run_stack(op_stack@, self.model(), value_stack@) == target,
                m0 == old(self).model(),
                target == match compile_term(term, m0) {
                    Ok((m, id)) => Ok((m, seq![id])),
                    Err(e) => Err(e),
                },
                model_wf(self.model()),
                self.model().variables == m0.variables,
                m0.operations.len() <= self.model().operations.len(),
                forall|i: int| 0 <= i < value_stack@.len() ==> id_valid(self.model(), #[trigger] value_stack@[i]),
                self.assertions@ == old(self).assertions@,
                self.results@ == old(self).results@,
                self.expected_result == old(self).expected_result,
                forall|i: int| 0 <= i < self.assertions@.len() ==> id_valid(m0, #[trigger] self.assertions@[i]),
            decreases stack_weight(op_stack@),
        {
            let ghost before_stack = op_stack@;
            let ghost m = self.model();
            let ghost vals = value_stack@;
            let element = op_stack.pop().unwrap();
            proof {
                assert(before_stack == op_stack@.push(element));
                assert(before_stack.drop_last() =~= op_stack@);
                assert(before_stack.last() == element);
            }
            match element {
                ReversePolishElement::Term(t) => {
                    let ghost rest = op_stack@;
                    match self.create_formula_inner(t, &mut op_stack) {
                        Ok(Some(id)) => {
                            proof {
                                lemma_compile_term(t, m);
                            }
                            value_stack.push(id);
                        },
                        Ok(None) => {
                            proof {
                                assert(run_stack(op_stack@, m, vals) == run_stack(rest.push(ReversePolishElement::Term(t)), m, vals));
                            }
                        },
                        Err(e) => {
                            proof {
                                assert(run_stack(before_stack, m, vals) == Err::<(ParserModel, Seq<FormulaId>), ParseError>(e));
                            }
                            return Err(e);
                        },
                    }
                },
                ReversePolishElement::Application(qual_identifier, num_arguments) => {
                    if num_arguments > value_stack.len() {
                        proof {
                            assert(run_stack(before_stack, m, vals) == Err::<(ParserModel, Seq<FormulaId>), ParseError>(ParseError::EvaluationStack));
                        }
                        return Err(ParseError::EvaluationStack);
                    }
                    let split = value_stack.len() - num_arguments;
                    let arguments = value_stack.split_off(split);
                    proof {
                        assert(arguments@ =~= vals.subrange(split as int, vals.len() as int));
                        assert(value_stack@ =~= vals.subrange(0, split as int));
                    }
                    match self.create_formula_from_application(qual_identifier, arguments) {
                        Ok(id) => {
                            value_stack.push(id);
                        },
                        Err(e) => {
                            return Err(e);
                        },
                    }
                },
                ReversePolishElement::LetStart(names) => {
                    if names.len() > value_stack.len() {
                        return Err(ParseError::EvaluationStack);
                    }
                    let split = value_stack.len() - names.len();
                    let values = value_stack.split_off(split);
                    proof {
                        assert(values@ =~= vals.subrange(split as int, vals.len() as int));
                        assert(value_stack@ =~= vals.subrange(0, split as int));
                    }
                    let mut new_scope = Scope::new();
                    let mut i: usize = 0;
                    while i < names.len()
                        invariant
                            0 <= i <= names@.len(),
                            values@.len() == names@.len(),
                            new_scope.view() == bind_names(names@.take(i as int), values@.take(i as int)),
                        decreases names@.len() - i,
                    {
                        let name = names[i].clone();
                        new_scope.insert(name, values[i]);
                        proof {
                            let nt = names@.take(i + 1);
                            let vt = values@.take(i + 1);
                            assert(nt.drop_last() =~= names@.take(i as int));
                            assert(vt.drop_last() =~= values@.take(i as int));
                        }
                        i = i + 1;
                    }
                    proof {
                        assert(names@.take(names@.len() as int) =~= names@);
                        assert(values@.take(values@.len() as int) =~= values@);
                        lemma_bind_scope_valid(names@, values@, self.model());
                    }
                    self.scopes.push(new_scope);
                    proof {
                        assert(self.model().scopes =~= m.scopes.push(bind_names(names@, values@)));
                        assert(self.model() == push_scope(m, bind_names(names@, values@)));
                    }
                },
                ReversePolishElement::LetEnd => {
                    let _ = self.scopes.pop();
                    proof {
                        assert(self.model().scopes =~= pop_scope(m).scopes);
                        assert(self.model() == pop_scope(m));
                    }
                },
            }
        }
        proof {
            assert(run_stack(op_stack@, self.model(), value_stack@) == Ok::<(ParserModel, Seq<FormulaId>), ParseError>((self.model(), value_stack@)));
        }
        if value_stack.len() != 1 {
            return Err(ParseError::EvaluationStack);
        }
        proof {
            if let Ok((m, id)) = compile_term(term, m0) {
                assert forall|i: int| 0 <= i < self.assertions@.len() implies id_valid(self.model(), #[trigger] self.assertions@[i]) by {
                    assert(id_valid(m0, self.assertions@[i]));
                }
                assert(self.scopes@.len() == self.model().scopes.len());
                assert(old(self).scopes@.len() == m0.scopes.len());
            }
        }
        Ok(value_stack[0])
    }

    /// Carries out one command: an assertion builds its formula and adds it
    /// to the assertions, a declaration declares a variable, a status sets
    /// the expected result, check-sat hands out the problem of the
    /// assertions, exit stops parsing; other commands are refused.
    pub fn parse_command(&mut self, command: SmtCommand) -> (r: Result<ParseStep, ParseError>)
        requires
            old(self).wf(),
        ensures
            r is Ok ==> final(self).wf(),
            final(self).results@ == old(self).results@,
            match command {
                SmtCommand::Assert { term } => match compile_term(term, old(self).model()) {
                    Ok((m, id)) => r == Ok::<ParseStep, ParseError>(ParseStep::Continue) && final(self).model() == m
                        && final(self).assertions@ == old(self).assertions@.push(id)
                        && final(self).expected_result == old(self).expected_result,
                    Err(e) => r == Err::<ParseStep, ParseError>(e),
                },
                SmtCommand::CheckSat => (r matches Ok(ParseStep::CheckSat(p)) && (p is None <==> old(self).assertions@.len() == 0)
                    && (p matches Some(p) ==> p.variables@ == final(self).variables@ && p.operations@
                    == final(self).operations@ && p.assertion == conjunction_formula(
                    old(self).assertions@,
                    old(self).assertions@.len(),
                    old(self).operations@.len(),
                ))) && final(self).model().operations == old(self).model().operations + conjunction_operations(
                    old(self).assertions@,
                    old(self).assertions@.len(),
                    old(self).operations@.len(),
                ) && final(self).model().variables == old(self).model().variables
                    && final(self).model().scopes == old(self).model().scopes
                    && final(self).assertions@ == old(self).assertions@
                    && final(self).expected_result == old(self).expected_result,
                SmtCommand::DeclareConst { symbol, sort } => match model::declare(symbol@, 0, sort, old(self).model()) {
                    Ok(m) => r == Ok::<ParseStep, ParseError>(ParseStep::Continue) && final(self).model() == m
                        && final(self).assertions@ == old(self).assertions@
                        && final(self).expected_result == old(self).expected_result,
                    Err(e) => r == Err::<ParseStep, ParseError>(e),
                },
                SmtCommand::DeclareFun { symbol, parameters, sort } => match model::declare(
                    symbol@,
                    parameters@.len(),
                    sort,
                    old(self).model(),
                ) {
                    Ok(m) => r == Ok::<ParseStep, ParseError>(ParseStep::Continue) && final(self).model() == m
                        && final(self).assertions@ == old(self).assertions@
                        && final(self).expected_result == old(self).expected_result,
                    Err(e) => r == Err::<ParseStep, ParseError>(e),
                },
                SmtCommand::Exit => r == Ok::<ParseStep, ParseError>(ParseStep::Exit) && final(self).model() == old(self).model()
                    && final(self).assertions@ == old(self).assertions@
                    && final(self).expected_result == old(self).expected_result,
                SmtCommand::SetInfo { keyword, value } => if keyword@ == "status"@ {
                    match status_expectation(value) {
                        Ok(expected) => r == Ok::<ParseStep, ParseError>(ParseStep::Continue) && final(self).model()
                            == old(self).model() && final(self).assertions@ == old(self).assertions@
                            && final(self).expected_result == expected,
                        Err(e) => r == Err::<ParseStep, ParseError>(e),
                    }
                } else {
                    r == Ok::<ParseStep, ParseError>(ParseStep::Continue) && final(self).model() == old(self).model()
                        && final(self).assertions@ == old(self).assertions@
                        && final(self).expected_result == old(self).expected_result
                },
                SmtCommand::SetLogic { symbol } => if symbol@ == "QF_BV"@ {
                    r == Ok::<ParseStep, ParseError>(ParseStep::Continue) && final(self).model() == old(self).model()
                        && final(self).assertions@ == old(self).assertions@
                        && final(self).expected_result == old(self).expected_result
                } else {
                    r == Err::<ParseStep, ParseError>(ParseError::UnsupportedLogic)
                },
                SmtCommand::Other => r == Err::<ParseStep, ParseError>(ParseError::UnsupportedCommand),
            },
    {
        match command {
            SmtCommand::CheckSat => {
                let problem = self.check_sat();
                Ok(ParseStep::CheckSat(problem))
            },
            SmtCommand::Assert { term } => {
                let ghost m0 = self.model();
                let ghost t = term;
                proof {
                    model::lemma_compile_term(t, m0);
                }
                let formula_id = match self.create_formula(term) {
                    Ok(id) => id,
                    Err(e) => return Err(e),
                };
                self.assertions.push(formula_id);
                proof {
                    assert forall|i: int| 0 <= i < self.assertions@.len() implies id_valid(self.model(), #[trigger] self.assertions@[i]) by {
                        if i < self.assertions@.len() - 1 {
                            assert(id_valid(m0, old(self).assertions@[i]));
                            model::lemma_extends_valid(m0, self.model(), old(self).assertions@[i]);
                        }
                    }
                }
                Ok(ParseStep::Continue)
            },
            SmtCommand::DeclareConst { symbol, sort } => {
                match self.declare_fun(symbol, Vec::new(), sort) {
                    Ok(()) => Ok(ParseStep::Continue),
                    Err(e) => Err(e),
                }
            },
            SmtCommand::DeclareFun { symbol, parameters, sort } => {
                match self.declare_fun(symbol, parameters, sort) {
                    Ok(()) => Ok(ParseStep::Continue),
                    Err(e) => Err(e),
                }
            },
            SmtCommand::Exit => Ok(ParseStep::Exit),
            SmtCommand::SetInfo { keyword, value } => {
                if text_equal(keyword.as_str(), "status") {
                    match status_expectation_of(&value) {
                        Ok(expected) => {
                            self.expected_result = expected;
                        },
                        Err(e) => return Err(e),
                    }
                }
                Ok(ParseStep::Continue)
            },
            SmtCommand::SetLogic { symbol } => {
                if !text_equal(symbol.as_str(), "QF_BV") {
                    return Err(ParseError::UnsupportedLogic);
                }
                Ok(ParseStep::Continue)
            },
            SmtCommand::Other => Err(ParseError::UnsupportedCommand),
        }
    }

    /// The width of a declared sort.
    fn sort_width(sort: &SmtSort) -> (r: Result<u32, ParseError>)
        ensures
            r == model::sort_width(*sort),
    {
        match sort {
            SmtSort::Simple { identifier: SmtIdentifier::Indexed { symbol, indices } } => {
                if !text_equal(symbol.as_str(), "BitVec") {
                    return Err(ParseError::UnsupportedSort);
                }
                if indices.len() != 1 {
                    return Err(ParseError::IndexCount);
                }
                numeral_of(&indices[0])
            },
            SmtSort::Simple { identifier: SmtIdentifier::Simple { symbol } } => {
                if !text_equal(symbol.as_str(), "Bool") {
                    return Err(ParseError::UnsupportedSort);
                }
                Ok(1)
            },
            SmtSort::Parameterized => Err(ParseError::UnsupportedSort),
        }
    }

    /// Declares a constant: a bitvector variable of the sort's width, bound
    /// to the name in the global scope.
    pub fn declare_fun(&mut self, symbol: String, parameters: Vec<SmtSort>, sort: SmtSort) -> (r: Result<(), ParseError>)
        requires
            old(self).wf(),
        ensures
            match model::declare(symbol@, parameters@.len(), sort, old(self).model()) {
                Ok(m) => r is Ok && final(self).model() == m && final(self).wf(),
                Err(e) => r == Err::<(), ParseError>(e),
            },
            final(self).assertions@ == old(self).assertions@,
            final(self).results@ == old(self).results@,
            final(self).expected_result == old(self).expected_result,
    {
        if parameters.len() != 0 {
            return Err(ParseError::FunctionWithParameters);
        }
        let width = match Self::sort_width(&sort) {
            Ok(width) => width,
            Err(e) => return Err(e),
        };
        let ghost m = self.model();
        let variable_id = VariableId(self.variables.len());
        self.variables.push(Variable { width });
        let mut scope = self.scopes.remove(0);
        let ghost name = symbol@;
        let previous = scope.insert(symbol, FormulaId::Variable(variable_id));
        self.scopes.insert(0, scope);
        proof {
            assert(self.model().scopes =~= m.scopes.update(0, m.scopes[0].insert(name, FormulaId::Variable(variable_id))));
        }
        if previous.is_some() {
            return Err(ParseError::DuplicateName);
        }
        proof {
            let m1 = self.model();
            assert forall|i: int, n: Seq<char>|
                0 <= i < m1.scopes.len() && #[trigger] m1.scopes[i].dom().contains(n) implies id_valid(m1, m1.scopes[i][n]) by {
                if i != 0 || n != name {
                    assert(id_valid(m, m.scopes[i][n]));
                }
            }
            assert forall|j: int, k: int|
                0 <= j < m1.operations.len() && 0 <= k < m1.operations[j].spec_used_ids().len() implies model::earlier(
                m1,
                #[trigger] m1.operations[j].spec_used_ids()[k],
                j,
            ) by {
                assert(model::earlier(m, m.operations[j].spec_used_ids()[k], j));
            }
            assert forall|i: int| 0 <= i < self.assertions@.len() implies id_valid(m1, #[trigger] self.assertions@[i]) by {
                assert(id_valid(m, self.assertions@[i]));
            }
        }
        Ok(())
    }

    /// Joins the assertions by bitwise and into one formula and gives the
    /// problem of it, over copies of the variables and operations; nothing
    /// where there are no assertions.
    pub fn check_sat(&mut self) -> (r: Option<Problem>)
        requires
            old(self).wf(),
        ensures
            final(self).wf(),
            final(self).model().variables == old(self).model().variables,
            final(self).model().scopes == old(self).model().scopes,
            final(self).model().operations == old(self).model().operations + conjunction_operations(
                old(self).assertions@,
                old(self).assertions@.len(),
                old(self).operations@.len(),
            ),
            final(self).assertions@ == old(self).assertions@,
            final(self).results@ == old(self).results@,
            final(self).expected_result == old(self).expected_result,
            old(self).assertions@.len() == 0 <==> r is None,
            r matches Some(p) ==> p.variables@ == final(self).variables@ && p.operations@ == final(self).operations@
                && p.assertion == conjunction_formula(
                old(self).assertions@,
                old(self).assertions@.len(),
                old(self).operations@.len(),
            ),
            r matches Some(p) ==> forall|values: FormulaValues|
                values_consistent(p.operations@, values) && values.has(p.assertion) && (forall|i: int|
                    0 <= i < old(self).assertions@.len() && values.has(old(self).assertions@[i])
                        ==> #[trigger] values.value(old(self).assertions@[i]).value < 2) ==> {
                    &&& forall|i: int| 0 <= i < old(self).assertions@.len() ==> values.has(#[trigger] old(self).assertions@[i])
                    &&& values.value(p.assertion).value == 1 <==> forall|i: int|
                        0 <= i < old(self).assertions@.len() ==> values.value(#[trigger] old(self).assertions@[i]).value == 1
                },
    {
        let ghost m = self.model();
        let ghost asserts = self.assertions@;
        let base = self.operations.len();
        if self.assertions.len() == 0 {
            proof {
                assert(m.operations + conjunction_operations(asserts, 0, base as nat) =~= m.operations);
            }
            return None;
        }
        let mut result_assertion = self.assertions[0];
        let mut i: usize = 1;
        proof {
            assert(m.operations + conjunction_operations(asserts, 1, base as nat) =~= m.operations);
        }
        while i < self.assertions.len()
            invariant
                1 <= i <= asserts.len(),
                self.assertions@ == asserts,
                self.results@ == old(self).results@,
                self.expected_result == old(self).expected_result,
                base == m.operations.len(),
                self.model().variables == m.variables,
                self.model().scopes == m.scopes,
                self.model().operations == m.operations + conjunction_operations(asserts, i as nat, base as nat),
                result_assertion == conjunction_formula(asserts, i as nat, base as nat),
                model_wf(self.model()),
                id_valid(self.model(), result_assertion),
                forall|k: int| 0 <= k < asserts.len() ==> id_valid(m, #[trigger] asserts[k]),
                m == old(self).model(),
            decreases asserts.len() - i,
        {
            let assertion = self.assertions[i];
            let operation = Operation::BiOp(BiOp { op: BiOperator::BitAnd, input_width: 1, left: result_assertion, right: assertion });
            proof {
                assert(id_valid(m, asserts[i as int]));
                assert(operation.spec_used_ids() =~= seq![result_assertion, assertion]);
                lemma_add_op_wf(self.model(), operation);
            }
            let id = self.add_operation(operation);
            proof {
                assert(self.model().operations =~= m.operations + conjunction_operations(asserts, (i + 1) as nat, base as nat));
                assert(conjunction_operations(asserts, i as nat, base as nat).len() == i - 1) by {
                    lemma_conjunction_len(asserts, i as nat, base as nat);
                }
            }
            result_assertion = id;
            i = i + 1;
        }
        proof {
            assert forall|k: int| 0 <= k < self.assertions@.len() implies id_valid(self.model(), #[trigger] self.assertions@[k]) by {
                assert(id_valid(m, asserts[k]));
            }
        }
        let variables = copy_variables(&self.variables);
        let operations = copy_operations(&self.operations);
        // the operations fit in a vector, which bounds their number
        let operation_count = operations.len();
        let problem = Problem::new(variables, operations, result_assertion);
        proof {
            assert(m.operations.len() + asserts.len() == operation_count + 1) by {
                lemma_conjunction_len(asserts, asserts.len(), base as nat);
            }
            assert(conjunction_operations(asserts, asserts.len(), base as nat).len() == asserts.len() - 1) by {
                lemma_conjunction_len(asserts, asserts.len(), base as nat);
            }
            assert forall|values: FormulaValues|
                values_consistent(problem.operations@, values) && values.has(problem.assertion) && (forall|i: int|
                    0 <= i < asserts.len() && values.has(asserts[i]) ==> #[trigger] values.value(asserts[i]).value < 2)
                implies {
                    &&& forall|i: int| 0 <= i < asserts.len() ==> values.has(#[trigger] asserts[i])
                    &&& values.value(problem.assertion).value == 1 <==> forall|i: int|
                        0 <= i < asserts.len() ==> values.value(#[trigger] asserts[i]).value == 1
                } by {
                lemma_conjunction_value(m.operations, asserts, values, asserts.len());
            }
        }
        Some(problem)
    }

    /// The parser result of a check-sat result: wrong where it is known and
    /// differs from the expected result.
    pub fn parser_result(&self, result: ThreeValued) -> (r: ParserResult)
        ensures
            r == match result {
                ThreeValued::Unknown => ParserResult::Unknown,
                _ => {
                    let known = result == ThreeValued::True;
                    if self.expected_result is Some && self.expected_result->0 != known {
                        ParserResult::Wrong(known)
                    } else {
                        ParserResult::Known(known)
                    }
                },
            },
    {
        let Some(result) = result.to_opt_bool() else {
            return ParserResult::Unknown;
        };
        if let Some(expected_result) = self.expected_result {
            if expected_result != result {
                return ParserResult::Wrong(result);
            }
        }
        ParserResult::Known(result)
    }

    /// Records the result of a check-sat.
    pub fn record_result(&mut self, result: ThreeValued)
        ensures
            final(self).results@ == old(self).results@.push(old(self).parser_result_spec(result)),
            final(self).model() == old(self).model(),
            final(self).assertions@ == old(self).assertions@,
            final(self).expected_result == old(self).expected_result,
    {
        let parser_result = self.parser_result(result);
        self.results.push(parser_result);
    }

    /// The parser result of a check-sat result.
    pub open spec fn parser_result_spec(self, result: ThreeValued) -> ParserResult {
        match result {
            ThreeValued::Unknown => ParserResult::Unknown,
            _ => {
                let known = result == ThreeValued::True;
                if self.expected_result is Some && self.expected_result->0 != known {
                    ParserResult::Wrong(known)
                } else {
                    ParserResult::Known(known)
                }
            },
        }
    }

    /// The result of the file: the result of its only check-sat, if it has
    /// exactly one.
    pub fn final_result(&self) -> (r: ParserResult)
        ensures
            r == if self.results@.len() == 1 {
                self.results@[0]
            } else {
                ParserResult::NoResult
            },
    {
        if self.results.len() == 1 {
            self.results[0]
        } else {
            ParserResult::NoResult
        }
    }
}

/// The expected result that a status attribute gives: `sat`, `unsat` or
/// `unknown`.
pub open spec fn status_expectation(value: SmtAttributeValue) -> Result<Option<bool>, ParseError> {
    match value {
        SmtAttributeValue::Symbol(s) => if s@ == "sat"@ {
            Ok(Some(true))
        } else if s@ == "unsat"@ {
            Ok(Some(false))
        } else if s@ == "unknown"@ {
            Ok(None)
        } else {
            Err(ParseError::StatusValue)
        },
        SmtAttributeValue::Other => Err(ParseError::StatusValue),
    }
}

/// The expected result that a status attribute gives.
fn status_expectation_of(value: &SmtAttributeValue) -> (r: Result<Option<bool>, ParseError>)
    ensures
        r == status_expectation(*value),
{
    match value {
        SmtAttributeValue::Symbol(s) => if text_equal(s.as_str(), "sat") {
            Ok(Some(true))
        } else if text_equal(s.as_str(), "unsat") {
            Ok(Some(false))
        } else if text_equal(s.as_str(), "unknown") {
            Ok(None)
        } else {
            Err(ParseError::StatusValue)
        },
        SmtAttributeValue::Other => Err(ParseError::StatusValue),
    }
}

/// Once doubling overflows, every longer prefix overflows too.
proof fn lemma_binary_overflow_stays(bits: Seq<bool>, n: nat, k: nat)
    requires
        binary_prefix_value(bits, n) is None,
        n <= k,
    ensures
        binary_prefix_value(bits, k) is None,
    decreases k - n,
{
    if n < k {
        lemma_binary_overflow_stays(bits, n, (k - 1) as nat);
    }
}

/// A scope binding names to valid formulas keeps the model consistent.
proof fn lemma_bind_scope_valid(names: Seq<String>, values: Seq<FormulaId>, m: ParserModel)
    requires
        model_wf(m),
        forall|i: int| 0 <= i < values.len() ==> id_valid(m, #[trigger] values[i]),
    ensures
        model_wf(push_scope(m, bind_names(names, values))),
{
    let m1 = push_scope(m, bind_names(names, values));
    assert forall|i: int, name: Seq<char>|
        0 <= i < m1.scopes.len() && #[trigger] m1.scopes[i].dom().contains(name) implies id_valid(m1, m1.scopes[i][name]) by {
        if i < m.scopes.len() {
            assert(m1.scopes[i] == m.scopes[i]);
        } else {
            model::lemma_bind_names_ids(names, values, name);
        }
    }
}

/// The join of `k` assertions takes `k - 1` operations.
proof fn lemma_conjunction_len(assertions: Seq<FormulaId>, k: nat, base: nat)
    requires
        k >= 1,
    ensures
        conjunction_operations(assertions, k, base).len() == k - 1,
    decreases k,
{
    if k > 1 {
        lemma_conjunction_len(assertions, (k - 1) as nat, base);
    }
}

/// A copy of the variables.
fn copy_variables(variables: &Vec<Variable>) -> (r: Vec<Variable>)
    ensures
        r@ == variables@,
{
    let mut r: Vec<Variable> = Vec::new();
    let mut i: usize = 0;
    while i < variables.len()
        invariant
            0 <= i <= variables@.len(),
            r@ == variables@.take(i as int),
        decreases variables@.len() - i,
    {
        r.push(variables[i]);
        proof {
            assert(r@ =~= variables@.take(i + 1));
        }
        i = i + 1;
    }
    proof {
        assert(variables@.take(variables@.len() as int) =~= variables@);
    }
    r
}

/// A copy of operations none of which is linear.
fn copy_operations(operations: &Vec<Operation>) -> (r: Vec<Operation>)
    requires
        forall|j: int| 0 <= j < operations@.len() ==> !(#[trigger] operations@[j] is Linear),
    ensures
        r@ == operations@,
{
    let mut r: Vec<Operation> = Vec::new();
    let mut i: usize = 0;
    while i < operations.len()
        invariant
            0 <= i <= operations@.len(),
            r@ == operations@.take(i as int),
            forall|j: int| 0 <= j < operations@.len() ==> !(#[trigger] operations@[j] is Linear),
        decreases operations@.len() - i,
    {
        r.push(operations[i].duplicate());
        proof {
            assert(r@ =~= operations@.take(i + 1));
        }
        i = i + 1;
    }
    proof {
        assert(operations@.take(operations@.len() as int) =~= operations@);
    }
    r
}

} // verus!
