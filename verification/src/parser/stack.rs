//! The evaluation stack of a term: terms still to be built, applications
//! and let scopes waiting for the values of their arguments, and what
//! running the stack builds.
use vstd::prelude::*;

use crate::problem::formula::FormulaId;

use super::model::{
    bind_names, binding_names, compile_application, compile_bindings, compile_term, compile_terms, pop_scope,
    push_scope, ParseError, ParserModel,
};
use super::syntax::{SmtQualIdentifier, SmtTerm};

verus! {

/// An element of the evaluation stack; the top of the stack is its end.
pub enum ReversePolishElement {
    /// A term to build, giving one value.
    Term(SmtTerm),
    /// An application taking the given number of values.
    Application(SmtQualIdentifier, usize),
    /// The start of a let scope binding the names to the last values.
    LetStart(Vec<String>),
    /// The end of a let scope.
    LetEnd,
}

/// What running the stack from its top builds on the model, and the values
/// it leaves.
pub open spec fn run_stack(stack: Seq<ReversePolishElement>, m: ParserModel, vals: Seq<FormulaId>) -> Result<
    (ParserModel, Seq<FormulaId>),
    ParseError,
>
    decreases stack.len(),
{
    if stack.len() == 0 {
        Ok((m, vals))
    } else {
        let rest = stack.drop_last();
        match stack.last() {
            ReversePolishElement::Term(t) => match compile_term(t, m) {
                Err(e) => Err(e),
                Ok((m1, id)) => run_stack(rest, m1, vals.push(id)),
            },
            ReversePolishElement::Application(q, n) => if n > vals.len() {
                Err(ParseError::EvaluationStack)
            } else {
                let split = vals.len() - n;
                match compile_application(q, vals.subrange(split, vals.len() as int), m) {
                    Err(e) => Err(e),
                    Ok((m1, id)) => run_stack(rest, m1, vals.subrange(0, split).push(id)),
                }
            },
            ReversePolishElement::LetStart(names) => if names@.len() > vals.len() {
                Err(ParseError::EvaluationStack)
            } else {
                let split = vals.len() - names@.len();
                run_stack(
                    rest,
                    push_scope(m, bind_names(names@, vals.subrange(split, vals.len() as int))),
                    vals.subrange(0, split),
                )
            },
            ReversePolishElement::LetEnd => run_stack(rest, pop_scope(m), vals),
        }
    }
}

/// The terms as stack elements, the first on top.
pub open spec fn rev_terms(ts: Seq<SmtTerm>) -> Seq<ReversePolishElement> {
    Seq::new(ts.len(), |i: int| ReversePolishElement::Term(ts[ts.len() - 1 - i]))
}

/// The terms of let bindings as stack elements, the first on top.
pub open spec fn rev_binding_terms(bs: Seq<(String, SmtTerm)>) -> Seq<ReversePolishElement> {
    Seq::new(bs.len(), |i: int| ReversePolishElement::Term(bs[bs.len() - 1 - i].1))
}

/// The number of nodes of a term.
pub open spec fn term_size(t: SmtTerm) -> nat
    decreases t,
{
    match t {
        SmtTerm::Application { arguments, .. } => 1 + terms_size(arguments@),
        SmtTerm::Let { var_bindings, term } => 1 + bindings_size(var_bindings@) + term_size(*term),
        _ => 1,
    }
}

pub open spec fn terms_size(ts: Seq<SmtTerm>) -> nat
    decreases ts,
{
    if ts.len() == 0 {
        0
    } else {
        term_size(ts[0]) + terms_size(ts.subrange(1, ts.len() as int))
    }
}

pub open spec fn bindings_size(bs: Seq<(String, SmtTerm)>) -> nat
    decreases bs,
{
    if bs.len() == 0 {
        0
    } else {
        term_size(bs[0].1) + bindings_size(bs.subrange(1, bs.len() as int))
    }
}

/// A measure of the work left on the stack.
pub open spec fn stack_weight(s: Seq<ReversePolishElement>) -> nat
    decreases s.len(),
{
    if s.len() == 0 {
        0
    } else {
        stack_weight(s.drop_last()) + match s.last() {
            ReversePolishElement::Term(t) => 3 * term_size(t),
            _ => 1,
        }
    }
}

pub proof fn lemma_stack_weight_concat(a: Seq<ReversePolishElement>, b: Seq<ReversePolishElement>)
    ensures
        stack_weight(a + b) == stack_weight(a) + stack_weight(b),
    decreases b.len(),
{
    if b.len() > 0 {
        lemma_stack_weight_concat(a, b.drop_last());
        assert((a + b).drop_last() =~= a + b.drop_last());
        assert((a + b).last() == b.last());
    } else {
        assert(a + b =~= a);
    }
}

pub proof fn lemma_rev_terms_weight(ts: Seq<SmtTerm>)
    ensures
        stack_weight(rev_terms(ts)) == 3 * terms_size(ts),
    decreases ts.len(),
{
    if ts.len() > 0 {
        let tail = ts.subrange(1, ts.len() as int);
        assert(rev_terms(ts).drop_last() =~= rev_terms(tail));
        lemma_rev_terms_weight(tail);
    }
}

pub proof fn lemma_rev_binding_terms_weight(bs: Seq<(String, SmtTerm)>)
    ensures
        stack_weight(rev_binding_terms(bs)) == 3 * bindings_size(bs),
    decreases bs.len(),
{
    if bs.len() > 0 {
        let tail = bs.subrange(1, bs.len() as int);
        assert(rev_binding_terms(bs).drop_last() =~= rev_binding_terms(tail));
        lemma_rev_binding_terms_weight(tail);
    }
}

/// Running the terms on top of a stack builds them left to right and then
/// runs the rest with their values.
pub proof fn lemma_run_terms(rest: Seq<ReversePolishElement>, ts: Seq<SmtTerm>, m: ParserModel, vals: Seq<FormulaId>)
    ensures
        run_stack(rest + rev_terms(ts), m, vals) == match compile_terms(ts, m) {
            Err(e) => Err(e),
            Ok((m1, ids)) => run_stack(rest, m1, vals + ids),
        },
    decreases ts.len(),
{
    if ts.len() == 0 {
        assert(rest + rev_terms(ts) =~= rest);
        assert(vals + Seq::<FormulaId>::empty() =~= vals);
    } else {
        let tail = ts.subrange(1, ts.len() as int);
        let s = rest + rev_terms(ts);
        assert(s.drop_last() =~= rest + rev_terms(tail));
        assert(s.last() == ReversePolishElement::Term(ts[0]));
        match compile_term(ts[0], m) {
            Err(e) => {},
            Ok((m1, id)) => {
                lemma_run_terms(rest, tail, m1, vals.push(id));
                match compile_terms(tail, m1) {
                    Err(e) => {},
                    Ok((m2, ids)) => {
                        assert(vals.push(id) + ids =~= vals + (seq![id] + ids));
                    },
                }
            },
        }
    }
}

/// Running the binding terms on top of a stack builds them left to right
/// and then runs the rest with their values.
pub proof fn lemma_run_bindings(
    rest: Seq<ReversePolishElement>,
    bs: Seq<(String, SmtTerm)>,
    m: ParserModel,
    vals: Seq<FormulaId>,
)
    ensures
        run_stack(rest + rev_binding_terms(bs), m, vals) == match compile_bindings(bs, m) {
            Err(e) => Err(e),
            Ok((m1, ids)) => run_stack(rest, m1, vals + ids),
        },
    decreases bs.len(),
{
    if bs.len() == 0 {
        assert(rest + rev_binding_terms(bs) =~= rest);
        assert(vals + Seq::<FormulaId>::empty() =~= vals);
    } else {
        let tail = bs.subrange(1, bs.len() as int);
        let s = rest + rev_binding_terms(bs);
        assert(s.drop_last() =~= rest + rev_binding_terms(tail));
        assert(s.last() == ReversePolishElement::Term(bs[0].1));
        match compile_term(bs[0].1, m) {
            Err(e) => {},
            Ok((m1, id)) => {
                lemma_run_bindings(rest, tail, m1, vals.push(id));
                match compile_bindings(tail, m1) {
                    Err(e) => {},
                    Ok((m2, ids)) => {
                        assert(vals.push(id) + ids =~= vals + (seq![id] + ids));
                    },
                }
            },
        }
    }
}

/// The number of values that building terms gives.
pub proof fn lemma_compile_terms_len(ts: Seq<SmtTerm>, m: ParserModel)
    ensures
        compile_terms(ts, m) matches Ok((_, ids)) ==> ids.len() == ts.len(),
    decreases ts.len(),
{
    if ts.len() > 0 {
        if let Ok((m1, id)) = compile_term(ts[0], m) {
            lemma_compile_terms_len(ts.subrange(1, ts.len() as int), m1);
        }
    }
}

/// The number of values that building binding terms gives.
pub proof fn lemma_compile_bindings_len(bs: Seq<(String, SmtTerm)>, m: ParserModel)
    ensures
        compile_bindings(bs, m) matches Ok((_, ids)) ==> ids.len() == bs.len(),
    decreases bs.len(),
{
    if bs.len() > 0 {
        if let Ok((m1, id)) = compile_term(bs[0].1, m) {
            lemma_compile_bindings_len(bs.subrange(1, bs.len() as int), m1);
        }
    }
}

/// Expanding an application on the stack into its element and its
/// argument terms runs as the application term does.
pub proof fn lemma_expand_application(
    rest: Seq<ReversePolishElement>,
    q: SmtQualIdentifier,
    args: Seq<SmtTerm>,
    t: SmtTerm,
    m: ParserModel,
    vals: Seq<FormulaId>,
)
    requires
        t matches SmtTerm::Application { qual_identifier, arguments } && qual_identifier == q && arguments@ == args,
        args.len() <= usize::MAX,
    ensures
        run_stack(rest.push(ReversePolishElement::Application(q, args.len() as usize)) + rev_terms(args), m, vals)
            == run_stack(rest.push(ReversePolishElement::Term(t)), m, vals),
        stack_weight(rest.push(ReversePolishElement::Application(q, args.len() as usize)) + rev_terms(args))
            < stack_weight(rest.push(ReversePolishElement::Term(t))),
{
    let n = args.len() as usize;
    let base = rest.push(ReversePolishElement::Application(q, n));
    let with_term = rest.push(ReversePolishElement::Term(t));
    lemma_run_terms(base, args, m, vals);
    lemma_compile_terms_len(args, m);
    assert(with_term.drop_last() =~= rest);
    assert(base.drop_last() =~= rest);
    assert(base.last() == ReversePolishElement::Application(q, n));
    assert(with_term.last() == ReversePolishElement::Term(t));
    match compile_terms(args, m) {
        Err(e) => {
            assert(compile_term(t, m) == Err::<(ParserModel, FormulaId), ParseError>(e));
        },
        Ok((m1, ids)) => {
            let all = vals + ids;
            let split = all.len() - n;
            assert(all.subrange(split, all.len() as int) =~= ids);
            assert(all.subrange(0, split) =~= vals);
            assert(run_stack(base, m1, all) == match compile_application(q, ids, m1) {
                Err(e) => Err(e),
                Ok((m2, id)) => run_stack(rest, m2, vals.push(id)),
            });
            assert(compile_term(t, m) == compile_application(q, ids, m1));
        },
    }
    lemma_stack_weight_concat(base, rev_terms(args));
    lemma_rev_terms_weight(args);
    assert(stack_weight(base) == stack_weight(rest) + 1);
    assert(stack_weight(with_term) == stack_weight(rest) + 3 * term_size(t));
}

/// Expanding a let on the stack into its scope elements, its body and its
/// binding terms runs as the let term does.
pub proof fn lemma_expand_let(
    rest: Seq<ReversePolishElement>,
    names: Vec<String>,
    bs: Seq<(String, SmtTerm)>,
    body: SmtTerm,
    t: SmtTerm,
    m: ParserModel,
    vals: Seq<FormulaId>,
)
    requires
        t matches SmtTerm::Let { var_bindings, term } && var_bindings@ == bs && *term == body,
        names@ == binding_names(bs),
    ensures
        run_stack(
            rest.push(ReversePolishElement::LetEnd).push(ReversePolishElement::Term(body)).push(
                ReversePolishElement::LetStart(names),
            ) + rev_binding_terms(bs),
            m,
            vals,
        ) == run_stack(rest.push(ReversePolishElement::Term(t)), m, vals),
        stack_weight(
            rest.push(ReversePolishElement::LetEnd).push(ReversePolishElement::Term(body)).push(
                ReversePolishElement::LetStart(names),
            ) + rev_binding_terms(bs),
        ) < stack_weight(rest.push(ReversePolishElement::Term(t))),
{
    let with_end = rest.push(ReversePolishElement::LetEnd);
    let with_body = with_end.push(ReversePolishElement::Term(body));
    let base = with_body.push(ReversePolishElement::LetStart(names));
    let with_term = rest.push(ReversePolishElement::Term(t));
    lemma_run_bindings(base, bs, m, vals);
    lemma_compile_bindings_len(bs, m);
    assert(with_term.drop_last() =~= rest);
    assert(with_term.last() == ReversePolishElement::Term(t));
    assert(base.drop_last() =~= with_body);
    assert(base.last() == ReversePolishElement::LetStart(names));
    assert(with_body.drop_last() =~= with_end);
    assert(with_body.last() == ReversePolishElement::Term(body));
    assert(with_end.drop_last() =~= rest);
    assert(with_end.last() == ReversePolishElement::LetEnd);
    assert(names@.len() == bs.len());
    match compile_bindings(bs, m) {
        Err(e) => {
            assert(compile_term(t, m) == Err::<(ParserModel, FormulaId), ParseError>(e));
        },
        Ok((m1, ids)) => {
            let all = vals + ids;
            let split = all.len() - names@.len();
            assert(all.subrange(split, all.len() as int) =~= ids);
            assert(all.subrange(0, split) =~= vals);
            let m2 = push_scope(m1, bind_names(names@, ids));
            assert(run_stack(base, m1, all) == run_stack(with_body, m2, vals));
            match compile_term(body, m2) {
                Err(e) => {
                    assert(run_stack(with_body, m2, vals) == Err::<(ParserModel, Seq<FormulaId>), ParseError>(e));
                },
                Ok((m3, id)) => {
                    assert(run_stack(with_body, m2, vals) == run_stack(with_end, m3, vals.push(id)));
                    assert(run_stack(with_end, m3, vals.push(id)) == run_stack(rest, pop_scope(m3), vals.push(id)));
                },
            }
        },
    }
    lemma_stack_weight_concat(base, rev_binding_terms(bs));
    lemma_rev_binding_terms_weight(bs);
    assert(stack_weight(with_end) == stack_weight(rest) + 1);
    assert(stack_weight(with_body) == stack_weight(with_end) + 3 * term_size(body));
    assert(stack_weight(base) == stack_weight(with_body) + 1);
    assert(stack_weight(with_term) == stack_weight(rest) + 3 * term_size(t));
}

} // verus!
