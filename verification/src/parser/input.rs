//! Reading SMT-LIB-2 text into commands of the parser's syntax: the
//! SMT-LIB-2 reader of `aws_smt_ir` gives its concrete syntax, which is
//! converted here, with proof, into the syntax the parser reads.
use aws_smt_ir::smt2parser::{concrete, visitors};
use num::bigint::BigUint;
use vstd::prelude::*;

use super::syntax::{SmtAttributeValue, SmtCommand, SmtConstant, SmtIdentifier, SmtIndex, SmtQualIdentifier, SmtSort, SmtTerm};

verus! {

// The concrete syntax of the SMT-LIB-2 reader is declared with its
// variants, so that the conversion below reads them; numbers, S-expressions
// and datatype and function declarations stay opaque.
#[verifier::external_type_specification]
#[verifier::external_body]
pub struct ExBigUint(num::bigint::BigUint);

#[verifier::external_type_specification]
#[verifier::external_body]
pub struct ExBigInt(num::bigint::BigInt);

#[verifier::external_type_specification]
#[verifier::external_body]
#[verifier::reject_recursive_types(T)]
pub struct ExRatio<T>(num::rational::Ratio<T>);

#[verifier::external_type_specification]
pub struct ExSymbol(aws_smt_ir::smt2parser::concrete::Symbol);

#[verifier::external_type_specification]
pub struct ExKeyword(aws_smt_ir::smt2parser::concrete::Keyword);

#[verifier::external_type_specification]
pub struct ExConstant(aws_smt_ir::smt2parser::concrete::Constant);

#[verifier::external_type_specification]
#[verifier::reject_recursive_types(S)]
pub struct ExIndex<S>(aws_smt_ir::smt2parser::visitors::Index<S>);

#[verifier::external_type_specification]
#[verifier::reject_recursive_types(S)]
pub struct ExIdentifier<S>(aws_smt_ir::smt2parser::visitors::Identifier<S>);

#[verifier::external_type_specification]
#[verifier::reject_recursive_types(I)]
pub struct ExSort<I>(aws_smt_ir::smt2parser::concrete::Sort<I>);

#[verifier::external_type_specification]
#[verifier::reject_recursive_types(I)]
#[verifier::reject_recursive_types(S)]
pub struct ExQualIdentifier<I, S>(aws_smt_ir::smt2parser::concrete::QualIdentifier<I, S>);

#[verifier::external_type_specification]
#[verifier::external_body]
#[verifier::reject_recursive_types(C)]
#[verifier::reject_recursive_types(S)]
#[verifier::reject_recursive_types(K)]
pub struct ExSExpr<C, S, K>(aws_smt_ir::smt2parser::concrete::SExpr<C, S, K>);

#[verifier::external_type_specification]
#[verifier::reject_recursive_types(C)]
#[verifier::reject_recursive_types(S)]
#[verifier::reject_recursive_types(X)]
pub struct ExAttributeValue<C, S, X>(aws_smt_ir::smt2parser::visitors::AttributeValue<C, S, X>);

#[verifier::external_type_specification]
#[verifier::external_body]
#[verifier::reject_recursive_types(S)]
#[verifier::reject_recursive_types(T)]
pub struct ExDatatypeDec<S, T>(aws_smt_ir::smt2parser::visitors::DatatypeDec<S, T>);

#[verifier::external_type_specification]
#[verifier::external_body]
#[verifier::reject_recursive_types(S)]
#[verifier::reject_recursive_types(T)]
pub struct ExFunctionDec<S, T>(aws_smt_ir::smt2parser::visitors::FunctionDec<S, T>);

#[verifier::external_type_specification]
#[verifier::reject_recursive_types(C)]
#[verifier::reject_recursive_types(Q)]
#[verifier::reject_recursive_types(K)]
#[verifier::reject_recursive_types(X)]
#[verifier::reject_recursive_types(S)]
#[verifier::reject_recursive_types(T)]
pub struct ExTerm<C, Q, K, X, S, T>(aws_smt_ir::smt2parser::concrete::Term<C, Q, K, X, S, T>);

#[verifier::external_type_specification]
#[verifier::reject_recursive_types(M)]
#[verifier::reject_recursive_types(S)]
#[verifier::reject_recursive_types(T)]
#[verifier::reject_recursive_types(K)]
#[verifier::reject_recursive_types(C)]
#[verifier::reject_recursive_types(X)]
pub struct ExCommand<M, S, T, K, C, X>(aws_smt_ir::smt2parser::concrete::Command<M, S, T, K, C, X>);


/// The commands that the SMT-LIB-2 reader reads from the text, in order;
/// where it cannot read a command it gives an error and stops.
pub uninterp spec fn smt2_commands(text: Seq<u8>) -> Seq<Result<concrete::Command, ()>>;

/// The 32-bit value of a numeral, where it fits.
pub uninterp spec fn numeral_u32(n: BigUint) -> Option<u32>;

/// `CommandStream::new` with `SyntaxBuilder`, run to its end: the commands
/// read from the text, each error reduced to `()`. What is read is named,
/// not stated.
#[verifier::external_body]
fn read_raw_commands(text: &[u8]) -> (r: Vec<Result<concrete::Command, ()>>)
    ensures
        r@ == smt2_commands(text@),
{
    aws_smt_ir::CommandStream::new(text, aws_smt_ir::SyntaxBuilder, None).map(|c| c.map_err(|_| ())).collect()
}

/// `u32::try_from(&BigUint)`: the numeral as a `u32` where it fits, made an
/// option. The value of a numeral is not visible here, so the result is
/// named.
#[verifier::external_body]
fn numeral_to_u32(n: &BigUint) -> (r: Option<u32>)
    ensures
        r == numeral_u32(*n),
{
    u32::try_from(n).ok()
}

/// The text of a symbol.
pub open spec fn same_text(s: concrete::Symbol, t: String) -> bool {
    t@ == s.0@
}

/// A numeral index becomes its 32-bit value where it fits, a symbol its text.
pub open spec fn index_matches(c: visitors::Index, s: SmtIndex) -> bool {
    match c {
        visitors::Index::Numeral(n) => s == SmtIndex::Numeral(numeral_u32(n)),
        visitors::Index::Symbol(symbol) => s matches SmtIndex::Symbol(t) && same_text(symbol, t),
    }
}

/// An identifier keeps its symbol's text and its indices.
pub open spec fn identifier_matches(c: visitors::Identifier, s: SmtIdentifier) -> bool {
    match c {
        visitors::Identifier::Simple { symbol } => s matches SmtIdentifier::Simple { symbol: t } && same_text(symbol, t),
        visitors::Identifier::Indexed { symbol, indices } => s matches SmtIdentifier::Indexed { symbol: t, indices: sis }
            && same_text(symbol, t) && sis@.len() == indices@.len() && forall|i: int|
            0 <= i < indices@.len() ==> #[trigger] index_matches(indices@[i], sis@[i]),
    }
}

/// A simple sort keeps its identifier; a parameterized sort its kind.
pub open spec fn sort_matches(c: concrete::Sort, s: SmtSort) -> bool {
    match c {
        concrete::Sort::Simple { identifier } => s matches SmtSort::Simple { identifier: si } && identifier_matches(
            identifier,
            si,
        ),
        concrete::Sort::Parameterized { .. } => s is Parameterized,
    }
}

/// A qualified identifier keeps its identifier and, where sorted, its sort.
pub open spec fn qual_identifier_matches(c: concrete::QualIdentifier, s: SmtQualIdentifier) -> bool {
    match c {
        concrete::QualIdentifier::Simple { identifier } => s matches SmtQualIdentifier::Simple { identifier: si }
            && identifier_matches(identifier, si),
        concrete::QualIdentifier::Sorted { identifier, sort } => s matches SmtQualIdentifier::Sorted {
            identifier: si,
            sort: ss,
        } && identifier_matches(identifier, si) && sort_matches(sort, ss),
    }
}

/// A numeral, decimal, hexadecimal or string constant keeps its kind, a
/// binary constant its bits.
pub open spec fn constant_matches(c: concrete::Constant, s: SmtConstant) -> bool {
    match c {
        concrete::Constant::Numeral(_) => s is Numeral,
        concrete::Constant::Decimal(_) => s is Decimal,
        concrete::Constant::Hexadecimal(_) => s is Hexadecimal,
        concrete::Constant::Binary(bits) => s matches SmtConstant::Binary(sbits) && sbits@ == bits@,
        concrete::Constant::String(_) => s is Text,
    }
}

/// The term of the parser's syntax is the concrete term: constants,
/// identifiers, applications and lets part by part, the other terms by
/// their kind.
pub open spec fn term_matches(c: concrete::Term, s: SmtTerm) -> bool
    decreases c,
{
    match c {
        concrete::Term::Constant(k) => s matches SmtTerm::Constant(sk) && constant_matches(k, sk),
        concrete::Term::QualIdentifier(q) => s matches SmtTerm::QualIdentifier(sq) && qual_identifier_matches(q, sq),
        concrete::Term::Application { qual_identifier, arguments } => s matches SmtTerm::Application {
            qual_identifier: sq,
            arguments: sa,
        } && qual_identifier_matches(qual_identifier, sq) && terms_match(arguments@, sa@),
        concrete::Term::Let { var_bindings, term } => s matches SmtTerm::Let { var_bindings: sb, term: st }
            && bindings_match(var_bindings@, sb@) && term_matches(*term, *st),
        concrete::Term::Forall { .. } => s is Forall,
        concrete::Term::Exists { .. } => s is Exists,
        concrete::Term::Match { .. } => s is Match,
        concrete::Term::Attributes { .. } => s is Attributes,
    }
}

/// Each term of the parser's syntax is the concrete term at its place.
pub open spec fn terms_match(cs: Seq<concrete::Term>, ss: Seq<SmtTerm>) -> bool
    decreases cs,
{
    if cs.len() == 0 {
        ss.len() == 0
    } else {
        &&& ss.len() == cs.len()
        &&& terms_match(cs.subrange(0, cs.len() - 1), ss.subrange(0, ss.len() - 1))
        &&& term_matches(cs[cs.len() - 1], ss[ss.len() - 1])
    }
}

/// Each binding of the parser's syntax binds the text of the concrete
/// binding's symbol to its term.
pub open spec fn bindings_match(cs: Seq<(concrete::Symbol, concrete::Term)>, ss: Seq<(String, SmtTerm)>) -> bool
    decreases cs,
{
    if cs.len() == 0 {
        ss.len() == 0
    } else {
        &&& ss.len() == cs.len()
        &&& bindings_match(cs.subrange(0, cs.len() - 1), ss.subrange(0, ss.len() - 1))
        &&& same_text(cs[cs.len() - 1].0, ss[ss.len() - 1].0)
        &&& term_matches(cs[cs.len() - 1].1, ss[ss.len() - 1].1)
    }
}

/// A symbol value of an attribute is kept, other values become `Other`.
pub open spec fn attribute_value_matches(c: visitors::AttributeValue, s: SmtAttributeValue) -> bool {
    match c {
        visitors::AttributeValue::Symbol(symbol) => s matches SmtAttributeValue::Symbol(t) && same_text(symbol, t),
        _ => s is Other,
    }
}

/// The command of the parser's syntax is the concrete command: the
/// commands the parser reads part by part, all others as `Other`.
pub open spec fn command_matches(c: concrete::Command, s: SmtCommand) -> bool {
    match c {
        concrete::Command::Assert { term } => s matches SmtCommand::Assert { term: st } && term_matches(term, st),
        concrete::Command::CheckSat => s is CheckSat,
        concrete::Command::DeclareConst { symbol, sort } => s matches SmtCommand::DeclareConst { symbol: t, sort: ss }
            && same_text(symbol, t) && sort_matches(sort, ss),
        concrete::Command::DeclareFun { symbol, parameters, sort } => s matches SmtCommand::DeclareFun {
            symbol: t,
            parameters: sp,
            sort: ss,
        } && same_text(symbol, t) && sort_matches(sort, ss) && sp@.len() == parameters@.len() && forall|i: int|
            0 <= i < parameters@.len() ==> #[trigger] sort_matches(parameters@[i], sp@[i]),
        concrete::Command::Exit => s is Exit,
        concrete::Command::SetInfo { keyword, value } => s matches SmtCommand::SetInfo { keyword: k, value: v } && k@
            == keyword.0@ && attribute_value_matches(value, v),
        concrete::Command::SetLogic { symbol } => s matches SmtCommand::SetLogic { symbol: t } && same_text(symbol, t),
        _ => s is Other,
    }
}

/// Converts an index.
pub fn convert_index(c: visitors::Index) -> (r: SmtIndex)
    ensures
        index_matches(c, r),
{
    match c {
        visitors::Index::Numeral(n) => SmtIndex::Numeral(numeral_to_u32(&n)),
        visitors::Index::Symbol(symbol) => SmtIndex::Symbol(symbol.0),
    }
}

/// Converts an identifier.
pub fn convert_identifier(c: visitors::Identifier) -> (r: SmtIdentifier)
    ensures
        identifier_matches(c, r),
{
    match c {
        visitors::Identifier::Simple { symbol } => SmtIdentifier::Simple { symbol: symbol.0 },
        visitors::Identifier::Indexed { symbol, indices } => {
            let ghost orig = indices@;
            let mut indices = indices;
            let mut out: Vec<SmtIndex> = Vec::new();
            while indices.len() > 0
                invariant
                    out@.len() + indices@.len() == orig.len(),
                    indices@ == orig.skip(out@.len() as int),
                    forall|i: int| 0 <= i < out@.len() ==> #[trigger] index_matches(orig[i], out@[i]),
                decreases indices@.len(),
            {
                let ghost k = out@.len() as int;
                let index = indices.remove(0);
                assert(index == orig[k]);
                out.push(convert_index(index));
                assert(indices@ =~= orig.skip(k + 1));
            }
            SmtIdentifier::Indexed { symbol: symbol.0, indices: out }
        },
    }
}

/// Converts a sort.
pub fn convert_sort(c: concrete::Sort) -> (r: SmtSort)
    ensures
        sort_matches(c, r),
{
    match c {
        concrete::Sort::Simple { identifier } => SmtSort::Simple { identifier: convert_identifier(identifier) },
        concrete::Sort::Parameterized { .. } => SmtSort::Parameterized,
    }
}

/// Converts a qualified identifier.
pub fn convert_qual_identifier(c: concrete::QualIdentifier) -> (r: SmtQualIdentifier)
    ensures
        qual_identifier_matches(c, r),
{
    match c {
        concrete::QualIdentifier::Simple { identifier } => SmtQualIdentifier::Simple {
            identifier: convert_identifier(identifier),
        },
        concrete::QualIdentifier::Sorted { identifier, sort } => SmtQualIdentifier::Sorted {
            identifier: convert_identifier(identifier),
            sort: convert_sort(sort),
        },
    }
}

/// Converts a constant.
pub fn convert_constant(c: concrete::Constant) -> (r: SmtConstant)
    ensures
        constant_matches(c, r),
{
    match c {
        concrete::Constant::Numeral(_) => SmtConstant::Numeral,
        concrete::Constant::Decimal(_) => SmtConstant::Decimal,
        concrete::Constant::Hexadecimal(_) => SmtConstant::Hexadecimal,
        concrete::Constant::Binary(bits) => SmtConstant::Binary(bits),
        concrete::Constant::String(_) => SmtConstant::Text,
    }
}


/// Converts a term.
#[verifier::loop_isolation(false)]
pub fn convert_term(c: concrete::Term) -> (r: SmtTerm)
    ensures
        term_matches(c, r),
    decreases c,
{
    let ghost orig_term = c;
    match c {
        concrete::Term::Constant(k) => SmtTerm::Constant(convert_constant(k)),
        concrete::Term::QualIdentifier(q) => SmtTerm::QualIdentifier(convert_qual_identifier(q)),
        concrete::Term::Application { qual_identifier, arguments } => {
            let ghost orig = arguments@;
            let qual_identifier = convert_qual_identifier(qual_identifier);
            let mut arguments = arguments;
            let mut out: Vec<SmtTerm> = Vec::new();
            while arguments.len() > 0
                invariant
                    out@.len() + arguments@.len() == orig.len(),
                    arguments@ == orig.skip(out@.len() as int),
                    orig_term matches concrete::Term::Application { arguments: a, .. } && a@ == orig,
                    terms_match(orig.take(out@.len() as int), out@),
                decreases arguments@.len(),
            {
                let ghost k = out@.len() as int;
                let ghost before = out@;
                let argument = arguments.remove(0);
                assert(argument == orig[k]);
                proof {
                    if let concrete::Term::Application { arguments: a, .. } = orig_term {
                        assert(decreases_to!(orig_term => a));
                        assert(decreases_to!(a => a@));
                        assert(decreases_to!(a@ => a@[k]));
                    }
                }
                out.push(convert_term(argument));
                proof {
                    assert(arguments@ =~= orig.skip(k + 1));
                    let taken = orig.take(k + 1);
                    assert(taken.subrange(0, k) =~= orig.take(k));
                    assert(out@.subrange(0, k) =~= before);
                }
            }
            proof {
                assert(orig.take(orig.len() as int) =~= orig);
            }
            SmtTerm::Application { qual_identifier, arguments: out }
        },
        concrete::Term::Let { var_bindings, term } => {
            let ghost orig = var_bindings@;
            let mut var_bindings = var_bindings;
            let mut out: Vec<(String, SmtTerm)> = Vec::new();
            while var_bindings.len() > 0
                invariant
                    out@.len() + var_bindings@.len() == orig.len(),
                    var_bindings@ == orig.skip(out@.len() as int),
                    orig_term matches concrete::Term::Let { var_bindings: b, .. } && b@ == orig,
                    bindings_match(orig.take(out@.len() as int), out@),
                decreases var_bindings@.len(),
            {
                let ghost k = out@.len() as int;
                let ghost before = out@;
                let (symbol, binding_term) = var_bindings.remove(0);
                assert((symbol, binding_term) == orig[k]);
                proof {
                    if let concrete::Term::Let { var_bindings: b, .. } = orig_term {
                        assert(decreases_to!(orig_term => b));
                        assert(decreases_to!(b => b@));
                        assert(decreases_to!(b@ => b@[k]));
                        assert(decreases_to!(b@[k] => b@[k].1));
                    }
                }
                let converted = convert_term(binding_term);
                out.push((symbol.0, converted));
                proof {
                    assert(var_bindings@ =~= orig.skip(k + 1));
                    let taken = orig.take(k + 1);
                    assert(taken.subrange(0, k) =~= orig.take(k));
                    assert(out@.subrange(0, k) =~= before);
                }
            }
            proof {
                assert(orig.take(orig.len() as int) =~= orig);
            }
            let body = convert_term(*term);
            SmtTerm::Let { var_bindings: out, term: Box::new(body) }
        },
        concrete::Term::Forall { .. } => SmtTerm::Forall,
        concrete::Term::Exists { .. } => SmtTerm::Exists,
        concrete::Term::Match { .. } => SmtTerm::Match,
        concrete::Term::Attributes { .. } => SmtTerm::Attributes,
    }
}

/// Converts a command.
pub fn convert_command(c: concrete::Command) -> (r: SmtCommand)
    ensures
        command_matches(c, r),
{
    match c {
        concrete::Command::Assert { term } => SmtCommand::Assert { term: convert_term(term) },
        concrete::Command::CheckSat => SmtCommand::CheckSat,
        concrete::Command::DeclareConst { symbol, sort } => SmtCommand::DeclareConst {
            symbol: symbol.0,
            sort: convert_sort(sort),
        },
        concrete::Command::DeclareFun { symbol, parameters, sort } => {
            let ghost orig = parameters@;
            let mut parameters = parameters;
            let mut out: Vec<SmtSort> = Vec::new();
            while parameters.len() > 0
                invariant
                    out@.len() + parameters@.len() == orig.len(),
                    parameters@ == orig.skip(out@.len() as int),
                    forall|i: int| 0 <= i < out@.len() ==> #[trigger] sort_matches(orig[i], out@[i]),
                decreases parameters@.len(),
            {
                let ghost k = out@.len() as int;
                let parameter = parameters.remove(0);
                assert(parameter == orig[k]);
                out.push(convert_sort(parameter));
                assert(parameters@ =~= orig.skip(k + 1));
            }
            SmtCommand::DeclareFun { symbol: symbol.0, parameters: out, sort: convert_sort(sort) }
        },
        concrete::Command::Exit => SmtCommand::Exit,
        concrete::Command::SetInfo { keyword, value } => SmtCommand::SetInfo {
            keyword: keyword.0,
            value: match value {
                visitors::AttributeValue::Symbol(symbol) => SmtAttributeValue::Symbol(symbol.0),
                _ => SmtAttributeValue::Other,
            },
        },
        concrete::Command::SetLogic { symbol } => SmtCommand::SetLogic { symbol: symbol.0 },
        _ => SmtCommand::Other,
    }
}

/// A read command, or the error where the reader failed, converted.
pub open spec fn read_result_matches(c: Result<concrete::Command, ()>, s: Result<SmtCommand, ()>) -> bool {
    match c {
        Ok(command) => s matches Ok(sc) && command_matches(command, sc),
        Err(()) => s is Err,
    }
}

/// Reads the SMT-LIB-2 commands of the text into the parser's syntax, in
/// order, each as the reader gives it.
pub fn read_commands(text: &[u8]) -> (r: Vec<Result<SmtCommand, ()>>)
    ensures
        r@.len() == smt2_commands(text@).len(),
        forall|i: int| 0 <= i < r@.len() ==> #[trigger] read_result_matches(smt2_commands(text@)[i], r@[i]),
{
    let raw = read_raw_commands(text);
    let ghost orig = raw@;
    let mut raw = raw;
    let mut out: Vec<Result<SmtCommand, ()>> = Vec::new();
    while raw.len() > 0
        invariant
            orig == smt2_commands(text@),
            out@.len() + raw@.len() == orig.len(),
            raw@ == orig.skip(out@.len() as int),
            forall|i: int| 0 <= i < out@.len() ==> #[trigger] read_result_matches(orig[i], out@[i]),
        decreases raw@.len(),
    {
        let ghost k = out@.len() as int;
        let command = raw.remove(0);
        assert(command == orig[k]);
        let converted = match command {
            Ok(command) => Ok(convert_command(command)),
            Err(()) => Err(()),
        };
        out.push(converted);
        assert(raw@ =~= orig.skip(k + 1));
    }
    out
}

} // verus!
