use roole::domain::bitvector::{ConcreteBitvector, RBound};
use roole::domain::value::three_valued::ThreeValued;
use roole::parser::model::ParseError;
use roole::parser::syntax::{SmtAttributeValue, SmtCommand, SmtConstant, SmtIdentifier, SmtIndex, SmtQualIdentifier, SmtSort, SmtTerm};
use roole::parser::{ParseStep, Parser, ParserResult};
use roole::problem::evaluator::Evaluator;
use roole::problem::formula::{FormulaId, OperationId, VariableId};
use roole::problem::operation::Operation;
use roole::problem::Problem;

fn qual(name: &str) -> SmtQualIdentifier {
    SmtQualIdentifier::Simple { identifier: SmtIdentifier::Simple { symbol: name.to_string() } }
}

fn var(name: &str) -> SmtTerm {
    SmtTerm::QualIdentifier(qual(name))
}

fn app(name: &str, arguments: Vec<SmtTerm>) -> SmtTerm {
    SmtTerm::Application { qual_identifier: qual(name), arguments }
}

fn bv_sort(width: u32) -> SmtSort {
    SmtSort::Simple {
        identifier: SmtIdentifier::Indexed { symbol: "BitVec".to_string(), indices: vec![SmtIndex::Numeral(Some(width))] },
    }
}

fn bool_sort() -> SmtSort {
    SmtSort::Simple { identifier: SmtIdentifier::Simple { symbol: "Bool".to_string() } }
}

fn bv_const(value: u64, width: u32) -> SmtTerm {
    SmtTerm::QualIdentifier(SmtQualIdentifier::Simple {
        identifier: SmtIdentifier::Indexed { symbol: format!("bv{}", value), indices: vec![SmtIndex::Numeral(Some(width))] },
    })
}

fn declare(parser: &mut Parser, name: &str, sort: SmtSort) {
    let step = parser.parse_command(SmtCommand::DeclareFun { symbol: name.to_string(), parameters: vec![], sort });
    assert!(matches!(step, Ok(ParseStep::Continue)));
}

fn assert_term(parser: &mut Parser, term: SmtTerm) {
    let step = parser.parse_command(SmtCommand::Assert { term });
    assert!(matches!(step, Ok(ParseStep::Continue)));
}

fn check_sat(parser: &mut Parser) -> Option<Problem> {
    match parser.parse_command(SmtCommand::CheckSat) {
        Ok(ParseStep::CheckSat(problem)) => problem,
        _ => panic!("check-sat should give a problem step"),
    }
}

fn text(operation: &Operation) -> String {
    let mut out = String::new();
    operation.write_text(&mut out);
    out
}

fn evaluate(problem: &Problem, values: Vec<ConcreteBitvector>) -> Option<ConcreteBitvector> {
    let mut evaluator = Evaluator::new(problem);
    evaluator.evaluate(&values)
}

fn bv(value: u64, width: u32) -> ConcreteBitvector {
    ConcreteBitvector::new(value, RBound::new(width))
}

#[test]
fn equality_assertion_gives_a_problem() {
    let mut parser = Parser::new();
    declare(&mut parser, "x", bv_sort(8));
    assert_term(&mut parser, app("=", vec![var("x"), bv_const(5, 8)]));
    let problem = check_sat(&mut parser).expect("there is an assertion");
    assert_eq!(problem.variables.len(), 1);
    assert_eq!(problem.variables[0].width, 8);
    assert_eq!(problem.operations.len(), 2);
    assert_eq!(text(&problem.operations[0]), "bv_8(5)");
    assert_eq!(text(&problem.operations[1]), "Eq_8(#0,$0)");
    assert_eq!(problem.assertion, FormulaId::Operation(OperationId(1)));
    let mut shown = String::new();
    problem.write_text(&mut shown);
    assert_eq!(shown, "Problem { #0: Variable { width: 8 }, $0: bv_8(5), $1: Eq_8(#0,$0) }");
    assert_eq!(evaluate(&problem, vec![bv(5, 8)]), Some(ConcreteBitvector::from_bool(true)));
    assert_eq!(evaluate(&problem, vec![bv(4, 8)]), Some(ConcreteBitvector::from_bool(false)));
}

#[test]
fn assertions_are_joined_by_bitwise_and() {
    let mut parser = Parser::new();
    declare(&mut parser, "a", bool_sort());
    declare(&mut parser, "b", bool_sort());
    assert_term(&mut parser, var("a"));
    assert_term(&mut parser, app("not", vec![var("b")]));
    let problem = check_sat(&mut parser).expect("there are assertions");
    assert_eq!(problem.operations.len(), 2);
    assert_eq!(text(&problem.operations[0]), "Not_1(#1)");
    assert_eq!(text(&problem.operations[1]), "BitAnd_1(#0,$0)");
    assert_eq!(problem.assertion, FormulaId::Operation(OperationId(1)));
    let one = bv(1, 1);
    let zero = bv(0, 1);
    assert_eq!(evaluate(&problem, vec![one, zero]), Some(one));
    assert_eq!(evaluate(&problem, vec![one, one]), Some(zero));
    assert_eq!(evaluate(&problem, vec![zero, zero]), Some(zero));
}

#[test]
fn check_sat_without_assertions_gives_no_problem() {
    let mut parser = Parser::new();
    declare(&mut parser, "x", bv_sort(4));
    assert!(check_sat(&mut parser).is_none());
}

#[test]
fn let_binds_names_in_a_scope() {
    let mut parser = Parser::new();
    declare(&mut parser, "x", bv_sort(8));
    // (let ((y (bvadd x x))) (= y x))
    let term = SmtTerm::Let {
        var_bindings: vec![("y".to_string(), app("bvadd", vec![var("x"), var("x")]))],
        term: Box::new(app("=", vec![var("y"), var("x")])),
    };
    assert_term(&mut parser, term);
    // the name is not bound after the let
    let outside = parser.parse_command(SmtCommand::Assert { term: var("y") });
    assert!(matches!(outside, Err(ParseError::UnknownIdentifier)));
    let problem = check_sat(&mut parser).expect("there is an assertion");
    assert_eq!(text(&problem.operations[0]), "Add_8(#0,#0)");
    assert_eq!(text(&problem.operations[1]), "Eq_8($0,#0)");
    assert_eq!(evaluate(&problem, vec![bv(0, 8)]), Some(bv(1, 1)));
    assert_eq!(evaluate(&problem, vec![bv(128, 8)]), Some(bv(0, 1)));
}

#[test]
fn binary_constants_and_truth_values() {
    let mut parser = Parser::new();
    declare(&mut parser, "x", bv_sort(3));
    let binary = SmtTerm::Constant(SmtConstant::Binary(vec![true, false, true]));
    assert_term(&mut parser, app("=", vec![var("x"), binary]));
    assert_term(&mut parser, var("true"));
    let problem = check_sat(&mut parser).expect("there are assertions");
    assert_eq!(text(&problem.operations[0]), "bv_3(5)");
    assert_eq!(text(&problem.operations[2]), "bv_1(1)");
    assert_eq!(evaluate(&problem, vec![bv(5, 3)]), Some(bv(1, 1)));
}

#[test]
fn extension_and_if_then_else() {
    let mut parser = Parser::new();
    declare(&mut parser, "c", bool_sort());
    declare(&mut parser, "x", bv_sort(4));
    let extended = SmtTerm::Application {
        qual_identifier: SmtQualIdentifier::Simple {
            identifier: SmtIdentifier::Indexed { symbol: "zero_extend".to_string(), indices: vec![SmtIndex::Numeral(Some(4))] },
        },
        arguments: vec![var("x")],
    };
    let ite = app("ite", vec![var("c"), extended, bv_const(200, 8)]);
    assert_term(&mut parser, app("=", vec![ite, bv_const(9, 8)]));
    let problem = check_sat(&mut parser).expect("there is an assertion");
    assert_eq!(text(&problem.operations[0]), "uext_4_8(#1)");
    assert_eq!(text(&problem.operations[1]), "bv_8(200)");
    assert_eq!(text(&problem.operations[2]), "ite_8(#0,$0,$1)");
    assert_eq!(evaluate(&problem, vec![bv(1, 1), bv(9, 4)]), Some(bv(1, 1)));
    assert_eq!(evaluate(&problem, vec![bv(0, 1), bv(9, 4)]), Some(bv(0, 1)));
}

#[test]
fn refused_commands_and_terms() {
    let mut parser = Parser::new();
    declare(&mut parser, "x", bv_sort(8));
    declare(&mut parser, "y", bv_sort(4));
    let duplicate = parser.parse_command(SmtCommand::DeclareConst { symbol: "x".to_string(), sort: bv_sort(8) });
    assert!(matches!(duplicate, Err(ParseError::DuplicateName)));
    let function = parser.parse_command(SmtCommand::DeclareFun {
        symbol: "f".to_string(),
        parameters: vec![bv_sort(8)],
        sort: bv_sort(8),
    });
    assert!(matches!(function, Err(ParseError::FunctionWithParameters)));
    let mismatch = parser.parse_command(SmtCommand::Assert { term: app("=", vec![var("x"), var("y")]) });
    assert!(matches!(mismatch, Err(ParseError::WidthMismatch)));
    let unsupported = parser.parse_command(SmtCommand::Assert { term: app("bvmul", vec![var("x"), var("x")]) });
    assert!(matches!(unsupported, Err(ParseError::UnsupportedApplication)));
    let arguments = parser.parse_command(SmtCommand::Assert { term: app("not", vec![var("x"), var("x")]) });
    assert!(matches!(arguments, Err(ParseError::ArgumentCount)));
    let quantifier = parser.parse_command(SmtCommand::Assert { term: SmtTerm::Forall });
    assert!(matches!(quantifier, Err(ParseError::Quantifier)));
    let numeral = parser.parse_command(SmtCommand::Assert { term: SmtTerm::Constant(SmtConstant::Numeral) });
    assert!(matches!(numeral, Err(ParseError::UnsupportedConstant)));
    let logic = parser.parse_command(SmtCommand::SetLogic { symbol: "QF_LIA".to_string() });
    assert!(matches!(logic, Err(ParseError::UnsupportedLogic)));
    assert!(matches!(parser.parse_command(SmtCommand::Other), Err(ParseError::UnsupportedCommand)));
    let sort = parser.parse_command(SmtCommand::DeclareConst { symbol: "z".to_string(), sort: SmtSort::Parameterized });
    assert!(matches!(sort, Err(ParseError::UnsupportedSort)));
}

#[test]
fn logic_exit_and_status() {
    let mut parser = Parser::new();
    let logic = parser.parse_command(SmtCommand::SetLogic { symbol: "QF_BV".to_string() });
    assert!(matches!(logic, Ok(ParseStep::Continue)));
    let status = parser.parse_command(SmtCommand::SetInfo {
        keyword: "status".to_string(),
        value: SmtAttributeValue::Symbol("unsat".to_string()),
    });
    assert!(matches!(status, Ok(ParseStep::Continue)));
    assert_eq!(parser.expected_result, Some(false));
    let other_info = parser.parse_command(SmtCommand::SetInfo {
        keyword: "source".to_string(),
        value: SmtAttributeValue::Other,
    });
    assert!(matches!(other_info, Ok(ParseStep::Continue)));
    let bad_status = parser.parse_command(SmtCommand::SetInfo {
        keyword: "status".to_string(),
        value: SmtAttributeValue::Symbol("maybe".to_string()),
    });
    assert!(matches!(bad_status, Err(ParseError::StatusValue)));
    assert!(matches!(parser.parse_command(SmtCommand::Exit), Ok(ParseStep::Exit)));
}

#[test]
fn results_are_checked_against_the_status() {
    let mut parser = Parser::new();
    parser.expected_result = Some(true);
    assert_eq!(parser.parser_result(ThreeValued::True), ParserResult::Known(true));
    assert_eq!(parser.parser_result(ThreeValued::False), ParserResult::Wrong(false));
    assert_eq!(parser.parser_result(ThreeValued::Unknown), ParserResult::Unknown);
    assert_eq!(parser.final_result(), ParserResult::NoResult);
    parser.record_result(ThreeValued::False);
    assert_eq!(parser.final_result(), ParserResult::Wrong(false));
    parser.record_result(ThreeValued::True);
    assert_eq!(parser.final_result(), ParserResult::NoResult);
}

#[test]
fn find_by_name_sees_declarations() {
    let mut parser = Parser::new();
    declare(&mut parser, "x", bv_sort(8));
    assert_eq!(parser.find_by_name("x"), Some(FormulaId::Variable(VariableId(0))));
    assert_eq!(parser.find_by_name("y"), None);
}
