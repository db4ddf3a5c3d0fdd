use roole::parser::input::read_commands;
use roole::parser::syntax::{SmtCommand, SmtConstant, SmtIdentifier, SmtIndex, SmtQualIdentifier, SmtSort, SmtTerm};

#[test]
fn commands_are_read_from_text() {
    let text = b"(set-logic QF_BV)\n(declare-const x (_ BitVec 8))\n(assert (= x #b00000101))\n(check-sat)\n(exit)\n";
    let commands = read_commands(text);
    assert_eq!(commands.len(), 5);
    match &commands[0] {
        Ok(SmtCommand::SetLogic { symbol }) => assert_eq!(symbol, "QF_BV"),
        other => panic!("unexpected {:?}", other),
    }
    match &commands[1] {
        Ok(SmtCommand::DeclareConst { symbol, sort }) => {
            assert_eq!(symbol, "x");
            match sort {
                SmtSort::Simple { identifier: SmtIdentifier::Indexed { symbol, indices } } => {
                    assert_eq!(symbol, "BitVec");
                    assert_eq!(indices, &vec![SmtIndex::Numeral(Some(8))]);
                }
                other => panic!("unexpected {:?}", other),
            }
        }
        other => panic!("unexpected {:?}", other),
    }
    match &commands[2] {
        Ok(SmtCommand::Assert { term: SmtTerm::Application { qual_identifier, arguments } }) => {
            assert_eq!(
                qual_identifier,
                &SmtQualIdentifier::Simple { identifier: SmtIdentifier::Simple { symbol: "=".to_string() } }
            );
            assert_eq!(arguments.len(), 2);
            match &arguments[1] {
                SmtTerm::Constant(SmtConstant::Binary(bits)) => {
                    assert_eq!(bits, &vec![false, false, false, false, false, true, false, true]);
                }
                other => panic!("unexpected {:?}", other),
            }
        }
        other => panic!("unexpected {:?}", other),
    }
    assert!(matches!(commands[3], Ok(SmtCommand::CheckSat)));
    assert!(matches!(commands[4], Ok(SmtCommand::Exit)));
}

#[test]
fn unreadable_text_gives_an_error_and_stops() {
    let commands = read_commands(b"(check-sat)\n(assert (= x\n");
    assert!(matches!(commands[0], Ok(SmtCommand::CheckSat)));
    assert!(commands.len() >= 2);
    assert!(commands[commands.len() - 1].is_err());
}

#[test]
fn let_terms_and_other_commands() {
    let commands = read_commands(b"(assert (let ((a x)) a))\n(get-model)\n");
    assert_eq!(commands.len(), 2);
    match &commands[0] {
        Ok(SmtCommand::Assert { term: SmtTerm::Let { var_bindings, term } }) => {
            assert_eq!(var_bindings.len(), 1);
            assert_eq!(var_bindings[0].0, "a");
            assert!(matches!(**term, SmtTerm::QualIdentifier(_)));
        }
        other => panic!("unexpected {:?}", other),
    }
    assert!(matches!(commands[1], Ok(SmtCommand::Other)));
}
