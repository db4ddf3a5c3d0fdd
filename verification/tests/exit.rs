use roole::exit::{ExitValue, RooleResult};
use roole::parser::ParserResult;

#[test]
fn exit_codes_of_results() {
    assert_eq!(ExitValue::from_roole_result(RooleResult::NoResult).code(), 0);
    assert_eq!(ExitValue::from_roole_result(RooleResult::Known(true)).code(), 10);
    assert_eq!(ExitValue::from_roole_result(RooleResult::Wrong(true)).code(), 11);
    assert_eq!(ExitValue::from_roole_result(RooleResult::Known(false)).code(), 20);
    assert_eq!(ExitValue::from_roole_result(RooleResult::Wrong(false)).code(), 21);
    assert_eq!(ExitValue::from_roole_result(RooleResult::Unknown).code(), 47);
    assert_eq!(ExitValue::TimeLimitExceeded.code(), 61);
    assert_eq!(ExitValue::HeapLimitExceeded.code(), 62);
}

#[test]
fn exit_values_of_parser_results() {
    assert_eq!(ExitValue::from_parser_result(ParserResult::NoResult).code(), 0);
    assert_eq!(ExitValue::from_parser_result(ParserResult::Known(true)).code(), 10);
    assert_eq!(ExitValue::from_parser_result(ParserResult::Wrong(true)).code(), 11);
    assert_eq!(ExitValue::from_parser_result(ParserResult::Known(false)).code(), 20);
    assert_eq!(ExitValue::from_parser_result(ParserResult::Wrong(false)).code(), 21);
    assert_eq!(ExitValue::from_parser_result(ParserResult::Unknown).code(), 47);
}
