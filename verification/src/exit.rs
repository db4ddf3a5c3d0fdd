//! The result of a run and the exit value of the program.
use vstd::prelude::*;

use crate::parser::ParserResult;

verus! {

/// Result of running the solver.
#[derive(Clone, Copy, Debug, PartialEq, Eq, Structural)]
pub enum RooleResult {
    /// Nothing was checked.
    NoResult,
    /// Satisfiability could not be decided.
    Unknown,
    /// Satisfiable (`true`) or unsatisfiable (`false`).
    Known(bool),
    /// A result that validation found wrong.
    Wrong(bool),
}

/// Exit value of the program.
#[derive(Clone, Copy, Debug, PartialEq, Eq, Structural, PartialOrd, Ord)]
pub enum ExitValue {
    Standard,
    Satisfiable,
    WrongSatisfiable,
    Unsatisfiable,
    WrongUnsatisfiable,
    Unknown,
    TimeLimitExceeded,
    HeapLimitExceeded,
}

/// The process exit code of each exit value.
pub open spec fn spec_exit_code(value: ExitValue) -> u8 {
    match value {
        ExitValue::Standard => 0,
        ExitValue::Satisfiable => 10,
        ExitValue::WrongSatisfiable => 11,
        ExitValue::Unsatisfiable => 20,
        ExitValue::WrongUnsatisfiable => 21,
        ExitValue::Unknown => 47,
        ExitValue::TimeLimitExceeded => 61,
        ExitValue::HeapLimitExceeded => 62,
    }
}

impl ExitValue {
    /// The exit value reporting a result.
    pub fn from_roole_result(roole_result: RooleResult) -> (r: ExitValue)
        ensures
            r == match roole_result {
                RooleResult::NoResult => ExitValue::Standard,
                RooleResult::Unknown => ExitValue::Unknown,
                RooleResult::Known(true) => ExitValue::Satisfiable,
                RooleResult::Known(false) => ExitValue::Unsatisfiable,
                RooleResult::Wrong(true) => ExitValue::WrongSatisfiable,
                RooleResult::Wrong(false) => ExitValue::WrongUnsatisfiable,
            },
    {
        match roole_result {
            RooleResult::NoResult => ExitValue::Standard,
            RooleResult::Unknown => ExitValue::Unknown,
            RooleResult::Known(value) => {
                if value {
                    ExitValue::Satisfiable
                } else {
                    ExitValue::Unsatisfiable
                }
            },
            RooleResult::Wrong(value) => {
                if value {
                    ExitValue::WrongSatisfiable
                } else {
                    ExitValue::WrongUnsatisfiable
                }
            },
        }
    }

    /// The exit value reporting the result of parsing a file.
    pub fn from_parser_result(parser_result: ParserResult) -> (r: ExitValue)
        ensures
            r == match parser_result {
                ParserResult::NoResult => ExitValue::Standard,
                ParserResult::Unknown => ExitValue::Unknown,
                ParserResult::Known(true) => ExitValue::Satisfiable,
                ParserResult::Known(false) => ExitValue::Unsatisfiable,
                ParserResult::Wrong(true) => ExitValue::WrongSatisfiable,
                ParserResult::Wrong(false) => ExitValue::WrongUnsatisfiable,
            },
    {
        let roole_result = match parser_result {
            ParserResult::NoResult => RooleResult::NoResult,
            ParserResult::Unknown => RooleResult::Unknown,
            ParserResult::Known(value) => RooleResult::Known(value),
            ParserResult::Wrong(value) => RooleResult::Wrong(value),
        };
        Self::from_roole_result(roole_result)
    }

    /// The process exit code.
    pub fn code(self) -> (r: u8)
        ensures
            r == spec_exit_code(self),
    {
        match self {
            ExitValue::Standard => 0,
            ExitValue::Satisfiable => 10,
            ExitValue::WrongSatisfiable => 11,
            ExitValue::Unsatisfiable => 20,
            ExitValue::WrongUnsatisfiable => 21,
            ExitValue::Unknown => 47,
            ExitValue::TimeLimitExceeded => 61,
            ExitValue::HeapLimitExceeded => 62,
        }
    }
}

/// Different exit values have different exit codes.
pub proof fn lemma_exit_codes_distinct(a: ExitValue, b: ExitValue)
    ensures
        spec_exit_code(a) == spec_exit_code(b) ==> a == b,
{
}

} // verus!
