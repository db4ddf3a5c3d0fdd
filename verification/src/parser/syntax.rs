//! SMT-LIB-2 syntax as the parser reads it: commands, terms, sorts and
//! identifiers, holding what the parser looks at as plain values.
use vstd::prelude::*;

verus! {

/// A constant of the SMT-LIB-2 syntax; of the kinds other than binary,
/// only the kind is kept.
#[derive(Clone, Debug, PartialEq, Eq)]
pub enum SmtConstant {
    Numeral,
    Decimal,
    Hexadecimal,
    /// The bits of a binary constant, most significant first.
    Binary(Vec<bool>),
    Text,
}

/// An index of an indexed identifier.
#[derive(Clone, Debug, PartialEq, Eq)]
pub enum SmtIndex {
    /// A numeral, where it fits in 32 bits.
    Numeral(Option<u32>),
    Symbol(String),
}

#[derive(Clone, Debug, PartialEq, Eq)]
pub enum SmtIdentifier {
    Simple { symbol: String },
    Indexed { symbol: String, indices: Vec<SmtIndex> },
}

#[derive(Clone, Debug, PartialEq, Eq)]
pub enum SmtSort {
    Simple { identifier: SmtIdentifier },
    Parameterized,
}

#[derive(Clone, Debug, PartialEq, Eq)]
pub enum SmtQualIdentifier {
    Simple { identifier: SmtIdentifier },
    Sorted { identifier: SmtIdentifier, sort: SmtSort },
}

/// A term of the SMT-LIB-2 syntax; of quantified, match and attributed
/// terms only the kind is kept.
#[derive(Debug)]
pub enum SmtTerm {
    Constant(SmtConstant),
    QualIdentifier(SmtQualIdentifier),
    Application { qual_identifier: SmtQualIdentifier, arguments: Vec<SmtTerm> },
    Let { var_bindings: Vec<(String, SmtTerm)>, term: Box<SmtTerm> },
    Forall,
    Exists,
    Match,
    Attributes,
}

/// The value of an attribute; only a symbol is kept.
#[derive(Clone, Debug, PartialEq, Eq)]
pub enum SmtAttributeValue {
    Symbol(String),
    Other,
}

/// A command of the SMT-LIB-2 syntax; the commands the parser does not
/// support are kept as `Other`.
#[derive(Debug)]
pub enum SmtCommand {
    Assert { term: SmtTerm },
    CheckSat,
    DeclareConst { symbol: String, sort: SmtSort },
    DeclareFun { symbol: String, parameters: Vec<SmtSort>, sort: SmtSort },
    Exit,
    SetInfo { keyword: String, value: SmtAttributeValue },
    SetLogic { symbol: String },
    Other,
}

} // verus!
