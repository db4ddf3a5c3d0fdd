//! Roole: an SMT solver for the quantifier-free bitvector logic.
//!
//! The library holds the value domains, the formula and operation
//! representation, the linear (polynomial) abstraction of bitvector
//! operations and the SMT-LIB-2 parsing logic, each with its contract.
pub mod domain;
pub mod exit;
pub mod formula;
pub mod parser;
pub mod printing;
pub mod problem;
