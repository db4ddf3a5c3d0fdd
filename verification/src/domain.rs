//! Value domains: concrete bitvectors, three-valued logic and
//! three-valued bitvectors.
pub mod bitvector;
pub mod three_valued_bitvector;
pub mod value;
