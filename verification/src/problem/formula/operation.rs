//! Operations of the full operator set, with division and negated bitwise
//! operators.
pub mod bi;
