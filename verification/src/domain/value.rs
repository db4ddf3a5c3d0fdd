//! Three-valued logic and parametric valuations.
pub mod param_valuation;
pub mod three_valued;

pub use param_valuation::{KnownParamValuation, ParamValuation};
pub use three_valued::ThreeValued;
