//! Einstein summation: notation, validation, pattern recognition and contraction planning.

pub mod chars;
pub mod dims;
pub mod error;
pub mod index_set;
pub mod kernels;
pub mod launch;
pub mod notation;
pub mod optimization;
pub mod pattern;
pub mod tables;

pub use error::EinsumError;
pub use notation::Subscript;
pub use notation::{parse_einsum, EinsumNotation};
pub use optimization::{ContractionStrategy, ExecutionPlan, ExecutionStep};
pub use pattern::{FastPath, PatternMatcher};
pub use launch::EinsumConfig;
