//! Einsum notation: subscripts, the parsed notation, the parser and validation.

pub mod laws;
pub mod notation;
pub mod parser;
pub mod subscript;
pub mod validation;

pub use notation::EinsumNotation;
pub use parser::parse_einsum;
pub use subscript::{Index, Subscript};
pub use validation::validate_notation;
