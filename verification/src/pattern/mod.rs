//! Recognition of the operations that have a fast path.

pub mod binary;
pub mod fast_path;
pub mod matmul;
pub mod recognize;
pub mod unary;

pub use binary::{is_dot_product, is_hadamard, is_outer_product};
pub use fast_path::FastPath;
pub use matmul::{extract_matmul_config, is_batched_matmul, is_matmul, MatmulConfig};
pub use recognize::{recognize_pattern, PatternMatcher};
pub use unary::{is_diagonal_extract, is_reduction, is_trace, is_transpose};
