//! What an einsum call decides before and between its kernels: its options, its
//! temporary tensors, and the layout of every operand.

pub mod config;
pub mod executor;
pub mod layout;
pub mod prepare;
pub mod tracking;
pub mod workspace;

pub use config::EinsumConfig;
pub use layout::TensorLayout;
pub use workspace::Workspace;
