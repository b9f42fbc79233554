//! What the host decides before a kernel is launched: whether the operands
//! fit, and how many threads cover them.

pub mod broadcast_multiply;
pub mod diagonal;
pub mod dot_product;
pub mod elementwise;
pub mod grid;
