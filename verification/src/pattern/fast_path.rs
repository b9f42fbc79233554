//! The operations that have a fast path.

use vstd::prelude::*;

verus! {

/// A recognised operation.
#[derive(Debug, Clone, PartialEq, Eq)]
pub enum FastPath {
    /// Matrix multiplication, such as `ij,jk->ik`.
    Matmul { transpose_a: bool, transpose_b: bool },
    /// Batched matrix multiplication, such as `bij,bjk->bik`.
    BatchedMatmul { batch_dims: Vec<usize>, transpose_a: bool, transpose_b: bool },
    /// A reduction over some axes, such as `ij->i`.
    Reduce { axes: Vec<usize>, op: ReduceOp },
    /// A permutation of the axes, such as `ij->ji`.
    Transpose { permutation: Vec<usize> },
    /// The element-wise product, `ij,ij->ij`.
    Hadamard,
    /// The outer product, `i,j->ij`.
    OuterProduct,
    /// The inner product, `i,i->`.
    DotProduct,
    /// The sum of the diagonal, `ii->`.
    Trace,
    /// The diagonal, `ii->i`.
    DiagonalExtract,
}

/// How a reduction combines the elements.
#[derive(Debug, Clone, Copy, PartialEq, Eq)]
pub enum ReduceOp {
    Sum,
    Prod,
    Max,
    Min,
    Mean,
}

impl FastPath {
    /// Is this a matrix multiplication, batched or not?
    pub fn is_matmul(&self) -> (r: bool)
        ensures
            r == (*self is Matmul || *self is BatchedMatmul),
    {
        match self {
            FastPath::Matmul { .. } => true,
            FastPath::BatchedMatmul { .. } => true,
            _ => false,
        }
    }

    /// Does the operation take one operand?
    pub fn is_unary(&self) -> (r: bool)
        ensures
            r == (*self is Reduce || *self is Transpose || *self is Trace || *self is DiagonalExtract),
    {
        match self {
            FastPath::Reduce { .. } => true,
            FastPath::Transpose { .. } => true,
            FastPath::Trace => true,
            FastPath::DiagonalExtract => true,
            _ => false,
        }
    }

    /// Does the operation take two operands?
    pub fn is_binary(&self) -> (r: bool)
        ensures
            r == (*self is Matmul || *self is BatchedMatmul || *self is Hadamard || *self is OuterProduct
                || *self is DotProduct),
            r == !(*self is Reduce || *self is Transpose || *self is Trace || *self is DiagonalExtract),
    {
        match self {
            FastPath::Matmul { .. } => true,
            FastPath::BatchedMatmul { .. } => true,
            FastPath::Hadamard => true,
            FastPath::OuterProduct => true,
            FastPath::DotProduct => true,
            _ => false,
        }
    }

    /// The name of the operation.
    pub fn name(&self) -> (r: &'static str)
        ensures
            r@ == (match *self {
                FastPath::Matmul { .. } => "matmul"@,
                FastPath::BatchedMatmul { .. } => "batched_matmul"@,
                FastPath::Reduce { .. } => "reduce"@,
                FastPath::Transpose { .. } => "transpose"@,
                FastPath::Hadamard => "hadamard"@,
                FastPath::OuterProduct => "outer_product"@,
                FastPath::DotProduct => "dot_product"@,
                FastPath::Trace => "trace"@,
                FastPath::DiagonalExtract => "diagonal_extract"@,
            }),
    {
        match self {
            FastPath::Matmul { .. } => "matmul",
            FastPath::BatchedMatmul { .. } => "batched_matmul",
            FastPath::Reduce { .. } => "reduce",
            FastPath::Transpose { .. } => "transpose",
            FastPath::Hadamard => "hadamard",
            FastPath::OuterProduct => "outer_product",
            FastPath::DotProduct => "dot_product",
            FastPath::Trace => "trace",
            FastPath::DiagonalExtract => "diagonal_extract",
        }
    }
}

} // verus!
