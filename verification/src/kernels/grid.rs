//! Launch grids: how many blocks of threads cover a number of elements.

use crate::dims::product;
use crate::error::EinsumError;
use vstd::prelude::*;

verus! {

/// The threads of a block of the element-wise kernels.
pub const BLOCK_SIZE: u32 = 256;

/// The side of a tile of the outer product.
pub const TILE_SIZE: u32 = 16;

/// The number of blocks of `block` threads that cover `n` elements.
pub open spec fn blocks(n: nat, block: nat) -> nat {
    n / block + if n % block == 0 {
        0nat
    } else {
        1nat
    }
}

/// Why a kernel is not launched.
pub enum LaunchFault {
    /// The operands do not have the same shape.
    ShapesDiffer,
    /// The output does not have the shape or the size that the operands call for.
    OutputMismatch,
    /// The operand has fewer than two axes.
    RankTooLow,
    /// The last two axes are not equally long.
    NotSquare,
    /// The operands and the output do not have the same rank.
    RankMismatch,
    /// Shape and strides are not equally long.
    Strides,
    /// A size does not fit in the 32 bits of a kernel argument.
    TooLarge,
    /// The rank is above what the kernels take.
    RankTooHigh,
    /// The element counts of source and destination differ.
    CountsDiffer,
}

/// The error that reports a fault.
pub open spec fn reports_launch(e: EinsumError, f: LaunchFault) -> bool {
    match f {
        LaunchFault::ShapesDiffer | LaunchFault::OutputMismatch | LaunchFault::RankTooLow | LaunchFault::NotSquare
        | LaunchFault::RankMismatch | LaunchFault::RankTooHigh => e is LaunchError,
        LaunchFault::Strides | LaunchFault::CountsDiffer => e is ShapeError,
        LaunchFault::TooLarge => e is Unsupported,
    }
}

/// A grid of blocks in one dimension.
#[derive(Debug, Clone, Copy, PartialEq, Eq, Structural)]
pub struct Grid {
    /// The number of blocks.
    pub cubes: u32,
    /// The number of elements, one thread each.
    pub elements: u32,
}

/// The grid for `n` elements.
pub open spec fn grid_of(n: nat) -> Grid {
    Grid { cubes: blocks(n, BLOCK_SIZE as nat) as u32, elements: n as u32 }
}

/// The number of blocks of `block` threads that cover `n` elements.
pub fn block_count(n: u32, block: u32) -> (r: u32)
    requires
        block > 0,
    ensures
        r == blocks(n as nat, block as nat),
{
    let q = n / block;
    if n % block == 0 {
        q
    } else {
        assert(q < n) by (nonlinear_arith)
            requires
                q == n / block,
                n % block != 0,
                block > 0,
        ;
        q + 1
    }
}

/// Are two shapes the same?
pub fn same_shape(a: &[usize], b: &[usize]) -> (r: bool)
    ensures
        r == (a@ == b@),
{
    if a.len() != b.len() {
        return false;
    }
    let mut i: usize = 0;
    while i < a.len()
        invariant
            i <= a.len(),
            a@.len() == b@.len(),
            forall|k: int| 0 <= k < i ==> a@[k] == b@[k],
        decreases a.len() - i,
    {
        if a[i] != b[i] {
            return false;
        }
        i += 1;
    }
    assert(a@ =~= b@);
    true
}

/// A size as a kernel argument of 32 bits.
pub fn kernel_arg(n: u64) -> (r: Result<u32, EinsumError>)
    ensures
        match r {
            Ok(v) => v == n,
            Err(e) => n > u32::MAX && e is Unsupported,
        },
{
    if n > u32::MAX as u64 {
        Err(EinsumError::unsupported("a size exceeds the 32 bits of a kernel argument"))
    } else {
        Ok(n as u32)
    }
}

/// The grid for `n` elements.
pub fn grid_for(n: u64) -> (r: Result<Grid, EinsumError>)
    ensures
        match r {
            Ok(g) => n <= u32::MAX && g == grid_of(n as nat),
            Err(e) => n > u32::MAX && e is Unsupported,
        },
{
    match kernel_arg(n) {
        Ok(elements) => Ok(Grid { cubes: block_count(elements, BLOCK_SIZE), elements }),
        Err(e) => Err(e),
    }
}

} // verus!
