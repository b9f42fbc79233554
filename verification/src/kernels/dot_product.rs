//! Launch decisions of the inner product.

use crate::dims::{element_count, product};
use crate::error::EinsumError;
use crate::kernels::grid::{block_count, blocks, kernel_arg, reports_launch, same_shape, LaunchFault, BLOCK_SIZE};
use vstd::prelude::*;
use vstd::string::StringExecFns;

verus! {

/// The passes of an inner product.
#[derive(Debug, Clone, Copy, PartialEq, Eq, Structural)]
pub enum DotPasses {
    /// One block multiplies and sums all elements.
    Fused { elements: u32 },
    /// Each of `blocks` blocks sums its part; one block sums the partial sums.
    TwoPass { elements: u32, blocks: u32 },
    /// As before, but the partial sums are summed by `final_blocks` blocks, whose
    /// sums one block sums.
    ThreePass { elements: u32, blocks: u32, final_blocks: u32 },
}

/// What the inner product does: nothing for empty operands; else as many
/// passes as the number of elements calls for.
pub open spec fn dot_product_spec(lhs: Seq<usize>, rhs: Seq<usize>, output: Seq<usize>) -> Result<
    Option<DotPasses>,
    LaunchFault,
> {
    let n = product(lhs);
    let b = blocks(n, BLOCK_SIZE as nat);
    let f = blocks(b, BLOCK_SIZE as nat);
    if lhs != rhs {
        Err(LaunchFault::ShapesDiffer)
    } else if n == 0 {
        Ok(None)
    } else if product(output) != 1 {
        Err(LaunchFault::OutputMismatch)
    } else if n > u32::MAX {
        Err(LaunchFault::TooLarge)
    } else if b == 1 {
        Ok(Some(DotPasses::Fused { elements: n as u32 }))
    } else if f == 1 {
        Ok(Some(DotPasses::TwoPass { elements: n as u32, blocks: b as u32 }))
    } else {
        Ok(Some(DotPasses::ThreePass { elements: n as u32, blocks: b as u32, final_blocks: f as u32 }))
    }
}

/// The passes of the inner product of two tensors of one shape into a scalar.
pub fn plan_dot_product(lhs: &[usize], rhs: &[usize], output: &[usize]) -> (res: Result<
    Option<DotPasses>,
    EinsumError,
>)
    ensures
        match res {
            Ok(p) => dot_product_spec(lhs@, rhs@, output@) == Ok::<Option<DotPasses>, LaunchFault>(p),
            Err(e) => dot_product_spec(lhs@, rhs@, output@) matches Err(f) && reports_launch(e, f),
        },
{
    if !same_shape(lhs, rhs) {
        return Err(EinsumError::launch("dot product requires same shape inputs"));
    }
    let n = element_count(lhs);
    if n == 0 {
        return Ok(None);
    }
    let output_size = element_count(output);
    if output_size != 1 {
        let mut message = String::from_str("dot product output should be scalar, got size ");
        message.append(output_size.to_string().as_str());
        return Err(EinsumError::LaunchError { message });
    }
    let elements = match kernel_arg(n) {
        Ok(v) => v,
        Err(e) => {
            return Err(e);
        },
    };
    let num_blocks = block_count(elements, BLOCK_SIZE);
    if num_blocks == 1 {
        return Ok(Some(DotPasses::Fused { elements }));
    }
    let final_blocks = block_count(num_blocks, BLOCK_SIZE);
    if final_blocks == 1 {
        Ok(Some(DotPasses::TwoPass { elements, blocks: num_blocks }))
    } else {
        Ok(Some(DotPasses::ThreePass { elements, blocks: num_blocks, final_blocks }))
    }
}

} // verus!
