//! Launch decisions of the element-wise kernels: the product of two tensors of
//! one shape, the copy into contiguous storage, and the outer product.

use crate::dims::{capped, element_count, lemma_capped_mul, product, sat_mul};
use crate::error::EinsumError;
use crate::kernels::grid::{
    block_count, blocks, grid_for, grid_of, kernel_arg, reports_launch, same_shape, Grid, LaunchFault, TILE_SIZE,
};
use vstd::prelude::*;
use vstd::string::StringExecFns;

verus! {

/// What the element-wise product does with operands of these shapes: nothing
/// for an empty tensor, a launch of one thread for each element, or a fault.
pub open spec fn hadamard_spec(lhs: Seq<usize>, rhs: Seq<usize>, output: Seq<usize>) -> Result<
    Option<Grid>,
    LaunchFault,
> {
    if lhs != rhs {
        Err(LaunchFault::ShapesDiffer)
    } else if lhs != output {
        Err(LaunchFault::OutputMismatch)
    } else if product(lhs) == 0 {
        Ok(None)
    } else if product(lhs) > u32::MAX {
        Err(LaunchFault::TooLarge)
    } else {
        Ok(Some(grid_of(product(lhs))))
    }
}

/// The launch of the element-wise product `output[k] = lhs[k] * rhs[k]`.
pub fn plan_hadamard(lhs: &[usize], rhs: &[usize], output: &[usize]) -> (res: Result<Option<Grid>, EinsumError>)
    ensures
        match res {
            Ok(g) => hadamard_spec(lhs@, rhs@, output@) == Ok::<Option<Grid>, LaunchFault>(g),
            Err(e) => hadamard_spec(lhs@, rhs@, output@) matches Err(f) && reports_launch(e, f),
        },
{
    if !same_shape(lhs, rhs) {
        return Err(EinsumError::launch("hadamard requires same shape inputs"));
    }
    if !same_shape(lhs, output) {
        return Err(EinsumError::launch("hadamard output shape mismatch"));
    }
    let n = element_count(lhs);
    if n == 0 {
        return Ok(None);
    }
    match grid_for(n) {
        Ok(g) => Ok(Some(g)),
        Err(e) => Err(e),
    }
}

/// What the copy does: nothing for an empty tensor, a launch of one thread for
/// each element, or a fault where source and destination hold different
/// numbers of elements.
pub open spec fn copy_reshape_spec(input: Seq<usize>, output: Seq<usize>) -> Result<Option<Grid>, LaunchFault> {
    if capped(product(input)) != capped(product(output)) {
        Err(LaunchFault::CountsDiffer)
    } else if product(input) == 0 {
        Ok(None)
    } else if product(input) > u32::MAX {
        Err(LaunchFault::TooLarge)
    } else {
        Ok(Some(grid_of(product(input))))
    }
}

/// The launch of the copy `output[k] = input[k]` of a view into contiguous
/// storage.
pub fn plan_copy_reshape(input: &[usize], output: &[usize]) -> (res: Result<Option<Grid>, EinsumError>)
    ensures
        match res {
            Ok(g) => copy_reshape_spec(input@, output@) == Ok::<Option<Grid>, LaunchFault>(g),
            Err(e) => copy_reshape_spec(input@, output@) matches Err(f) && reports_launch(e, f),
        },
{
    let n = element_count(input);
    let m = element_count(output);
    if n != m {
        let mut message = String::from_str("copy_reshape: element count mismatch ");
        message.append(n.to_string().as_str());
        message.append(" vs ");
        message.append(m.to_string().as_str());
        return Err(EinsumError::ShapeError { message });
    }
    if n == 0 {
        return Ok(None);
    }
    match grid_for(n) {
        Ok(g) => Ok(Some(g)),
        Err(e) => Err(e),
    }
}

/// The launch of an outer product: tiles in two dimensions.
#[derive(Debug, Clone, Copy, PartialEq, Eq, Structural)]
pub struct OuterGrid {
    /// Tiles along the first operand.
    pub cubes_x: u32,
    /// Tiles along the second operand.
    pub cubes_y: u32,
    /// The elements of the first operand.
    pub lhs_size: u32,
    /// The elements of the second operand.
    pub rhs_size: u32,
}

/// What the outer product does: nothing where an operand is empty, a launch
/// of tiles over both operands, or a fault where the output does not hold the
/// product of the element counts.
pub open spec fn outer_product_spec(lhs: Seq<usize>, rhs: Seq<usize>, output: Seq<usize>) -> Result<
    Option<OuterGrid>,
    LaunchFault,
> {
    if product(lhs) == 0 || product(rhs) == 0 {
        Ok(None)
    } else if capped(product(output)) != capped(product(lhs) * product(rhs)) {
        Err(LaunchFault::OutputMismatch)
    } else if product(lhs) > u32::MAX || product(rhs) > u32::MAX {
        Err(LaunchFault::TooLarge)
    } else {
        Ok(
            Some(
                OuterGrid {
                    cubes_x: blocks(product(lhs), TILE_SIZE as nat) as u32,
                    cubes_y: blocks(product(rhs), TILE_SIZE as nat) as u32,
                    lhs_size: product(lhs) as u32,
                    rhs_size: product(rhs) as u32,
                },
            ),
        )
    }
}

/// The launch of the outer product `output[i * |rhs| + j] = lhs[i] * rhs[j]`.
pub fn plan_outer_product(lhs: &[usize], rhs: &[usize], output: &[usize]) -> (res: Result<
    Option<OuterGrid>,
    EinsumError,
>)
    ensures
        match res {
            Ok(g) => outer_product_spec(lhs@, rhs@, output@) == Ok::<Option<OuterGrid>, LaunchFault>(g),
            Err(e) => outer_product_spec(lhs@, rhs@, output@) matches Err(f) && reports_launch(e, f),
        },
{
    let lhs_size = element_count(lhs);
    let rhs_size = element_count(rhs);
    if lhs_size == 0 || rhs_size == 0 {
        return Ok(None);
    }
    let expected = sat_mul(lhs_size, rhs_size);
    proof {
        lemma_capped_mul(product(lhs@), product(rhs@));
    }
    let output_size = element_count(output);
    if output_size != expected {
        let mut message = String::from_str("outer product output size mismatch: expected ");
        message.append(expected.to_string().as_str());
        message.append(", got ");
        message.append(output_size.to_string().as_str());
        return Err(EinsumError::LaunchError { message });
    }
    let a = match kernel_arg(lhs_size) {
        Ok(v) => v,
        Err(e) => {
            return Err(e);
        },
    };
    let b = match kernel_arg(rhs_size) {
        Ok(v) => v,
        Err(e) => {
            return Err(e);
        },
    };
    Ok(
        Some(
            OuterGrid {
                cubes_x: block_count(a, TILE_SIZE),
                cubes_y: block_count(b, TILE_SIZE),
                lhs_size: a,
                rhs_size: b,
            },
        ),
    )
}

} // verus!
