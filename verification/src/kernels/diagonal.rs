//! Launch decisions of the diagonal and the trace.

use crate::chars::lemma_take_step;
use crate::dims::{capped, element_count, lemma_capped_mul, product, sat_add, sat_mul};
use crate::error::EinsumError;
use crate::kernels::grid::{grid_for, grid_of, kernel_arg, reports_launch, Grid, LaunchFault};
use vstd::prelude::*;
use vstd::string::StringExecFns;

verus! {

/// The launch of a diagonal extraction.
#[derive(Debug, Clone, Copy, PartialEq, Eq, Structural)]
pub struct DiagonalLaunch {
    /// The blocks, and the number of elements of the output.
    pub grid: Grid,
    /// The length of one diagonal.
    pub n: u32,
    /// The distance in memory between two elements of a diagonal.
    pub diag_stride: u32,
    /// The elements of one matrix.
    pub matrix_size: u32,
}

/// The axes before the last two.
pub open spec fn leading_axes(shape: Seq<usize>) -> Seq<usize> {
    shape.take(shape.len() - 2)
}

/// The first fault of the operand of a diagonal or a trace, if it has one.
pub open spec fn square_fault(shape: Seq<usize>, strides: Seq<usize>) -> Option<LaunchFault> {
    if shape.len() < 2 {
        Some(LaunchFault::RankTooLow)
    } else if strides.len() != shape.len() {
        Some(LaunchFault::Strides)
    } else if shape[shape.len() - 2] != shape[shape.len() - 1] {
        Some(LaunchFault::NotSquare)
    } else {
        None
    }
}

/// What the diagonal extraction does with an operand whose last two axes form
/// square matrices: nothing where the matrices are empty, else a launch of one
/// thread for each element of each diagonal, which reads
/// `input[b * n * n + i * (row stride + column stride)]`.
pub open spec fn diagonal_spec(shape: Seq<usize>, strides: Seq<usize>, output: Seq<usize>) -> Result<
    Option<DiagonalLaunch>,
    LaunchFault,
> {
    match square_fault(shape, strides) {
        Some(f) => Err(f),
        None => {
            let n = shape[shape.len() - 1] as nat;
            let batch = product(leading_axes(shape));
            let stride = strides[shape.len() - 2] as nat + strides[shape.len() - 1] as nat;
            if n == 0 {
                Ok(None)
            } else if capped(product(output)) != capped(batch * n) {
                Err(LaunchFault::OutputMismatch)
            } else if batch * n > u32::MAX || n * n > u32::MAX || stride > u32::MAX {
                Err(LaunchFault::TooLarge)
            } else {
                Ok(
                    Some(
                        DiagonalLaunch {
                            grid: grid_of(batch * n),
                            n: n as u32,
                            diag_stride: stride as u32,
                            matrix_size: (n * n) as u32,
                        },
                    ),
                )
            }
        },
    }
}

/// The element count of the axes before the last two, capped at `u64::MAX`.
fn leading_count(shape: &[usize]) -> (r: u64)
    requires
        shape@.len() >= 2,
    ensures
        r == capped(product(leading_axes(shape@))),
{
    let lead = shape.len() - 2;
    let mut acc: u64 = 1;
    let mut i: usize = 0;
    while i < lead
        invariant
            i <= lead,
            lead == shape@.len() - 2,
            acc == capped(product(shape@.take(i as int))),
        decreases lead - i,
    {
        proof {
            assert(shape@.take(i + 1).drop_last() =~= shape@.take(i as int));
            lemma_capped_mul(product(shape@.take(i as int)), shape@[i as int] as nat);
        }
        acc = sat_mul(acc, shape[i] as u64);
        i += 1;
    }
    acc
}

/// Checks the operand of a diagonal or a trace.
fn check_square(shape: &[usize], strides: &[usize], what: &str) -> (res: Result<(), EinsumError>)
    ensures
        match res {
            Ok(_) => square_fault(shape@, strides@) is None,
            Err(e) => square_fault(shape@, strides@) matches Some(f) && reports_launch(e, f),
        },
{
    if shape.len() < 2 {
        let mut message = String::from_str(what);
        message.append(" requires at least 2D input");
        return Err(EinsumError::LaunchError { message });
    }
    if strides.len() != shape.len() {
        let mut message = String::from_str(what);
        message.append(": shape and strides differ in length");
        return Err(EinsumError::ShapeError { message });
    }
    let rows = shape[shape.len() - 2];
    let cols = shape[shape.len() - 1];
    if rows != cols {
        let mut message = String::from_str(what);
        message.append(" requires square matrix, got ");
        message.append(rows.to_string().as_str());
        message.append("x");
        message.append(cols.to_string().as_str());
        return Err(EinsumError::LaunchError { message });
    }
    Ok(())
}

/// The launch of the diagonal extraction
/// `output[b * n + i] = input[b * n * n + i * (row stride + column stride)]`.
pub fn plan_diagonal(shape: &[usize], strides: &[usize], output: &[usize]) -> (res: Result<
    Option<DiagonalLaunch>,
    EinsumError,
>)
    ensures
        match res {
            Ok(g) => diagonal_spec(shape@, strides@, output@) == Ok::<Option<DiagonalLaunch>, LaunchFault>(g),
            Err(e) => diagonal_spec(shape@, strides@, output@) matches Err(f) && reports_launch(e, f),
        },
{
    match check_square(shape, strides, "diagonal") {
        Ok(_) => {},
        Err(e) => {
            return Err(e);
        },
    }
    let ndim = shape.len();
    let n = shape[ndim - 1];
    if n == 0 {
        return Ok(None);
    }
    let batch = leading_count(shape);
    let expected = sat_mul(batch, n as u64);
    proof {
        lemma_capped_mul(product(leading_axes(shape@)), n as nat);
    }
    let output_size = element_count(output);
    if output_size != expected {
        let mut message = String::from_str("diagonal output size mismatch: expected ");
        message.append(expected.to_string().as_str());
        message.append(", got ");
        message.append(output_size.to_string().as_str());
        return Err(EinsumError::LaunchError { message });
    }
    let grid = match grid_for(expected) {
        Ok(g) => g,
        Err(e) => {
            return Err(e);
        },
    };
    let matrix = match kernel_arg(sat_mul(n as u64, n as u64)) {
        Ok(v) => v,
        Err(e) => {
            return Err(e);
        },
    };
    let stride = match kernel_arg(sat_add(strides[ndim - 2] as u64, strides[ndim - 1] as u64)) {
        Ok(v) => v,
        Err(e) => {
            return Err(e);
        },
    };
    proof {
        let b = product(leading_axes(shape@));
        assert(b * n as nat <= u32::MAX);
        assert(n as nat <= (n as nat) * (n as nat)) by (nonlinear_arith)
            requires
                n >= 1,
        ;
    }
    Ok(Some(DiagonalLaunch { grid, n: n as u32, diag_stride: stride, matrix_size: matrix }))
}

/// The plan of a trace: the diagonals go to a workspace of the shape
/// `diagonal_shape`, which is then summed along its last axis.
#[derive(Debug)]
pub struct TracePlan {
    /// The shape of the workspace that holds the diagonals.
    pub diagonal_shape: Vec<usize>,
    /// The launch that extracts the diagonals.
    pub diagonal: DiagonalLaunch,
    /// The axis of the workspace that is summed.
    pub reduce_axis: usize,
}

/// What the trace does with an operand whose last two axes form square
/// matrices: nothing where the matrices are empty; else the diagonals are
/// extracted into a workspace and summed along its last axis.
pub open spec fn trace_spec(shape: Seq<usize>, strides: Seq<usize>, output: Seq<usize>) -> Result<
    Option<(Seq<usize>, DiagonalLaunch, usize)>,
    LaunchFault,
> {
    match square_fault(shape, strides) {
        Some(f) => Err(f),
        None => {
            let n = shape[shape.len() - 1];
            let batch = product(leading_axes(shape));
            let workspace = leading_axes(shape).push(n);
            if n == 0 {
                Ok(None)
            } else if capped(product(output)) != capped(batch) {
                Err(LaunchFault::OutputMismatch)
            } else {
                match diagonal_spec(shape, strides, workspace) {
                    Err(f) => Err(f),
                    Ok(None) => Ok(None),
                    Ok(Some(d)) => Ok(Some((workspace, d, (workspace.len() - 1) as usize))),
                }
            }
        },
    }
}

/// The plan of the trace: the sum of the diagonal of each matrix.
pub fn plan_trace(shape: &[usize], strides: &[usize], output: &[usize]) -> (res: Result<Option<TracePlan>, EinsumError>)
    ensures
        match res {
            Ok(None) => trace_spec(shape@, strides@, output@) == Ok::<
                Option<(Seq<usize>, DiagonalLaunch, usize)>,
                LaunchFault,
            >(None),
            Ok(Some(p)) => trace_spec(shape@, strides@, output@) == Ok::<
                Option<(Seq<usize>, DiagonalLaunch, usize)>,
                LaunchFault,
            >(Some((p.diagonal_shape@, p.diagonal, p.reduce_axis))),
            Err(e) => trace_spec(shape@, strides@, output@) matches Err(f) && reports_launch(e, f),
        },
{
    match check_square(shape, strides, "trace") {
        Ok(_) => {},
        Err(e) => {
            return Err(e);
        },
    }
    let ndim = shape.len();
    let n = shape[ndim - 1];
    if n == 0 {
        return Ok(None);
    }
    let batch = leading_count(shape);
    let output_size = element_count(output);
    if output_size != batch {
        let mut message = String::from_str("trace output size mismatch: expected ");
        message.append(batch.to_string().as_str());
        message.append(", got ");
        message.append(output_size.to_string().as_str());
        return Err(EinsumError::LaunchError { message });
    }
    let mut diagonal_shape: Vec<usize> = Vec::new();
    let mut i: usize = 0;
    while i < ndim - 2
        invariant
            i <= ndim - 2,
            ndim == shape@.len(),
            diagonal_shape@ == shape@.take(i as int),
        decreases ndim - 2 - i,
    {
        proof {
            lemma_take_step(shape@, i as int);
        }
        diagonal_shape.push(shape[i]);
        i += 1;
    }
    diagonal_shape.push(n);
    match plan_diagonal(shape, strides, diagonal_shape.as_slice()) {
        Err(e) => Err(e),
        Ok(None) => Ok(None),
        Ok(Some(diagonal)) => {
            let reduce_axis = diagonal_shape.len() - 1;
            Ok(Some(TracePlan { diagonal_shape, diagonal, reduce_axis }))
        },
    }
}

} // verus!
