//! Launch decisions of the multiplication with broadcasting.

use crate::dims::{element_count, product};
use crate::error::EinsumError;
use crate::kernels::grid::{grid_for, grid_of, reports_launch, Grid, LaunchFault};
use vstd::prelude::*;
use vstd::string::StringExecFns;

verus! {

/// How a multiplication with broadcasting is carried out.
#[derive(Debug, PartialEq, Eq)]
pub enum BroadcastPlan {
    /// The kernel for rank 1 or 2 reads both operands through their strides.
    Direct { grid: Grid, shape: Vec<u32>, lhs_strides: Vec<u32>, rhs_strides: Vec<u32> },
    /// From rank 3 on, the operands that have a broadcast axis are first copied
    /// into contiguous storage of the shape of the output, and then multiplied
    /// element by element.
    Materialize { lhs: bool, rhs: bool },
}

/// Some stride is zero: the axis is broadcast.
pub open spec fn has_broadcast(strides: Seq<usize>) -> bool {
    exists|i: int| 0 <= i < strides.len() && strides[i] == 0
}

/// Every size fits in 32 bits.
pub open spec fn all_fit(v: Seq<usize>) -> bool {
    forall|i: int| 0 <= i < v.len() ==> (#[trigger] v[i]) <= u32::MAX
}

/// The sizes as kernel arguments.
pub open spec fn as_args(v: Seq<usize>) -> Seq<u32> {
    Seq::new(v.len(), |i: int| v[i] as u32)
}

/// What the multiplication with broadcasting does: nothing for an empty
/// output; the direct kernel for rank 1 and 2; else materialisation.
pub open spec fn broadcast_spec(
    lhs_shape: Seq<usize>,
    lhs_strides: Seq<usize>,
    rhs_shape: Seq<usize>,
    rhs_strides: Seq<usize>,
    output: Seq<usize>,
) -> Result<Option<(bool, Grid, Seq<u32>, Seq<u32>, Seq<u32>, bool, bool)>, LaunchFault> {
    let rank = output.len();
    if lhs_shape.len() != rank || rhs_shape.len() != rank {
        Err(LaunchFault::RankMismatch)
    } else if lhs_strides.len() != rank || rhs_strides.len() != rank {
        Err(LaunchFault::Strides)
    } else if product(output) == 0 {
        Ok(None)
    } else if rank == 1 || rank == 2 {
        if product(output) > u32::MAX || !all_fit(output) || !all_fit(lhs_strides) || !all_fit(rhs_strides) {
            Err(LaunchFault::TooLarge)
        } else {
            Ok(
                Some(
                    (
                        true,
                        grid_of(product(output)),
                        as_args(output),
                        as_args(lhs_strides),
                        as_args(rhs_strides),
                        false,
                        false,
                    ),
                ),
            )
        }
    } else {
        Ok(
            Some(
                (
                    false,
                    Grid { cubes: 0, elements: 0 },
                    Seq::empty(),
                    Seq::empty(),
                    Seq::empty(),
                    has_broadcast(lhs_strides),
                    has_broadcast(rhs_strides),
                ),
            ),
        )
    }
}

/// The plan as plain values.
pub open spec fn plan_view(p: BroadcastPlan) -> (bool, Grid, Seq<u32>, Seq<u32>, Seq<u32>, bool, bool) {
    match p {
        BroadcastPlan::Direct { grid, shape, lhs_strides, rhs_strides } => (
            true,
            grid,
            shape@,
            lhs_strides@,
            rhs_strides@,
            false,
            false,
        ),
        BroadcastPlan::Materialize { lhs, rhs } => (
            false,
            Grid { cubes: 0, elements: 0 },
            Seq::empty(),
            Seq::empty(),
            Seq::empty(),
            lhs,
            rhs,
        ),
    }
}

/// The sizes as kernel arguments, where all of them fit.
pub fn to_args(v: &[usize]) -> (r: Option<Vec<u32>>)
    ensures
        match r {
            Some(a) => all_fit(v@) && a@ == as_args(v@),
            None => !all_fit(v@),
        },
{
    let mut out: Vec<u32> = Vec::new();
    let mut i: usize = 0;
    while i < v.len()
        invariant
            i <= v.len(),
            out@.len() == i,
            forall|k: int| 0 <= k < i ==> (#[trigger] v@[k]) <= u32::MAX,
            forall|k: int| 0 <= k < i ==> (#[trigger] out@[k]) == v@[k] as u32,
        decreases v.len() - i,
    {
        if v[i] > u32::MAX as usize {
            return None;
        }
        out.push(v[i] as u32);
        i += 1;
    }
    assert(out@ =~= as_args(v@));
    Some(out)
}

/// Is some stride zero?
pub fn any_broadcast(strides: &[usize]) -> (r: bool)
    ensures
        r == has_broadcast(strides@),
{
    let mut i: usize = 0;
    while i < strides.len()
        invariant
            i <= strides.len(),
            forall|k: int| 0 <= k < i ==> strides@[k] != 0,
        decreases strides.len() - i,
    {
        if strides[i] == 0 {
            return true;
        }
        i += 1;
    }
    false
}

/// The plan of `output[coord] = lhs[coord * lhs strides] * rhs[coord * rhs strides]`,
/// where a stride of zero broadcasts an axis.
pub fn plan_broadcast_multiply(
    lhs_shape: &[usize],
    lhs_strides: &[usize],
    rhs_shape: &[usize],
    rhs_strides: &[usize],
    output: &[usize],
) -> (res: Result<Option<BroadcastPlan>, EinsumError>)
    ensures
        match res {
            Ok(None) => broadcast_spec(lhs_shape@, lhs_strides@, rhs_shape@, rhs_strides@, output@) == Ok::<
                Option<(bool, Grid, Seq<u32>, Seq<u32>, Seq<u32>, bool, bool)>,
                LaunchFault,
            >(None),
            Ok(Some(p)) => broadcast_spec(lhs_shape@, lhs_strides@, rhs_shape@, rhs_strides@, output@) == Ok::<
                Option<(bool, Grid, Seq<u32>, Seq<u32>, Seq<u32>, bool, bool)>,
                LaunchFault,
            >(Some(plan_view(p))),
            Err(e) => broadcast_spec(lhs_shape@, lhs_strides@, rhs_shape@, rhs_strides@, output@) matches Err(f)
                && reports_launch(e, f),
        },
{
    let rank = output.len();
    if lhs_shape.len() != rank || rhs_shape.len() != rank {
        let mut message = String::from_str("broadcast multiply: all tensors must have same rank (output: ");
        message.append(rank.to_string().as_str());
        message.append(", lhs: ");
        message.append(lhs_shape.len().to_string().as_str());
        message.append(", rhs: ");
        message.append(rhs_shape.len().to_string().as_str());
        message.append(")");
        return Err(EinsumError::LaunchError { message });
    }
    if lhs_strides.len() != rank || rhs_strides.len() != rank {
        return Err(EinsumError::shape("broadcast multiply: shape and strides differ in length"));
    }
    let n = element_count(output);
    if n == 0 {
        return Ok(None);
    }
    if rank == 1 || rank == 2 {
        let grid = match grid_for(n) {
            Ok(g) => g,
            Err(e) => {
                return Err(e);
            },
        };
        let shape = match to_args(output) {
            Some(v) => v,
            None => {
                return Err(EinsumError::unsupported("a size exceeds the 32 bits of a kernel argument"));
            },
        };
        let ls = match to_args(lhs_strides) {
            Some(v) => v,
            None => {
                return Err(EinsumError::unsupported("a stride exceeds the 32 bits of a kernel argument"));
            },
        };
        let rs = match to_args(rhs_strides) {
            Some(v) => v,
            None => {
                return Err(EinsumError::unsupported("a stride exceeds the 32 bits of a kernel argument"));
            },
        };
        return Ok(Some(BroadcastPlan::Direct { grid, shape, lhs_strides: ls, rhs_strides: rs }));
    }
    Ok(Some(BroadcastPlan::Materialize { lhs: any_broadcast(lhs_strides), rhs: any_broadcast(rhs_strides) }))
}

/// What the copy of a broadcast view into contiguous storage does: nothing for
/// an empty target; a launch for rank 1 to 3; a fault above.
pub open spec fn materialize_spec(strides: Seq<usize>, target: Seq<usize>) -> Result<
    Option<(Grid, Seq<u32>, Seq<u32>)>,
    LaunchFault,
> {
    if product(target) == 0 {
        Ok(None)
    } else if target.len() < 1 || target.len() > 3 {
        Err(LaunchFault::RankTooHigh)
    } else if strides.len() != target.len() {
        Err(LaunchFault::Strides)
    } else if product(target) > u32::MAX || !all_fit(target) || !all_fit(strides) {
        Err(LaunchFault::TooLarge)
    } else {
        Ok(Some((grid_of(product(target)), as_args(target), as_args(strides))))
    }
}

/// The launch of `output[coord] = input[coord * strides]` into contiguous
/// storage of the shape `target`.
pub fn plan_materialize(strides: &[usize], target: &[usize]) -> (res: Result<
    Option<(Grid, Vec<u32>, Vec<u32>)>,
    EinsumError,
>)
    ensures
        match res {
            Ok(None) => materialize_spec(strides@, target@) == Ok::<Option<(Grid, Seq<u32>, Seq<u32>)>, LaunchFault>(
                None,
            ),
            Ok(Some(p)) => materialize_spec(strides@, target@) == Ok::<
                Option<(Grid, Seq<u32>, Seq<u32>)>,
                LaunchFault,
            >(Some((p.0, p.1@, p.2@))),
            Err(e) => materialize_spec(strides@, target@) matches Err(f) && reports_launch(e, f),
        },
{
    let n = element_count(target);
    if n == 0 {
        return Ok(None);
    }
    let rank = target.len();
    if rank < 1 || rank > 3 {
        let mut message = String::from_str("broadcast multiply: rank ");
        message.append(rank.to_string().as_str());
        message.append(" exceeds max supported (3)");
        return Err(EinsumError::LaunchError { message });
    }
    if strides.len() != rank {
        return Err(EinsumError::shape("copy broadcast: shape and strides differ in length"));
    }
    let grid = match grid_for(n) {
        Ok(g) => g,
        Err(e) => {
            return Err(e);
        },
    };
    let shape = match to_args(target) {
        Some(v) => v,
        None => {
            return Err(EinsumError::unsupported("a size exceeds the 32 bits of a kernel argument"));
        },
    };
    let st = match to_args(strides) {
        Some(v) => v,
        None => {
            return Err(EinsumError::unsupported("a stride exceeds the 32 bits of a kernel argument"));
        },
    };
    Ok(Some((grid, shape, st)))
}

} // verus!
