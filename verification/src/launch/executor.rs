//! The decisions of the executor: for each step of a plan, which views of the
//! operands are handed to which kernel, and what becomes of the list of
//! tensors.

use crate::chars::{
    distinct, distinct_letters, first_position, is_subset, keep_in, keep_letters_in, keep_letters_not_in, keep_not_in,
    lemma_distinct, lemma_keep_in, lemma_keep_not_in, lemma_take_all, lemma_take_step, letter_positions_in,
    letter_positions_not_in, position_char, positions_in, positions_not_in, positions_within, subset_of,
};
use crate::dims::{bind_into, bound_sizes, capped, element_count, lookup_bound, product};
use crate::error::EinsumError;
use crate::kernels::grid::same_shape;
use crate::launch::layout::{
    all_below, checked_product, compute_strides, contiguous, gather, gather_sizes, last_two_swapped, strides_fit,
    transposed, LayoutView, TensorLayout,
};
use crate::optimization::cost::pair_bindings;
use crate::pattern::matmul::{positions_of_present, present_positions};
use crate::pattern::unary::{identity_permutation, is_identity};
use crate::tables::DimMap;
use vstd::prelude::*;

verus! {

/// A tensor of this shape has no element: an axis has size 0.
pub open spec fn no_elements(shape: Seq<usize>) -> bool {
    product(shape) == 0
}

/// Has a tensor of this shape no element?
pub fn is_empty_shape(shape: &[usize]) -> (r: bool)
    ensures
        r == no_elements(shape@),
{
    element_count(shape) == 0
}

/// The views that a matrix multiplication takes of its two operands; `None`
/// where an operand has no element, for which nothing is launched.
pub fn plan_matmul(inputs: &[TensorLayout], transpose_a: bool, transpose_b: bool) -> (res: Result<
    Option<(TensorLayout, TensorLayout)>,
    EinsumError,
>)
    requires
        forall|i: int| 0 <= i < inputs@.len() ==> (#[trigger] inputs@[i]).wf(),
    ensures
        match res {
            Ok(None) => inputs@.len() >= 2 && (no_elements(inputs@[0].shape@) || no_elements(inputs@[1].shape@)),
            Ok(Some(p)) => inputs@.len() >= 2 && !no_elements(inputs@[0].shape@) && !no_elements(inputs@[1].shape@)
                && p.0@ == (if transpose_a {
                last_two_swapped(inputs@[0]@)
            } else {
                inputs@[0]@
            }) && p.1@ == (if transpose_b {
                last_two_swapped(inputs@[1]@)
            } else {
                inputs@[1]@
            }),
            Err(e) => inputs@.len() < 2 && e is Unsupported,
        },
{
    if inputs.len() < 2 {
        return Err(EinsumError::unsupported("matmul requires 2 inputs"));
    }
    if is_empty_shape(inputs[0].shape.as_slice()) || is_empty_shape(inputs[1].shape.as_slice()) {
        return Ok(None);
    }
    Ok(Some((transposed(&inputs[0], transpose_a), transposed(&inputs[1], transpose_b))))
}

/// The permutation of a layout: axis `k` of the result is axis `perm[k]` of the
/// operand.
pub fn plan_transpose(input: &TensorLayout, permutation: &[usize]) -> (res: Result<TensorLayout, EinsumError>)
    requires
        input.wf(),
    ensures
        match res {
            Ok(l) => all_below(permutation@, input.shape@.len()) && l.shape@ == gather(input.shape@, permutation@)
                && l.strides@ == gather(input.strides@, permutation@),
            Err(e) => !all_below(permutation@, input.shape@.len()) && e is ShapeError,
        },
{
    let shape = match gather_sizes(input.shape.as_slice(), permutation) {
        Some(v) => v,
        None => {
            return Err(EinsumError::shape("permutation names an axis that the tensor lacks"));
        },
    };
    let strides = match gather_sizes(input.strides.as_slice(), permutation) {
        Some(v) => v,
        None => {
            return Err(EinsumError::shape("permutation names an axis that the tensor lacks"));
        },
    };
    Ok(TensorLayout { shape, strides })
}

/// The position of the first element of `s` that is smaller than `x`, or
/// `s.len()`.
pub open spec fn first_less(s: Seq<usize>, x: usize) -> int
    decreases s.len(),
{
    if s.len() == 0 {
        0
    } else {
        let p = first_less(s.drop_last(), x);
        if p < s.len() - 1 {
            p
        } else if s.last() < x {
            s.len() - 1
        } else {
            s.len() as int
        }
    }
}

/// The axes in descending order; equal axes keep their order.
pub open spec fn descending(s: Seq<usize>) -> Seq<usize>
    decreases s.len(),
{
    if s.len() == 0 {
        Seq::empty()
    } else {
        let d = descending(s.drop_last());
        d.insert(first_less(d, s.last()), s.last())
    }
}

/// `first_less` gives a position of the sequence or its length.
pub proof fn lemma_first_less(s: Seq<usize>, x: usize)
    ensures
        0 <= first_less(s, x) <= s.len(),
        forall|q: int| 0 <= q < first_less(s, x) ==> s[q] >= x,
        first_less(s, x) < s.len() ==> s[first_less(s, x)] < x,
    decreases s.len(),
{
    if s.len() > 0 {
        lemma_first_less(s.drop_last(), x);
        let p = first_less(s.drop_last(), x);
        assert forall|q: int| 0 <= q < first_less(s, x) implies s[q] >= x by {
            if q < s.len() - 1 {
                assert(s.drop_last()[q] == s[q]);
            }
        }
        if p < s.len() - 1 {
            assert(s.drop_last()[p] == s[p]);
        }
    }
}

/// `descending(s)` is as long as `s`, and no element is smaller than a later
/// one.
pub proof fn lemma_descending(s: Seq<usize>)
    ensures
        descending(s).len() == s.len(),
        forall|a: int, b: int| 0 <= a < b < s.len() ==> descending(s)[a] >= descending(s)[b],
    decreases s.len(),
{
    if s.len() > 0 {
        let d = descending(s.drop_last());
        lemma_descending(s.drop_last());
        lemma_first_less(d, s.last());
        let p = first_less(d, s.last());
        let r = descending(s);
        assert forall|a: int, b: int| 0 <= a < b < s.len() implies r[a] >= r[b] by {
            if b < p {
            } else if b == p {
            } else if a < p {
                if p < d.len() && b - 1 > p {
                    assert(d[p] >= d[b - 1]);
                }
            } else if a == p {
                if b - 1 > p {
                    assert(d[p] >= d[b - 1]);
                }
            } else {
                assert(d[a - 1] >= d[b - 1]);
            }
        }
    }
}

/// The axes in descending order.
pub fn sort_descending(axes: &[usize]) -> (r: Vec<usize>)
    ensures
        r@ == descending(axes@),
{
    let mut out: Vec<usize> = Vec::new();
    let mut i: usize = 0;
    while i < axes.len()
        invariant
            i <= axes.len(),
            out@ == descending(axes@.take(i as int)),
        decreases axes.len() - i,
    {
        let x = axes[i];
        proof {
            lemma_take_step(axes@, i as int);
            lemma_descending(axes@.take(i as int));
        }
        let mut p: usize = 0;
        while p < out.len() && out[p] >= x
            invariant
                p <= out@.len(),
                first_less(out@.take(p as int), x) == p,
            decreases out@.len() - p,
        {
            proof {
                lemma_take_step(out@, p as int);
            }
            p += 1;
        }
        proof {
            if p < out@.len() {
                lemma_take_step(out@, p as int);
                lemma_first_less_stays(out@, x, p as int + 1);
            } else {
                lemma_take_all(out@);
            }
        }
        out.insert(p, x);
        i += 1;
    }
    proof {
        lemma_take_all(axes@);
    }
    out
}

proof fn lemma_first_less_stays(s: Seq<usize>, x: usize, n: int)
    requires
        0 <= n <= s.len(),
        first_less(s.take(n), x) < n,
    ensures
        first_less(s, x) == first_less(s.take(n), x),
    decreases s.len() - n,
{
    if n < s.len() {
        lemma_take_step(s, n);
        lemma_first_less_stays(s, x, n + 1);
    } else {
        lemma_take_all(s);
    }
}

/// Where the result of one reduction goes.
#[derive(Debug, PartialEq, Eq)]
pub enum ReduceTarget {
    /// Into a fresh tensor of the keep-dim shape, which the next stage reads.
    Workspace,
    /// Into the output, whose shape is the keep-dim shape.
    Output,
    /// Into a fresh tensor of the keep-dim shape, whose buffer the output then
    /// takes over, with contiguous strides for its own shape.
    Rebind { output_strides: Vec<usize> },
}

/// One reduction over one axis. The reduced axis stays, with size 1.
#[derive(Debug, PartialEq, Eq)]
pub struct ReduceStage {
    pub axis: usize,
    pub keep_dim_shape: Vec<usize>,
    pub target: ReduceTarget,
}

/// The shape after the first `k` axes of `axes` are reduced to size 1.
pub open spec fn reduced_to_one(shape: Seq<usize>, axes: Seq<usize>, k: nat) -> Seq<usize>
    decreases k,
{
    if k == 0 {
        shape
    } else {
        reduced_to_one(shape, axes, (k - 1) as nat).update(axes[k - 1] as int, 1)
    }
}

/// The shape in which every axis of `axes` has size 1, where the shape has all
/// of them.
pub fn keep_dim(shape: &[usize], axes: &[usize]) -> (r: Option<Vec<usize>>)
    ensures
        match r {
            Some(v) => all_below(axes@, shape@.len()) && v@ == reduced_to_one(shape@, axes@, axes@.len()),
            None => !all_below(axes@, shape@.len()),
        },
{
    let mut current = crate::chars::copy_sizes(shape);
    let mut k: usize = 0;
    while k < axes.len()
        invariant
            k <= axes@.len(),
            current@ == reduced_to_one(shape@, axes@, k as nat),
            current@.len() == shape@.len(),
            forall|q: int| 0 <= q < k ==> (#[trigger] axes@[q]) < shape@.len(),
        decreases axes@.len() - k,
    {
        let axis = axes[k];
        if axis >= current.len() {
            return None;
        }
        current.set(axis, 1);
        k += 1;
    }
    Some(current)
}

/// The output of a transposition: it takes over the buffer of the input at
/// `source`, under the layout `layout`. Nothing is copied.
#[derive(Debug, PartialEq, Eq)]
pub struct OutputRebind {
    pub source: usize,
    pub layout: TensorLayout,
}

/// The transposition of the first input: the output takes its buffer, with the
/// shape and the strides in the order of the permutation. Without an input
/// there is nothing to transpose.
pub fn plan_transpose_output(inputs: &[TensorLayout], permutation: &[usize]) -> (res: Result<
    OutputRebind,
    EinsumError,
>)
    requires
        forall|i: int| 0 <= i < inputs@.len() ==> (#[trigger] inputs@[i]).wf(),
    ensures
        match res {
            Ok(r) => inputs@.len() >= 1 && r.source == 0 && all_below(permutation@, inputs@[0].shape@.len())
                && r.layout.shape@ == gather(inputs@[0].shape@, permutation@) && r.layout.strides@ == gather(
                inputs@[0].strides@,
                permutation@,
            ),
            Err(e) => if inputs@.len() == 0 {
                e is Unsupported
            } else {
                !all_below(permutation@, inputs@[0].shape@.len()) && e is ShapeError
            },
        },
{
    if inputs.len() == 0 {
        return Err(EinsumError::unsupported("transpose requires 1 input"));
    }
    match plan_transpose(&inputs[0], permutation) {
        Ok(layout) => Ok(OutputRebind { source: 0, layout }),
        Err(e) => Err(e),
    }
}

/// The stage is stage `k` of the reduction of `shape` over `axes`, in the order
/// given, into an output of the shape `output`.
pub open spec fn stage_fits(st: ReduceStage, shape: Seq<usize>, output: Seq<usize>, axes: Seq<usize>, k: int) -> bool {
    &&& st.axis == axes[k]
    &&& st.keep_dim_shape@ == reduced_to_one(shape, axes, (k + 1) as nat)
    &&& if k < axes.len() - 1 {
        st.target is Workspace
    } else if output == st.keep_dim_shape@ {
        st.target is Output
    } else {
        st.target matches ReduceTarget::Rebind { output_strides } && output_strides@ == contiguous(output)
    }
}

/// The output can take the result of the reduction: it has the shape in which
/// every reduced axis has size 1; or it is rebound, for which it must hold as
/// many elements as that shape, counted as far as `u64` holds them, and its
/// strides must fit.
pub open spec fn takes_result(keep: Seq<usize>, output: Seq<usize>) -> bool {
    output == keep || (capped(product(output)) == capped(product(keep)) && strides_fit(output))
}

/// The reduction can be staged: every axis lies in the shape, and the output
/// can take the result.
pub open spec fn stageable(shape: Seq<usize>, output: Seq<usize>, axes: Seq<usize>) -> bool {
    &&& all_below(axes, shape.len())
    &&& takes_result(reduced_to_one(shape, axes, axes.len()), output)
}

/// The stages of a reduction over the axes in the order given.
fn stage_reduction(shape: &[usize], output: &[usize], axes: &[usize]) -> (res: Result<Vec<ReduceStage>, EinsumError>)
    requires
        axes@.len() > 0,
    ensures
        match res {
            Ok(v) => stageable(shape@, output@, axes@) && v@.len() == axes@.len() && forall|k: int|
                0 <= k < v@.len() ==> stage_fits(#[trigger] v@[k], shape@, output@, axes@, k),
            Err(e) => !stageable(shape@, output@, axes@) && e is ShapeError,
        },
{
    let mut stages: Vec<ReduceStage> = Vec::new();
    let mut current = crate::chars::copy_sizes(shape);
    let mut k: usize = 0;
    while k < axes.len()
        invariant
            k <= axes@.len(),
            axes@.len() > 0,
            current@ == reduced_to_one(shape@, axes@, k as nat),
            current@.len() == shape@.len(),
            stages@.len() == k,
            forall|q: int| 0 <= q < k ==> (#[trigger] axes@[q]) < shape@.len(),
            forall|q: int| 0 <= q < k ==> stage_fits(#[trigger] stages@[q], shape@, output@, axes@, q),
            k == axes@.len() ==> takes_result(reduced_to_one(shape@, axes@, axes@.len()), output@),
        decreases axes@.len() - k,
    {
        let axis = axes[k];
        if axis >= current.len() {
            proof {
                assert(!(axes@[k as int] < shape@.len()));
            }
            return Err(EinsumError::shape("reduction names an axis that the tensor lacks"));
        }
        current.set(axis, 1);
        let keep = crate::chars::copy_sizes(current.as_slice());
        let target = if k + 1 < axes.len() {
            ReduceTarget::Workspace
        } else if same_shape(output, keep.as_slice()) {
            ReduceTarget::Output
        } else if element_count(output) != element_count(keep.as_slice()) {
            return Err(EinsumError::shape("the output does not hold the elements of the result"));
        } else {
            match compute_strides(output) {
                Ok(s) => ReduceTarget::Rebind { output_strides: s },
                Err(e) => {
                    return Err(e);
                },
            }
        };
        stages.push(ReduceStage { axis, keep_dim_shape: keep, target });
        k += 1;
    }
    Ok(stages)
}

/// What holds of the stages of a sum of a tensor of the shape `shape` over
/// the axes `axes`, the highest first: there is one stage for each axis; for a
/// tensor without elements there is none, and nothing is launched.
pub open spec fn stages_fit(v: Seq<ReduceStage>, shape: Seq<usize>, output: Seq<usize>, axes: Seq<usize>) -> bool {
    if no_elements(shape) {
        v.len() == 0
    } else {
        &&& stageable(shape, output, descending(axes))
        &&& v.len() == axes.len()
        &&& forall|k: int| 0 <= k < v.len() ==> stage_fits(#[trigger] v[k], shape, output, descending(axes), k)
    }
}

/// The stages of a reduction over several axes: one axis at a time, the
/// highest first, so that the lower axes keep their positions. A tensor without
/// elements has no stage.
pub fn plan_multi_axis_reduce(shape: &[usize], output: &[usize], axes: &[usize]) -> (res: Result<
    Vec<ReduceStage>,
    EinsumError,
>)
    requires
        axes@.len() > 0,
    ensures
        match res {
            Ok(v) => stages_fit(v@, shape@, output@, axes@),
            Err(e) => !no_elements(shape@) && !stageable(shape@, output@, descending(axes@)) && e is ShapeError,
        },
{
    if is_empty_shape(shape) {
        return Ok(Vec::new());
    }
    let sorted = sort_descending(axes);
    proof {
        lemma_descending(axes@);
    }
    stage_reduction(shape, output, sorted.as_slice())
}

/// The stages of a sum over the axes `axes`. A tensor without elements has no
/// stage. Else, without an axis there is nothing to reduce, which is not
/// supported; one axis is one stage; several axes are reduced one at a time,
/// the highest first.
pub fn plan_reduce(shape: &[usize], output: &[usize], axes: &[usize]) -> (res: Result<Vec<ReduceStage>, EinsumError>)
    ensures
        match res {
            Ok(v) => (no_elements(shape@) || axes@.len() > 0) && stages_fit(v@, shape@, output@, axes@),
            Err(e) => !no_elements(shape@) && (if axes@.len() == 0 {
                e is Unsupported
            } else {
                !stageable(shape@, output@, descending(axes@)) && e is ShapeError
            }),
        },
{
    if is_empty_shape(shape) {
        return Ok(Vec::new());
    }
    if axes.len() == 0 {
        return Err(EinsumError::unsupported("empty reduction axes"));
    }
    plan_multi_axis_reduce(shape, output, axes)
}

/// The operands of a multiplication without contraction.
#[derive(Debug, PartialEq, Eq)]
pub enum BroadcastOperands {
    /// Both operands have the same indices and the same shape: the element-wise
    /// product.
    Hadamard,
    /// The operand with fewer indices is viewed with the indices of the other;
    /// an axis that it lacks gets the size of the other operand and stride 0.
    Strided { lhs: TensorLayout, rhs: TensorLayout },
}

/// The shape of the view of an operand with the indices `src` under the
/// indices `dst` of the other operand, whose shape is `dst_shape`.
pub open spec fn broadcast_shape(src_shape: Seq<usize>, src: Seq<char>, dst: Seq<char>, dst_shape: Seq<usize>) -> Seq<
    usize,
> {
    Seq::new(
        dst.len(),
        |i: int|
            if first_position(src, dst[i]) < src.len() {
                src_shape[first_position(src, dst[i])]
            } else {
                dst_shape[i]
            },
    )
}

/// The strides of that view: 0 for an axis that the operand lacks.
pub open spec fn broadcast_strides(src_strides: Seq<usize>, src: Seq<char>, dst: Seq<char>) -> Seq<usize> {
    Seq::new(
        dst.len(),
        |i: int|
            if first_position(src, dst[i]) < src.len() {
                src_strides[first_position(src, dst[i])]
            } else {
                0usize
            },
    )
}

/// The view of the operand `src` under the indices of the operand `dst`.
fn broadcast_view(src: &TensorLayout, src_indices: &[char], dst: &TensorLayout, dst_indices: &[char]) -> (r:
    TensorLayout)
    requires
        src.wf(),
        dst.wf(),
        src_indices@.len() == src.shape@.len(),
        dst_indices@.len() == dst.shape@.len(),
    ensures
        r.wf(),
        r.shape@ == broadcast_shape(src.shape@, src_indices@, dst_indices@, dst.shape@),
        r.strides@ == broadcast_strides(src.strides@, src_indices@, dst_indices@),
{
    let mut shape: Vec<usize> = Vec::new();
    let mut strides: Vec<usize> = Vec::new();
    let mut i: usize = 0;
    while i < dst_indices.len()
        invariant
            i <= dst_indices@.len(),
            src.wf(),
            dst.wf(),
            src_indices@.len() == src.shape@.len(),
            dst_indices@.len() == dst.shape@.len(),
            shape@.len() == i,
            strides@.len() == i,
            forall|q: int|
                0 <= q < i ==> (#[trigger] shape@[q]) == broadcast_shape(
                    src.shape@,
                    src_indices@,
                    dst_indices@,
                    dst.shape@,
                )[q],
            forall|q: int|
                0 <= q < i ==> (#[trigger] strides@[q]) == broadcast_strides(src.strides@, src_indices@, dst_indices@)[q],
        decreases dst_indices@.len() - i,
    {
        match position_char(src_indices, dst_indices[i]) {
            Some(p) => {
                shape.push(src.shape[p]);
                strides.push(src.strides[p]);
            },
            None => {
                shape.push(dst.shape[i]);
                strides.push(0);
            },
        }
        i += 1;
    }
    assert(shape@ =~= broadcast_shape(src.shape@, src_indices@, dst_indices@, dst.shape@));
    assert(strides@ =~= broadcast_strides(src.strides@, src_indices@, dst_indices@));
    TensorLayout { shape, strides }
}

/// Are two lists of letters the same?
pub fn same_letters_in_order(a: &[char], b: &[char]) -> (r: bool)
    ensures
        r == (a@ == b@),
{
    if a.len() != b.len() {
        return false;
    }
    let mut i: usize = 0;
    while i < a.len()
        invariant
            i <= a.len(),
            a@.len() == b@.len(),
            forall|k: int| 0 <= k < i ==> a@[k] == b@[k],
        decreases a.len() - i,
    {
        if a[i] != b[i] {
            return false;
        }
        i += 1;
    }
    assert(a@ =~= b@);
    true
}

/// What a multiplication without contraction is, as plain values: 0 for the
/// element-wise product of operands with the same indices and the same shape; 1
/// where the second operand has no index that the first lacks, and is viewed
/// under the indices of the first; 2 where the first is viewed under those of the
/// second; 3 where neither operand can be viewed under the indices of the other;
/// 4 where the indices are the same and the shapes differ.
pub open spec fn broadcast_case(l: LayoutView, r: LayoutView, li: Seq<char>, ri: Seq<char>) -> int {
    if li == ri {
        if l.shape == r.shape {
            0
        } else {
            4
        }
    } else if ri.len() <= li.len() && subset_of(ri, li) {
        1
    } else if li.len() <= ri.len() && subset_of(li, ri) {
        2
    } else {
        3
    }
}

/// The error of a multiplication without contraction that cannot be planned:
/// it is not supported where neither operand can be viewed under the indices of
/// the other, and a shape error where the same indices have other sizes.
pub open spec fn broadcast_refused(e: EinsumError, case: int) -> bool {
    if case == 3 {
        e is Unsupported
    } else {
        case == 4 && e is ShapeError
    }
}

/// What holds of the operands of a multiplication without contraction: in
/// the element-wise case both are taken as they are; else the operand with
/// fewer indices is viewed under the indices of the other.
pub open spec fn broadcast_fits(b: BroadcastOperands, l: LayoutView, r: LayoutView, li: Seq<char>, ri: Seq<char>) -> bool {
    match b {
        BroadcastOperands::Hadamard => broadcast_case(l, r, li, ri) == 0,
        BroadcastOperands::Strided { lhs, rhs } => {
            let case = broadcast_case(l, r, li, ri);
            &&& case == 1 || case == 2
            &&& case == 1 ==> lhs@ == l && rhs.shape@ == broadcast_shape(r.shape, ri, li, l.shape) && rhs.strides@
                == broadcast_strides(r.strides, ri, li)
            &&& case == 2 ==> rhs@ == r && lhs.shape@ == broadcast_shape(l.shape, li, ri, r.shape) && lhs.strides@
                == broadcast_strides(l.strides, li, ri)
        },
    }
}

/// The operands of a multiplication without contraction, such as `ij,j->ij`.
pub fn plan_broadcast_multiply(lhs: &TensorLayout, rhs: &TensorLayout, lhs_indices: &[char], rhs_indices: &[char]) -> (res:
    Result<BroadcastOperands, EinsumError>)
    requires
        lhs.wf(),
        rhs.wf(),
        lhs_indices@.len() == lhs.shape@.len(),
        rhs_indices@.len() == rhs.shape@.len(),
    ensures
        match res {
            Ok(b) => broadcast_fits(b, lhs@, rhs@, lhs_indices@, rhs_indices@),
            Err(e) => broadcast_refused(e, broadcast_case(lhs@, rhs@, lhs_indices@, rhs_indices@)),
        },
{
    if same_letters_in_order(lhs_indices, rhs_indices) {
        if same_shape(lhs.shape.as_slice(), rhs.shape.as_slice()) {
            return Ok(BroadcastOperands::Hadamard);
        }
        return Err(EinsumError::shape("operands with the same indices differ in shape"));
    }
    if rhs_indices.len() <= lhs_indices.len() && is_subset(rhs_indices, lhs_indices) {
        let view = broadcast_view(rhs, rhs_indices, lhs, lhs_indices);
        return Ok(BroadcastOperands::Strided { lhs: lhs.clone(), rhs: view });
    }
    if lhs_indices.len() <= rhs_indices.len() && is_subset(lhs_indices, rhs_indices) {
        let view = broadcast_view(lhs, lhs_indices, rhs, rhs_indices);
        return Ok(BroadcastOperands::Strided { lhs: view, rhs: rhs.clone() });
    }
    Err(EinsumError::unsupported("complex broadcast multiply not yet supported"))
}

/// How an operand is prepared for the matrix multiplication.
#[derive(Debug, PartialEq, Eq)]
pub enum OperandPrep {
    /// The operand is taken as it is.
    AsIs,
    /// The operand is taken under another layout, without moving data.
    View { layout: TensorLayout },
    /// The operand is copied, in the order of the layout `permuted`, into
    /// contiguous storage of the shape `target_shape`.
    Materialize { permuted: TensorLayout, target_shape: Vec<usize> },
}

/// The plan of a contraction as a batched matrix multiplication.
#[derive(Debug, PartialEq, Eq)]
pub struct GemmPlan {
    /// The left operand, as `[batch.., M, K]`.
    pub lhs: OperandPrep,
    /// The right operand, as `[batch.., K, N]`.
    pub rhs: OperandPrep,
    /// The layout under which an output of fewer than two axes is handed to the
    /// multiplication: `[batch.., M, N]`.
    pub output: Option<TensorLayout>,
    /// The strides that such an output gets back afterwards, with its own
    /// shape.
    pub restored_strides: Option<Vec<usize>>,
}

/// The plan of a pairwise contraction.
#[derive(Debug, PartialEq, Eq)]
pub enum ContractionPlan {
    /// An operand has no element: nothing is launched.
    Nothing,
    /// Nothing is summed over: a multiplication with broadcasting.
    Broadcast(BroadcastOperands),
    /// A batched matrix multiplication.
    Gemm(GemmPlan),
}

/// The batch indices of a contraction: the letters of both operands that are
/// not summed over, each once, in the order of the first operand.
pub open spec fn gemm_batch(li: Seq<char>, ri: Seq<char>, contracted: Seq<char>) -> Seq<char> {
    distinct(keep_not_in(keep_in(li, ri.to_set()), contracted.to_set()))
}

/// The order in which the axes of the first operand are taken: batch axes, then
/// the axes that only it has, then the contracted axes.
pub open spec fn lhs_order(li: Seq<char>, ri: Seq<char>, contracted: Seq<char>) -> Seq<usize> {
    let batch = gemm_batch(li, ri, contracted);
    positions_in(li, batch.to_set()) + positions_not_in(li, (contracted + batch).to_set()) + positions_in(
        li,
        contracted.to_set(),
    )
}

/// The order in which the axes of the second operand are taken: batch axes,
/// then the contracted axes in the order in which the first operand has them,
/// then the axes that only the second operand has.
pub open spec fn rhs_order(li: Seq<char>, ri: Seq<char>, contracted: Seq<char>) -> Seq<usize> {
    let batch = gemm_batch(li, ri, contracted);
    positions_in(ri, batch.to_set()) + present_positions(keep_in(li, contracted.to_set()), ri) + positions_not_in(
        ri,
        (contracted + batch).to_set(),
    )
}

/// `n`, or 1 where `n` is 0.
pub open spec fn at_least_one(n: nat) -> nat {
    if n == 0 {
        1
    } else {
        n
    }
}

/// The three extents of the matrix multiplication: rows, summed axis and
/// columns, each the product of the sizes of its axes and at least 1.
pub open spec fn gemm_extents(l: Seq<usize>, r: Seq<usize>, li: Seq<char>, ri: Seq<char>, contracted: Seq<char>) -> (
    nat,
    nat,
    nat,
) {
    let batch = gemm_batch(li, ri, contracted);
    (
        at_least_one(product(gather(l, positions_not_in(li, (contracted + batch).to_set())))),
        at_least_one(product(gather(l, positions_in(li, contracted.to_set())))),
        at_least_one(product(gather(r, positions_not_in(ri, (contracted + batch).to_set())))),
    )
}

/// The sizes of the batch axes, as the first operand has them.
pub open spec fn gemm_batch_shape(l: Seq<usize>, li: Seq<char>, ri: Seq<char>, contracted: Seq<char>) -> Seq<usize> {
    gather(l, positions_within(gemm_batch(li, ri, contracted), li))
}

/// The preparation of an operand that is taken in the order `order` and as
/// the shape `target`: a copy where the order is a permutation and the
/// shape in that order is not yet `target`; a view where only one of the two
/// holds; else nothing.
pub open spec fn prep_fits(p: OperandPrep, l: LayoutView, order: Seq<usize>, target: Seq<usize>) -> bool {
    let permutes = !is_identity(order);
    let merges = gather(l.shape, order) != target;
    if permutes && merges {
        p matches OperandPrep::Materialize { permuted, target_shape } && permuted.shape@ == gather(l.shape, order)
            && permuted.strides@ == gather(l.strides, order) && target_shape@ == target
    } else if permutes {
        p matches OperandPrep::View { layout } && layout.shape@ == gather(l.shape, order) && layout.strides@
            == gather(l.strides, order)
    } else if merges {
        p matches OperandPrep::View { layout } && layout.shape@ == target && layout.strides@ == contiguous(target)
    } else {
        p is AsIs
    }
}

/// An operand can be prepared: where its axes are merged without a change of
/// their order, the strides of the new shape fit.
pub open spec fn prep_possible(l: LayoutView, order: Seq<usize>, target: Seq<usize>) -> bool {
    !is_identity(order) || gather(l.shape, order) == target || strides_fit(target)
}

/// Prepares one operand.
fn prepare_operand(layout: &TensorLayout, order: &[usize], target: Vec<usize>) -> (res: Result<
    OperandPrep,
    EinsumError,
>)
    requires
        layout.wf(),
        all_below(order@, layout.shape@.len()),
    ensures
        match res {
            Ok(p) => prep_possible(layout@, order@, target@) && prep_fits(p, layout@, order@, target@),
            Err(e) => !prep_possible(layout@, order@, target@) && e is ShapeError,
        },
{
    let permutes = !identity_permutation(order);
    let shape = match gather_sizes(layout.shape.as_slice(), order) {
        Some(v) => v,
        None => {
            assert(false);
            return Err(EinsumError::shape("axis out of range"));
        },
    };
    let merges = !same_shape(shape.as_slice(), target.as_slice());
    if permutes {
        let strides = match gather_sizes(layout.strides.as_slice(), order) {
            Some(v) => v,
            None => {
                assert(false);
                return Err(EinsumError::shape("axis out of range"));
            },
        };
        let permuted = TensorLayout { shape, strides };
        if merges {
            Ok(OperandPrep::Materialize { permuted, target_shape: target })
        } else {
            Ok(OperandPrep::View { layout: permuted })
        }
    } else if merges {
        match compute_strides(target.as_slice()) {
            Ok(strides) => Ok(OperandPrep::View { layout: TensorLayout { shape: target, strides } }),
            Err(e) => Err(e),
        }
    } else {
        Ok(OperandPrep::AsIs)
    }
}

/// `a` followed by `b`.
fn joined(a: &[usize], b: &[usize]) -> (r: Vec<usize>)
    ensures
        r@ == a@ + b@,
{
    let mut out = crate::chars::copy_sizes(a);
    let mut k: usize = 0;
    assert(a@ + b@.take(0) =~= a@);
    while k < b.len()
        invariant
            k <= b.len(),
            out@ == a@ + b@.take(k as int),
        decreases b.len() - k,
    {
        proof {
            lemma_take_step(b@, k as int);
            assert((a@ + b@.take(k as int)).push(b@[k as int]) =~= a@ + b@.take(k + 1));
        }
        out.push(b[k]);
        k += 1;
    }
    proof {
        lemma_take_all(b@);
    }
    out
}

/// The positions of `s` whose letter is in `keep` lie in `s`; so do those whose
/// letter is not in `drop`.
pub proof fn lemma_positions_below(s: Seq<char>, set: Set<char>)
    requires
        s.len() <= usize::MAX,
    ensures
        all_below(positions_in(s, set), s.len()),
        all_below(positions_not_in(s, set), s.len()),
    decreases s.len(),
{
    if s.len() > 0 {
        lemma_positions_below(s.drop_last(), set);
    }
}

/// The positions within `t` of the letters of `s` that `t` has lie in `t`.
pub proof fn lemma_present_below(s: Seq<char>, t: Seq<char>)
    requires
        t.len() <= usize::MAX,
    ensures
        all_below(present_positions(s, t), t.len()),
    decreases s.len(),
{
    if s.len() > 0 {
        lemma_present_below(s.drop_last(), t);
        crate::chars::lemma_first_position(t, s.last());
    }
}

/// Both parts of a concatenation lie below `n`.
pub proof fn lemma_all_below_add(a: Seq<usize>, b: Seq<usize>, n: nat)
    requires
        all_below(a, n),
        all_below(b, n),
    ensures
        all_below(a + b, n),
{
    assert forall|k: int| 0 <= k < (a + b).len() implies (#[trigger] (a + b)[k]) < n by {
        if k < a.len() {
            assert((a + b)[k] == a[k]);
        } else {
            assert((a + b)[k] == b[k - a.len()]);
        }
    }
}

/// The extent of some axes of a tensor: the product of their sizes, or 1 where
/// the product is 0.
fn extent(shape: &[usize], axes: &[usize]) -> (res: Result<usize, EinsumError>)
    requires
        all_below(axes@, shape@.len()),
    ensures
        match res {
            Ok(v) => v == at_least_one(product(gather(shape@, axes@))),
            Err(e) => product(gather(shape@, axes@)) > usize::MAX && e is ShapeError,
        },
{
    let sizes = match gather_sizes(shape, axes) {
        Some(v) => v,
        None => {
            assert(false);
            return Err(EinsumError::shape("axis out of range"));
        },
    };
    match checked_product(sizes.as_slice()) {
        Some(p) => Ok(if p == 0 {
            1
        } else {
            p
        }),
        None => Err(EinsumError::shape("an extent does not fit")),
    }
}

/// What holds of the plan of a contraction as a matrix multiplication.
pub open spec fn gemm_fits(
    plan: GemmPlan,
    lhs: LayoutView,
    rhs: LayoutView,
    output: LayoutView,
    li: Seq<char>,
    ri: Seq<char>,
    contracted: Seq<char>,
) -> bool {
    let ext = gemm_extents(lhs.shape, rhs.shape, li, ri, contracted);
    let batch = gemm_batch_shape(lhs.shape, li, ri, contracted);
    let (m, k, n) = (ext.0 as usize, ext.1 as usize, ext.2 as usize);
    &&& prep_fits(plan.lhs, lhs, lhs_order(li, ri, contracted), batch + seq![m, k])
    &&& prep_fits(plan.rhs, rhs, rhs_order(li, ri, contracted), batch + seq![k, n])
    &&& if output.shape.len() < 2 {
        &&& plan.output matches Some(o) && o.shape@ == batch + seq![m, n] && o.strides@ == contiguous(batch + seq![m, n])
        &&& plan.restored_strides matches Some(s) && s@ == contiguous(output.shape)
    } else {
        plan.output is None && plan.restored_strides is None
    }
}

/// A contraction can be planned as a matrix multiplication: the three extents
/// fit, both operands can be prepared, and for an output of fewer than two axes
/// the strides of both of its shapes fit.
pub open spec fn gemm_possible(
    lhs: LayoutView,
    rhs: LayoutView,
    output: LayoutView,
    li: Seq<char>,
    ri: Seq<char>,
    contracted: Seq<char>,
) -> bool {
    let names = gemm_batch(li, ri, contracted);
    let ext = gemm_extents(lhs.shape, rhs.shape, li, ri, contracted);
    let batch = gemm_batch_shape(lhs.shape, li, ri, contracted);
    let (m, k, n) = (ext.0 as usize, ext.1 as usize, ext.2 as usize);
    &&& product(gather(lhs.shape, positions_not_in(li, (contracted + names).to_set()))) <= usize::MAX
    &&& product(gather(lhs.shape, positions_in(li, contracted.to_set()))) <= usize::MAX
    &&& product(gather(rhs.shape, positions_not_in(ri, (contracted + names).to_set()))) <= usize::MAX
    &&& prep_possible(lhs, lhs_order(li, ri, contracted), batch + seq![m, k])
    &&& prep_possible(rhs, rhs_order(li, ri, contracted), batch + seq![k, n])
    &&& output.shape.len() < 2 ==> strides_fit(batch + seq![m, n]) && strides_fit(output.shape)
}

/// The plan of the contraction of two tensors over the indices `contracted`.
/// Where an operand has no element, nothing is launched. Else, without a
/// contracted index it is a multiplication with broadcasting; with one,
/// both operands are brought into the form of a batched matrix multiplication:
/// `[batch.., M, K]` and `[batch.., K, N]`.
pub fn plan_general_contraction(
    lhs: &TensorLayout,
    rhs: &TensorLayout,
    output: &TensorLayout,
    lhs_indices: &[char],
    rhs_indices: &[char],
    contracted: &[char],
) -> (res: Result<ContractionPlan, EinsumError>)
    requires
        lhs.wf(),
        rhs.wf(),
        lhs_indices@.len() == lhs.shape@.len(),
        rhs_indices@.len() == rhs.shape@.len(),
    ensures
        match res {
            Ok(ContractionPlan::Nothing) => no_elements(lhs.shape@) || no_elements(rhs.shape@),
            Ok(ContractionPlan::Broadcast(b)) => !no_elements(lhs.shape@) && !no_elements(rhs.shape@)
                && contracted@.len() == 0 && broadcast_fits(b, lhs@, rhs@, lhs_indices@, rhs_indices@),
            Ok(ContractionPlan::Gemm(g)) => !no_elements(lhs.shape@) && !no_elements(rhs.shape@)
                && contracted@.len() > 0 && gemm_possible(
                lhs@,
                rhs@,
                output@,
                lhs_indices@,
                rhs_indices@,
                contracted@,
            ) && gemm_fits(g, lhs@, rhs@, output@, lhs_indices@, rhs_indices@, contracted@),
            Err(e) => !no_elements(lhs.shape@) && !no_elements(rhs.shape@) && (if contracted@.len() == 0 {
                broadcast_refused(e, broadcast_case(lhs@, rhs@, lhs_indices@, rhs_indices@))
            } else {
                !gemm_possible(lhs@, rhs@, output@, lhs_indices@, rhs_indices@, contracted@) && e is ShapeError
            }),
        },
{
    if is_empty_shape(lhs.shape.as_slice()) || is_empty_shape(rhs.shape.as_slice()) {
        return Ok(ContractionPlan::Nothing);
    }
    if contracted.len() == 0 {
        return match plan_broadcast_multiply(lhs, rhs, lhs_indices, rhs_indices) {
            Ok(b) => Ok(ContractionPlan::Broadcast(b)),
            Err(e) => Err(e),
        };
    }
    let ghost li = lhs_indices@;
    let ghost ri = rhs_indices@;
    let ghost cs = contracted@;
    let common = keep_letters_in(lhs_indices, rhs_indices);
    let free = keep_letters_not_in(common.as_slice(), contracted);
    let batch = distinct_letters(free.as_slice());
    let mut not_free = crate::chars::copy_chars(contracted);
    let mut q: usize = 0;
    assert(cs + batch@.take(0) =~= cs);
    while q < batch.len()
        invariant
            q <= batch@.len(),
            not_free@ == cs + batch@.take(q as int),
        decreases batch@.len() - q,
    {
        proof {
            lemma_take_step(batch@, q as int);
            assert((cs + batch@.take(q as int)).push(batch@[q as int]) =~= cs + batch@.take(q + 1));
        }
        not_free.push(batch[q]);
        q += 1;
    }
    proof {
        lemma_take_all(batch@);
    }
    let lhs_rank = lhs_indices.len();
    let rhs_rank = rhs_indices.len();
    let lhs_batch = letter_positions_in(lhs_indices, batch.as_slice());
    let lhs_m = letter_positions_not_in(lhs_indices, not_free.as_slice());
    let lhs_k = letter_positions_in(lhs_indices, contracted);
    let rhs_batch = letter_positions_in(rhs_indices, batch.as_slice());
    let lhs_k_letters = keep_letters_in(lhs_indices, contracted);
    let rhs_k = positions_of_present(lhs_k_letters.as_slice(), rhs_indices);
    let rhs_n = letter_positions_not_in(rhs_indices, not_free.as_slice());
    proof {
        lemma_positions_below(li, batch@.to_set());
        lemma_positions_below(li, not_free@.to_set());
        lemma_positions_below(li, cs.to_set());
        lemma_positions_below(ri, batch@.to_set());
        lemma_positions_below(ri, not_free@.to_set());
        lemma_present_below(lhs_k_letters@, ri);
    }
    let m = match extent(lhs.shape.as_slice(), lhs_m.as_slice()) {
        Ok(v) => v,
        Err(e) => {
            return Err(e);
        },
    };
    let k = match extent(lhs.shape.as_slice(), lhs_k.as_slice()) {
        Ok(v) => v,
        Err(e) => {
            return Err(e);
        },
    };
    let n = match extent(rhs.shape.as_slice(), rhs_n.as_slice()) {
        Ok(v) => v,
        Err(e) => {
            return Err(e);
        },
    };
    proof {
        lemma_keep_in(li, ri.to_set());
        lemma_keep_not_in(keep_in(li, ri.to_set()), cs.to_set());
        lemma_distinct(keep_not_in(keep_in(li, ri.to_set()), cs.to_set()));
        assert forall|x: int| 0 <= x < batch@.len() implies li.contains(#[trigger] batch@[x]) by {
            assert(batch@.contains(batch@[x]));
        }
    }
    let batch_at = match position_list(batch.as_slice(), lhs_indices) {
        Some(v) => v,
        None => {
            assert(false);
            return Err(EinsumError::shape("a batch index is missing from the first operand"));
        },
    };
    let batch_shape = match gather_sizes(lhs.shape.as_slice(), batch_at.as_slice()) {
        Some(v) => v,
        None => {
            assert(false);
            return Err(EinsumError::shape("a batch index is missing from the first operand"));
        },
    };
    let lhs_perm = joined(joined(lhs_batch.as_slice(), lhs_m.as_slice()).as_slice(), lhs_k.as_slice());
    let rhs_perm = joined(joined(rhs_batch.as_slice(), rhs_k.as_slice()).as_slice(), rhs_n.as_slice());
    proof {
        lemma_all_below_add(lhs_batch@, lhs_m@, li.len());
        lemma_all_below_add(lhs_batch@ + lhs_m@, lhs_k@, li.len());
        lemma_all_below_add(rhs_batch@, rhs_k@, ri.len());
        lemma_all_below_add(rhs_batch@ + rhs_k@, rhs_n@, ri.len());
    }
    let mk = vec![m, k];
    let kn = vec![k, n];
    let mn = vec![m, n];
    proof {
        assert(mk@ =~= seq![m, k]);
        assert(kn@ =~= seq![k, n]);
        assert(mn@ =~= seq![m, n]);
    }
    let lhs_target = joined(batch_shape.as_slice(), mk.as_slice());
    let rhs_target = joined(batch_shape.as_slice(), kn.as_slice());
    let lhs_prep = match prepare_operand(lhs, lhs_perm.as_slice(), lhs_target) {
        Ok(p) => p,
        Err(e) => {
            return Err(e);
        },
    };
    let rhs_prep = match prepare_operand(rhs, rhs_perm.as_slice(), rhs_target) {
        Ok(p) => p,
        Err(e) => {
            return Err(e);
        },
    };
    if output.shape.len() < 2 {
        let shape = joined(batch_shape.as_slice(), mn.as_slice());
        let strides = match compute_strides(shape.as_slice()) {
            Ok(s) => s,
            Err(e) => {
                return Err(e);
            },
        };
        let restored = match compute_strides(output.shape.as_slice()) {
            Ok(s) => s,
            Err(e) => {
                return Err(e);
            },
        };
        Ok(
            ContractionPlan::Gemm(
                GemmPlan {
                    lhs: lhs_prep,
                    rhs: rhs_prep,
                    output: Some(TensorLayout { shape, strides }),
                    restored_strides: Some(restored),
                },
            ),
        )
    } else {
        Ok(ContractionPlan::Gemm(GemmPlan { lhs: lhs_prep, rhs: rhs_prep, output: None, restored_strides: None }))
    }
}

/// The order in which a contraction writes the indices of its result. The
/// matrix multiplication writes the batch indices, then the indices that only
/// the first operand has, then those that only the second has. The
/// multiplication without contraction writes the indices of the operand under
/// which the other is viewed.
pub open spec fn written_indices(l: LayoutView, r: LayoutView, li: Seq<char>, ri: Seq<char>, contracted: Seq<char>) -> Seq<
    char,
> {
    if contracted.len() == 0 {
        if broadcast_case(l, r, li, ri) == 2 {
            ri
        } else {
            li
        }
    } else {
        let batch = gemm_batch(li, ri, contracted);
        batch + keep_not_in(li, (contracted + batch).to_set()) + keep_not_in(ri, (contracted + batch).to_set())
    }
}

/// The order in which the contraction of two tensors writes the indices of its
/// result.
pub fn result_order(
    lhs: &TensorLayout,
    rhs: &TensorLayout,
    lhs_indices: &[char],
    rhs_indices: &[char],
    contracted: &[char],
) -> (r: Vec<char>)
    ensures
        r@ == written_indices(lhs@, rhs@, lhs_indices@, rhs_indices@, contracted@),
{
    if contracted.len() == 0 {
        let same = same_letters_in_order(lhs_indices, rhs_indices);
        let second = rhs_indices.len() <= lhs_indices.len() && is_subset(rhs_indices, lhs_indices);
        let first = lhs_indices.len() <= rhs_indices.len() && is_subset(lhs_indices, rhs_indices);
        if !same && !second && first {
            return crate::chars::copy_chars(rhs_indices);
        }
        return crate::chars::copy_chars(lhs_indices);
    }
    let common = keep_letters_in(lhs_indices, rhs_indices);
    let free = keep_letters_not_in(common.as_slice(), contracted);
    let batch = distinct_letters(free.as_slice());
    let not_free = joined_letters(contracted, batch.as_slice());
    let own_first = keep_letters_not_in(lhs_indices, not_free.as_slice());
    let own_second = keep_letters_not_in(rhs_indices, not_free.as_slice());
    joined_letters(joined_letters(batch.as_slice(), own_first.as_slice()).as_slice(), own_second.as_slice())
}

/// `a` followed by `b`.
fn joined_letters(a: &[char], b: &[char]) -> (r: Vec<char>)
    ensures
        r@ == a@ + b@,
{
    let mut out = crate::chars::copy_chars(a);
    let mut k: usize = 0;
    assert(a@ + b@.take(0) =~= a@);
    while k < b.len()
        invariant
            k <= b.len(),
            out@ == a@ + b@.take(k as int),
        decreases b.len() - k,
    {
        proof {
            lemma_take_step(b@, k as int);
            assert((a@ + b@.take(k as int)).push(b@[k as int]) =~= a@ + b@.take(k + 1));
        }
        out.push(b[k]);
        k += 1;
    }
    proof {
        lemma_take_all(b@);
    }
    out
}

/// The output under which a contraction writes indices in the order `written`,
/// where the output has the indices `output_indices`. Where the orders are the
/// same it is the output itself. Else the written indices must be those of the
/// output, each once, and the output is viewed with its axes in the written
/// order. There is no such view where the indices differ.
pub open spec fn output_view(output: LayoutView, output_indices: Seq<char>, written: Seq<char>) -> Option<LayoutView> {
    if written == output_indices {
        Some(output)
    } else if output.shape.len() == output_indices.len() && output.strides.len() == output_indices.len()
        && written.len() == output_indices.len() && distinct(written) == written && subset_of(
        written,
        output_indices,
    ) {
        Some(
            LayoutView {
                shape: gather(output.shape, positions_within(written, output_indices)),
                strides: gather(output.strides, positions_within(written, output_indices)),
            },
        )
    } else {
        None
    }
}

/// The output viewed in the order in which a contraction writes its indices.
pub fn view_in_order(output: &TensorLayout, output_indices: &[char], written: &[char]) -> (r: Option<TensorLayout>)
    ensures
        match r {
            Some(v) => output_view(output@, output_indices@, written@) == Some(v@),
            None => output_view(output@, output_indices@, written@) is None,
        },
{
    if same_letters_in_order(written, output_indices) {
        return Some(output.clone());
    }
    if output.shape.len() != output_indices.len() || output.strides.len() != output_indices.len() || written.len()
        != output_indices.len() {
        return None;
    }
    let once = distinct_letters(written);
    if !same_letters_in_order(once.as_slice(), written) {
        return None;
    }
    let at = match position_list(written, output_indices) {
        Some(v) => v,
        None => {
            return None;
        },
    };
    let shape = match gather_sizes(output.shape.as_slice(), at.as_slice()) {
        Some(v) => v,
        None => {
            assert(false);
            return None;
        },
    };
    let strides = match gather_sizes(output.strides.as_slice(), at.as_slice()) {
        Some(v) => v,
        None => {
            assert(false);
            return None;
        },
    };
    let view = TensorLayout { shape, strides };
    proof {
        assert(once@ == distinct(written@));
        assert(subset_of(written@, output_indices@));
        assert(view@ == LayoutView {
            shape: gather(output@.shape, positions_within(written@, output_indices@)),
            strides: gather(output@.strides, positions_within(written@, output_indices@)),
        });
    }
    Some(view)
}

/// The first position within `t` of each letter of `s`, where `t` has all of
/// them.
fn position_list(s: &[char], t: &[char]) -> (r: Option<Vec<usize>>)
    ensures
        match r {
            Some(v) => subset_of(s@, t@) && v@ == positions_within(s@, t@) && all_below(v@, t@.len()),
            None => !subset_of(s@, t@),
        },
{
    if !is_subset(s, t) {
        return None;
    }
    let v = crate::chars::letter_positions_within(s, t);
    Some(v)
}

/// The letters that stand for the indices of an operand whose subscript is not
/// known: four letters for each operand, from `a` on, and `?` after `z`.
pub open spec fn inferred_letter(input_idx: usize, i: int) -> char {
    if input_idx as int * 4 + i < 26 {
        (('a' as int) + input_idx as int * 4 + i) as char
    } else {
        '?'
    }
}

/// The letters that stand for the indices of the operand at position
/// `input_idx`, which has `ndim` axes.
pub fn infer_input_indices(input_idx: usize, ndim: usize) -> (r: Vec<char>)
    ensures
        r@.len() == ndim,
        forall|i: int| 0 <= i < ndim ==> (#[trigger] r@[i]) == inferred_letter(input_idx, i),
{
    let mut out: Vec<char> = Vec::new();
    let mut i: usize = 0;
    while i < ndim
        invariant
            i <= ndim,
            out@.len() == i,
            forall|k: int| 0 <= k < i ==> (#[trigger] out@[k]) == inferred_letter(input_idx, k),
        decreases ndim - i,
    {
        let c = if input_idx < 7 && i < 26 && input_idx * 4 + i < 26 {
            let code: u32 = 97 + (input_idx * 4 + i) as u32;
            match crate::tables::char_at(code) {
                Some(c) => c,
                None => '?',
            }
        } else {
            '?'
        };
        proof {
            assert('a' as int == 97);
        }
        out.push(c);
        i += 1;
    }
    out
}

/// The shape of the result of a contraction step: the sizes of its indices, as
/// the operands bind them; an index that neither binds is left out.
pub fn compute_contraction_shape_with_indices(
    lhs_shape: &[usize],
    rhs_shape: &[usize],
    lhs_indices: &[char],
    rhs_indices: &[char],
    result_indices: &[char],
) -> (r: Vec<usize>)
    ensures
        r@ == bound_sizes(pair_bindings(lhs_shape@, rhs_shape@, lhs_indices@, rhs_indices@), result_indices@),
{
    let mut dim_map = DimMap::new();
    bind_into(&mut dim_map, lhs_indices, lhs_shape);
    bind_into(&mut dim_map, rhs_indices, rhs_shape);
    lookup_bound(&dim_map, result_indices)
}

} // verus!
