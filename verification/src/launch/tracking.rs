//! The list of tensors that a general plan works on, and what each of its steps
//! does to the list.

use crate::chars::{copy_chars, copy_sizes, lemma_take_all, lemma_take_step};
use crate::dims::bound_sizes;
use crate::error::EinsumError;
use crate::launch::executor::{
    broadcast_case, broadcast_fits, compute_contraction_shape_with_indices, descending, gemm_fits, gemm_possible,
    infer_input_indices, inferred_letter, no_elements, output_view, plan_general_contraction, plan_reduce,
    plan_transpose, result_order, same_letters_in_order, stageable, stages_fit, view_in_order, written_indices,
    ContractionPlan, OutputRebind, ReduceStage,
};
use crate::launch::layout::{
    all_below, compute_strides, contiguous, gather, gather_chars, gather_letters, strides_fit, LayoutView, TensorLayout,
};
use crate::optimization::cost::pair_bindings;
use crate::optimization::plan::{ExecutionStep, ReductionOp};
use vstd::prelude::*;

verus! {

/// A tensor of the list: its layout, and the indices that its axes stand for.
#[derive(Debug)]
pub struct TrackedTensor {
    pub layout: TensorLayout,
    pub indices: Vec<char>,
}

/// A tensor of the list as plain values.
pub struct TrackedView {
    pub shape: Seq<usize>,
    pub strides: Seq<usize>,
    pub indices: Seq<char>,
}

impl View for TrackedTensor {
    type V = TrackedView;

    open spec fn view(&self) -> TrackedView {
        TrackedView { shape: self.layout.shape@, strides: self.layout.strides@, indices: self.indices@ }
    }
}

/// The views of a list of tensors.
pub open spec fn entry_views(v: Seq<TrackedTensor>) -> Seq<TrackedView> {
    Seq::new(v.len(), |i: int| v[i]@)
}

/// The tensor has a stride and an index for each axis.
pub open spec fn entry_wf(t: TrackedView) -> bool {
    t.shape.len() == t.strides.len() && t.shape.len() == t.indices.len()
}

/// The list before the first step: the inputs, each with the indices that the
/// plan records for it, or with inferred letters where the plan records none.
pub fn initial_tracking(plan_indices: &[Vec<char>], inputs: &[TensorLayout]) -> (r: Vec<TrackedTensor>)
    ensures
        r@.len() == inputs@.len(),
        forall|i: int|
            0 <= i < r@.len() ==> (#[trigger] r@[i]).layout@ == inputs@[i]@ && (if i < plan_indices@.len() {
                r@[i].indices@ == plan_indices@[i]@
            } else {
                r@[i].indices@.len() == inputs@[i].shape@.len() && forall|k: int|
                    0 <= k < r@[i].indices@.len() ==> (#[trigger] r@[i].indices@[k]) == inferred_letter(i as usize, k)
            }),
{
    let mut out: Vec<TrackedTensor> = Vec::new();
    let mut i: usize = 0;
    while i < inputs.len()
        invariant
            i <= inputs@.len(),
            out@.len() == i,
            forall|q: int|
                0 <= q < i ==> (#[trigger] out@[q]).layout@ == inputs@[q]@ && (if q < plan_indices@.len() {
                    out@[q].indices@ == plan_indices@[q]@
                } else {
                    out@[q].indices@.len() == inputs@[q].shape@.len() && forall|k: int|
                        0 <= k < out@[q].indices@.len() ==> (#[trigger] out@[q].indices@[k]) == inferred_letter(
                            q as usize,
                            k,
                        )
                }),
        decreases inputs@.len() - i,
    {
        let indices = if i < plan_indices.len() {
            copy_chars(plan_indices[i].as_slice())
        } else {
            infer_input_indices(i, inputs[i].shape.len())
        };
        out.push(TrackedTensor { layout: inputs[i].clone(), indices });
        i += 1;
    }
    out
}

/// What the executor does for one step.
#[derive(Debug)]
pub enum StepAction {
    /// The tensors at `lhs` and `rhs` are contracted into the output, seen under
    /// the layout `target`, or into a fresh tensor of that layout.
    Contract { lhs: usize, rhs: usize, into_output: bool, target: TensorLayout, plan: ContractionPlan },
    /// The step is a fast path on the inputs of the call.
    FastPath,
    /// The tensor at `input` was given another layout; no kernel runs.
    Permute { input: usize },
    /// The tensor at `input` is summed over some axes into the output, or into a
    /// fresh tensor of the shape `result_shape`.
    Reduce { input: usize, into_output: bool, result_shape: Vec<usize>, stages: Vec<ReduceStage> },
}

/// The elements of `s` whose positions are not among `axes`.
pub open spec fn without_axes<T>(s: Seq<T>, axes: Seq<usize>) -> Seq<T>
    decreases s.len(),
{
    if s.len() == 0 {
        Seq::empty()
    } else if s.len() - 1 <= usize::MAX && axes.contains((s.len() - 1) as usize) {
        without_axes(s.drop_last(), axes)
    } else {
        without_axes(s.drop_last(), axes).push(s.last())
    }
}

/// Is `x` one of the axes?
fn has_axis(axes: &[usize], x: usize) -> (r: bool)
    ensures
        r == axes@.contains(x),
{
    let mut i: usize = 0;
    while i < axes.len()
        invariant
            i <= axes.len(),
            forall|k: int| 0 <= k < i ==> axes@[k] != x,
        decreases axes.len() - i,
    {
        if axes[i] == x {
            return true;
        }
        i += 1;
    }
    false
}

/// The sizes at the positions that are not among `axes`.
fn sizes_without(s: &[usize], axes: &[usize]) -> (r: Vec<usize>)
    ensures
        r@ == without_axes(s@, axes@),
{
    let mut out: Vec<usize> = Vec::new();
    let mut i: usize = 0;
    while i < s.len()
        invariant
            i <= s.len(),
            out@ == without_axes(s@.take(i as int), axes@),
        decreases s.len() - i,
    {
        proof {
            lemma_take_step(s@, i as int);
        }
        if !has_axis(axes, i) {
            out.push(s[i]);
        }
        i += 1;
    }
    proof {
        lemma_take_all(s@);
    }
    out
}

/// The letters at the positions that are not among `axes`.
fn letters_without(s: &[char], axes: &[usize]) -> (r: Vec<char>)
    ensures
        r@ == without_axes(s@, axes@),
{
    let mut out: Vec<char> = Vec::new();
    let mut i: usize = 0;
    while i < s.len()
        invariant
            i <= s.len(),
            out@ == without_axes(s@.take(i as int), axes@),
        decreases s.len() - i,
    {
        proof {
            lemma_take_step(s@, i as int);
        }
        if !has_axis(axes, i) {
            out.push(s[i]);
        }
        i += 1;
    }
    proof {
        lemma_take_all(s@);
    }
    out
}

/// The shape that an intermediate reduction leaves: the sizes of the axes that
/// are not reduced, or `[1]` where none is left.
pub open spec fn reduced_shape(shape: Seq<usize>, axes: Seq<usize>) -> Seq<usize> {
    if without_axes(shape, axes).len() == 0 {
        seq![1usize]
    } else {
        without_axes(shape, axes)
    }
}

/// Why a step cannot be taken.
pub enum StepFault {
    /// The step names a tensor that the list lacks.
    Launch,
    /// A shape, an axis or a stride does not fit.
    Shape,
    /// The step asks for what is not supported.
    Unsupported,
}

/// The error reports the fault.
pub open spec fn reports_step(e: EinsumError, f: StepFault) -> bool {
    match f {
        StepFault::Launch => e is LaunchError,
        StepFault::Shape => e is ShapeError,
        StepFault::Unsupported => e is Unsupported,
    }
}

/// The layout of a tensor of the list.
pub open spec fn layout_of(t: TrackedView) -> LayoutView {
    LayoutView { shape: t.shape, strides: t.strides }
}

/// The indices of the result of a contraction step, in the order in which the
/// contraction writes them.
pub open spec fn contraction_indices(before: Seq<TrackedView>, i: usize, j: usize, contracted: Seq<char>) -> Seq<char> {
    written_indices(
        layout_of(before[i as int]),
        layout_of(before[j as int]),
        before[i as int].indices,
        before[j as int].indices,
        contracted,
    )
}

/// The shape of the result of a contraction step: the sizes of its indices.
pub open spec fn contraction_shape(before: Seq<TrackedView>, i: usize, j: usize, contracted: Seq<char>) -> Seq<usize> {
    bound_sizes(
        pair_bindings(
            before[i as int].shape,
            before[j as int].shape,
            before[i as int].indices,
            before[j as int].indices,
        ),
        contraction_indices(before, i, j, contracted),
    )
}

/// Where a contraction step writes. The last step writes into the output of
/// the call, seen with its axes in the order in which the contraction writes
/// them; a multiplication without contraction writes the output only in its own
/// order. Any other step writes into a fresh contiguous tensor.
pub open spec fn contraction_target(
    before: Seq<TrackedView>,
    i: usize,
    j: usize,
    contracted: Seq<char>,
    is_last: bool,
    output: LayoutView,
    output_indices: Seq<char>,
) -> Option<LayoutView> {
    let written = contraction_indices(before, i, j, contracted);
    if !is_last {
        Some(
            LayoutView {
                shape: contraction_shape(before, i, j, contracted),
                strides: contiguous(contraction_shape(before, i, j, contracted)),
            },
        )
    } else if contracted.len() == 0 && written != output_indices {
        None
    } else {
        output_view(output, output_indices, written)
    }
}

/// Why a contraction step cannot be taken, if it cannot: an operand is missing
/// or both are the same; an operand has no stride or no index for an axis;
/// the strides of the fresh tensor do not fit; the last step does not give the
/// indices of the output; or, for operands with elements, the multiplication
/// with broadcasting is not supported or the matrix multiplication cannot be
/// planned.
pub open spec fn contraction_fault(
    before: Seq<TrackedView>,
    i: usize,
    j: usize,
    contracted: Seq<char>,
    is_last: bool,
    output: LayoutView,
    output_indices: Seq<char>,
) -> Option<StepFault> {
    let target = contraction_target(before, i, j, contracted, is_last, output, output_indices);
    if i >= before.len() || j >= before.len() || i == j {
        Some(StepFault::Launch)
    } else if !entry_wf(before[i as int]) || !entry_wf(before[j as int]) {
        Some(StepFault::Shape)
    } else if !is_last && !strides_fit(contraction_shape(before, i, j, contracted)) {
        Some(StepFault::Shape)
    } else if target is None {
        Some(StepFault::Unsupported)
    } else if no_elements(before[i as int].shape) || no_elements(before[j as int].shape) {
        None
    } else if contracted.len() == 0 {
        let case = broadcast_case(
            layout_of(before[i as int]),
            layout_of(before[j as int]),
            before[i as int].indices,
            before[j as int].indices,
        );
        if case == 3 {
            Some(StepFault::Unsupported)
        } else if case == 4 {
            Some(StepFault::Shape)
        } else {
            None
        }
    } else if !gemm_possible(
        layout_of(before[i as int]),
        layout_of(before[j as int]),
        target->Some_0,
        before[i as int].indices,
        before[j as int].indices,
        contracted,
    ) {
        Some(StepFault::Shape)
    } else {
        None
    }
}

/// What a contraction step gives: an error that reports its fault, with the
/// list unchanged; or the action, and the list in which the fresh tensor has
/// taken the place of the operands, at the end, with its indices in the order in
/// which they are written. The last step leaves the list as it is.
pub open spec fn contraction_outcome(
    res: Result<StepAction, EinsumError>,
    before: Seq<TrackedView>,
    after: Seq<TrackedView>,
    i: usize,
    j: usize,
    contracted: Seq<char>,
    is_last: bool,
    output: LayoutView,
    output_indices: Seq<char>,
) -> bool {
    match res {
        Ok(StepAction::Contract { lhs, rhs, into_output, target, plan }) => {
            &&& contraction_fault(before, i, j, contracted, is_last, output, output_indices) is None
            &&& lhs == i && rhs == j && into_output == is_last
            &&& contraction_target(before, i, j, contracted, is_last, output, output_indices) == Some(target@)
            &&& is_last ==> after == before
            &&& !is_last ==> after == crate::optimization::path::without(before, i as int, j as int, before.len()).push(
                TrackedView {
                    shape: target.shape@,
                    strides: target.strides@,
                    indices: contraction_indices(before, i, j, contracted),
                },
            )
            &&& match plan {
                ContractionPlan::Nothing => no_elements(before[i as int].shape) || no_elements(
                    before[j as int].shape,
                ),
                ContractionPlan::Broadcast(b) => contracted.len() == 0 && broadcast_fits(
                    b,
                    layout_of(before[i as int]),
                    layout_of(before[j as int]),
                    before[i as int].indices,
                    before[j as int].indices,
                ),
                ContractionPlan::Gemm(g) => contracted.len() > 0 && gemm_fits(
                    g,
                    layout_of(before[i as int]),
                    layout_of(before[j as int]),
                    target@,
                    before[i as int].indices,
                    before[j as int].indices,
                    contracted,
                ),
            }
        },
        Ok(_) => false,
        Err(e) => after == before && (contraction_fault(before, i, j, contracted, is_last, output, output_indices)
            matches Some(f) && reports_step(e, f)),
    }
}

/// The contraction step of a general plan. The operands must be two different
/// tensors of the list, each with an index for each axis. The last step writes
/// into the output of the call, whose indices are `output_indices`; any other
/// step writes into a fresh contiguous tensor, which takes the place of the
/// operands at the end of the list.
pub fn contraction_action(
    tensors: &mut Vec<TrackedTensor>,
    i: usize,
    j: usize,
    contracted: &[char],
    is_last: bool,
    output: &TensorLayout,
    output_indices: &[char],
) -> (res: Result<StepAction, EinsumError>)
    ensures
        contraction_outcome(
            res,
            entry_views(old(tensors)@),
            entry_views(final(tensors)@),
            i,
            j,
            contracted@,
            is_last,
            output@,
            output_indices@,
        ),
{
    let ghost before = entry_views(tensors@);
    if i >= tensors.len() || j >= tensors.len() || i == j {
        return Err(EinsumError::launch("contraction step references invalid tensor indices"));
    }
    let a = &tensors[i];
    let b = &tensors[j];
    assert(before[i as int] == a@ && before[j as int] == b@);
    if a.layout.shape.len() != a.layout.strides.len() || a.layout.shape.len() != a.indices.len()
        || b.layout.shape.len() != b.layout.strides.len() || b.layout.shape.len() != b.indices.len() {
        return Err(EinsumError::shape("a tensor of the plan has no index for each of its axes"));
    }
    let written = result_order(&a.layout, &b.layout, a.indices.as_slice(), b.indices.as_slice(), contracted);
    if is_last {
        let target = if contracted.len() == 0 && !same_letters_in_order(written.as_slice(), output_indices) {
            None
        } else {
            view_in_order(output, output_indices, written.as_slice())
        };
        let target = match target {
            Some(t) => t,
            None => {
                return Err(EinsumError::unsupported("the last step does not give the indices of the output"));
            },
        };
        let plan = match plan_general_contraction(
            &a.layout,
            &b.layout,
            &target,
            a.indices.as_slice(),
            b.indices.as_slice(),
            contracted,
        ) {
            Ok(p) => p,
            Err(e) => {
                return Err(e);
            },
        };
        return Ok(StepAction::Contract { lhs: i, rhs: j, into_output: true, target, plan });
    }
    let result_shape = compute_contraction_shape_with_indices(
        a.layout.shape.as_slice(),
        b.layout.shape.as_slice(),
        a.indices.as_slice(),
        b.indices.as_slice(),
        written.as_slice(),
    );
    let strides = match compute_strides(result_shape.as_slice()) {
        Ok(s) => s,
        Err(e) => {
            return Err(e);
        },
    };
    let workspace = TensorLayout { shape: result_shape, strides };
    let plan = match plan_general_contraction(
        &a.layout,
        &b.layout,
        &workspace,
        a.indices.as_slice(),
        b.indices.as_slice(),
        contracted,
    ) {
        Ok(p) => p,
        Err(e) => {
            return Err(e);
        },
    };
    let (lo, hi) = if i < j {
        (i, j)
    } else {
        (j, i)
    };
    let ghost ts = tensors@;
    let target = workspace.clone();
    tensors.remove(hi);
    tensors.remove(lo);
    tensors.push(TrackedTensor { layout: workspace, indices: written });
    proof {
        let n = before.len();
        lemma_without_is_remove(before, lo as int, hi as int);
        crate::optimization::path::lemma_without_len(before, lo as int, hi as int, n);
        assert(entry_views(ts.remove(hi as int).remove(lo as int)) =~= before.remove(hi as int).remove(lo as int));
        assert(entry_views(tensors@) =~= before.remove(hi as int).remove(lo as int).push(
            TrackedView {
                shape: target.shape@,
                strides: target.strides@,
                indices: contraction_indices(before, i, j, contracted@),
            },
        ));
        lemma_without_symmetric(before, i as int, j as int, n);
    }
    Ok(StepAction::Contract { lhs: i, rhs: j, into_output: false, target, plan })
}

/// What the executor does for a general plan without steps: the output takes
/// over the buffer of the only input, under its layout, where the input has the
/// indices of the output in their order. Nothing else is supported without a
/// step.
pub fn identity_output(plan_indices: &[Vec<char>], inputs: &[TensorLayout], output_indices: &[char]) -> (res: Result<
    OutputRebind,
    EinsumError,
>)
    ensures
        match res {
            Ok(r) => inputs@.len() == 1 && plan_indices@.len() == 1 && plan_indices@[0]@ == output_indices@
                && r.source == 0 && r.layout@ == inputs@[0]@,
            Err(e) => !(inputs@.len() == 1 && plan_indices@.len() == 1 && plan_indices@[0]@ == output_indices@)
                && e is Unsupported,
        },
{
    if inputs.len() == 1 && plan_indices.len() == 1 && same_letters_in_order(
        plan_indices[0].as_slice(),
        output_indices,
    ) {
        return Ok(OutputRebind { source: 0, layout: inputs[0].clone() });
    }
    Err(EinsumError::unsupported("a plan without steps must copy its only input"))
}

/// Leaving out the elements at two positions is removing the later and then the
/// earlier.
pub proof fn lemma_without_is_remove<T>(s: Seq<T>, lo: int, hi: int)
    requires
        0 <= lo < hi < s.len(),
    ensures
        crate::optimization::path::without(s, lo, hi, s.len()) == s.remove(hi).remove(lo),
{
    lemma_without_prefix(s, lo, hi, s.len());
}

/// `without` over the first `n` elements, by where `n` lies.
pub proof fn lemma_without_prefix<T>(s: Seq<T>, lo: int, hi: int, n: nat)
    requires
        0 <= lo < hi < s.len(),
        n <= s.len(),
    ensures
        crate::optimization::path::without(s, lo, hi, n) == (if n <= lo {
            s.take(n as int)
        } else if n <= hi {
            s.take(n as int).remove(lo)
        } else {
            s.take(n as int).remove(hi).remove(lo)
        }),
    decreases n,
{
    let w = crate::optimization::path::without(s, lo, hi, n);
    if n == 0 {
        assert(s.take(0) =~= Seq::<T>::empty());
    } else {
        lemma_without_prefix(s, lo, hi, (n - 1) as nat);
        let m = n - 1;
        if n <= lo {
            assert(s.take(n as int) =~= s.take(m).push(s[m]));
        } else if m == lo {
            assert(s.take(n as int).remove(lo) =~= s.take(m));
        } else if n <= hi {
            assert(s.take(n as int).remove(lo) =~= s.take(m).remove(lo).push(s[m]));
        } else if m == hi {
            assert(s.take(n as int).remove(hi).remove(lo) =~= s.take(m).remove(lo));
        } else {
            assert(s.take(n as int).remove(hi).remove(lo) =~= s.take(m).remove(hi).remove(lo).push(s[m]));
        }
    }
}

/// The order of the two positions does not matter.
pub proof fn lemma_without_symmetric<T>(s: Seq<T>, i: int, j: int, n: nat)
    ensures
        crate::optimization::path::without(s, i, j, n) == crate::optimization::path::without(s, j, i, n),
    decreases n,
{
    if n > 0 {
        lemma_without_symmetric(s, i, j, (n - 1) as nat);
    }
}

/// Why a permutation step cannot be taken, if it cannot: the tensor is
/// missing, it has no stride or no index for an axis, or the permutation names
/// an axis that it lacks.
pub open spec fn permutation_fault(before: Seq<TrackedView>, input: usize, perm: Seq<usize>) -> Option<StepFault> {
    if input >= before.len() {
        Some(StepFault::Launch)
    } else if !entry_wf(before[input as int]) || !all_below(perm, before[input as int].shape.len()) {
        Some(StepFault::Shape)
    } else {
        None
    }
}

/// What a permutation step gives: an error that reports its fault, with the
/// list unchanged; or the list in which the tensor has the layout and the
/// indices that the permutation gives.
pub open spec fn permutation_outcome(
    res: Result<StepAction, EinsumError>,
    before: Seq<TrackedView>,
    after: Seq<TrackedView>,
    input: usize,
    perm: Seq<usize>,
) -> bool {
    match res {
        Ok(StepAction::Permute { input: at }) => {
            &&& permutation_fault(before, input, perm) is None
            &&& at == input
            &&& after == before.update(
                input as int,
                TrackedView {
                    shape: gather(before[input as int].shape, perm),
                    strides: gather(before[input as int].strides, perm),
                    indices: gather_letters(before[input as int].indices, perm),
                },
            )
        },
        Ok(_) => false,
        Err(e) => after == before && (permutation_fault(before, input, perm) matches Some(f) && reports_step(e, f)),
    }
}

/// The permutation step of a general plan: the tensor at `input` gets the
/// layout and the indices that the permutation gives.
pub fn permutation_action(tensors: &mut Vec<TrackedTensor>, input: usize, perm: &[usize]) -> (res: Result<
    StepAction,
    EinsumError,
>)
    ensures
        permutation_outcome(res, entry_views(old(tensors)@), entry_views(final(tensors)@), input, perm@),
{
    let ghost before = entry_views(tensors@);
    if input >= tensors.len() {
        return Err(EinsumError::launch("permutation references invalid tensor"));
    }
    let t = &tensors[input];
    assert(before[input as int] == t@);
    if t.layout.shape.len() != t.layout.strides.len() || t.layout.shape.len() != t.indices.len() {
        return Err(EinsumError::shape("a tensor of the plan has no index for each of its axes"));
    }
    let layout = match plan_transpose(&t.layout, perm) {
        Ok(l) => l,
        Err(e) => {
            return Err(e);
        },
    };
    let indices = match gather_chars(t.indices.as_slice(), perm) {
        Some(v) => v,
        None => {
            assert(false);
            return Err(EinsumError::shape("permutation names an axis that the tensor lacks"));
        },
    };
    tensors.set(input, TrackedTensor { layout, indices });
    proof {
        assert(entry_views(tensors@) =~= before.update(
            input as int,
            TrackedView {
                shape: gather(before[input as int].shape, perm@),
                strides: gather(before[input as int].strides, perm@),
                indices: gather_letters(before[input as int].indices, perm@),
            },
        ));
    }
    Ok(StepAction::Permute { input })
}

/// The shape that a reduction step gives: that of the output of the call for
/// the last step, else the sizes of the axes that are left.
pub open spec fn reduction_target(before: Seq<TrackedView>, input: usize, axes: Seq<usize>, is_last: bool, output: LayoutView) -> Seq<
    usize,
> {
    if is_last {
        output.shape
    } else {
        reduced_shape(before[input as int].shape, axes)
    }
}

/// Why a reduction step cannot be taken, if it cannot: the tensor is missing;
/// the reduction is no sum; for a tensor with elements, it is over no axis, or
/// the axes cannot be reduced one after the other into the shape that the step
/// gives; or the strides of the fresh tensor do not fit.
pub open spec fn reduction_fault(
    before: Seq<TrackedView>,
    input: usize,
    axes: Seq<usize>,
    op: ReductionOp,
    is_last: bool,
    output: LayoutView,
) -> Option<StepFault> {
    let target = reduction_target(before, input, axes, is_last, output);
    let empty = input < before.len() && no_elements(before[input as int].shape);
    if input >= before.len() {
        Some(StepFault::Launch)
    } else if op != ReductionOp::Sum || (!empty && axes.len() == 0) {
        Some(StepFault::Unsupported)
    } else if !empty && !stageable(before[input as int].shape, target, descending(axes)) {
        Some(StepFault::Shape)
    } else if !is_last && !strides_fit(target) {
        Some(StepFault::Shape)
    } else {
        None
    }
}

/// What a reduction step gives: an error that reports its fault, with the
/// list unchanged; or the stages of the reduction, one for each axis and none
/// for a tensor without elements, and the
/// list in which the fresh tensor has taken the place of the operand. The last
/// step leaves the list as it is.
pub open spec fn reduction_outcome(
    res: Result<StepAction, EinsumError>,
    before: Seq<TrackedView>,
    after: Seq<TrackedView>,
    input: usize,
    axes: Seq<usize>,
    op: ReductionOp,
    is_last: bool,
    output: LayoutView,
) -> bool {
    match res {
        Ok(StepAction::Reduce { input: at, into_output, result_shape, stages }) => {
            let target = reduction_target(before, input, axes, is_last, output);
            &&& reduction_fault(before, input, axes, op, is_last, output) is None
            &&& at == input && into_output == is_last
            &&& result_shape@ == target
            &&& stages_fit(stages@, before[input as int].shape, target, axes)
            &&& is_last ==> after == before
            &&& !is_last ==> after == before.update(
                input as int,
                TrackedView {
                    shape: target,
                    strides: contiguous(target),
                    indices: without_axes(before[input as int].indices, axes),
                },
            )
        },
        Ok(_) => false,
        Err(e) => after == before && (reduction_fault(before, input, axes, op, is_last, output) matches Some(f)
            && reports_step(e, f)),
    }
}

/// The reduction step of a general plan. Only sums are supported. The last step
/// reduces into the output of the call; any other step reduces into a fresh
/// contiguous tensor of the axes that are left, which takes the place of the
/// operand.
pub fn reduction_action(
    tensors: &mut Vec<TrackedTensor>,
    input: usize,
    axes: &[usize],
    op: ReductionOp,
    is_last: bool,
    output: &TensorLayout,
) -> (res: Result<StepAction, EinsumError>)
    ensures
        reduction_outcome(
            res,
            entry_views(old(tensors)@),
            entry_views(final(tensors)@),
            input,
            axes@,
            op,
            is_last,
            output@,
        ),
{
    let ghost before = entry_views(tensors@);
    if input >= tensors.len() {
        return Err(EinsumError::launch("reduction references invalid tensor"));
    }
    match op {
        ReductionOp::Sum => {},
        _ => {
            return Err(EinsumError::unsupported("only sum reduction supported"));
        },
    }
    let t = &tensors[input];
    assert(before[input as int] == t@);
    if is_last {
        let stages = match plan_reduce(t.layout.shape.as_slice(), output.shape.as_slice(), axes) {
            Ok(s) => s,
            Err(e) => {
                return Err(e);
            },
        };
        return Ok(
            StepAction::Reduce { input, into_output: true, result_shape: copy_sizes(output.shape.as_slice()), stages },
        );
    }
    let mut shape = sizes_without(t.layout.shape.as_slice(), axes);
    let indices = letters_without(t.indices.as_slice(), axes);
    if shape.len() == 0 {
        shape.push(1);
        assert(shape@ =~= seq![1usize]);
    }
    let stages = match plan_reduce(t.layout.shape.as_slice(), shape.as_slice(), axes) {
        Ok(s) => s,
        Err(e) => {
            return Err(e);
        },
    };
    let strides = match compute_strides(shape.as_slice()) {
        Ok(s) => s,
        Err(e) => {
            return Err(e);
        },
    };
    let result_shape = copy_sizes(shape.as_slice());
    tensors.set(input, TrackedTensor { layout: TensorLayout { shape, strides }, indices });
    proof {
        let target = reduced_shape(before[input as int].shape, axes@);
        assert(entry_views(tensors@) =~= before.update(
            input as int,
            TrackedView {
                shape: target,
                strides: contiguous(target),
                indices: without_axes(before[input as int].indices, axes@),
            },
        ));
    }
    Ok(StepAction::Reduce { input, into_output: false, result_shape, stages })
}

/// What the executor does for the step of a general plan, and the list of
/// tensors after it. A fast path leaves the list as it is. `output_indices`
/// are the indices of the output of the call, which the last step writes.
pub fn next_action(
    tensors: &mut Vec<TrackedTensor>,
    step: &ExecutionStep,
    is_last: bool,
    output: &TensorLayout,
    output_indices: &[char],
) -> (res: Result<StepAction, EinsumError>)
    ensures
        match *step {
            ExecutionStep::Contraction { inputs, contracted, .. } => contraction_outcome(
                res,
                entry_views(old(tensors)@),
                entry_views(final(tensors)@),
                inputs.0,
                inputs.1,
                contracted@,
                is_last,
                output@,
                output_indices@,
            ),
            ExecutionStep::FastPath(_) => res matches Ok(StepAction::FastPath) && entry_views(final(tensors)@)
                == entry_views(old(tensors)@),
            ExecutionStep::Permutation { input, perm } => permutation_outcome(
                res,
                entry_views(old(tensors)@),
                entry_views(final(tensors)@),
                input,
                perm@,
            ),
            ExecutionStep::Reduction { input, axes, op } => reduction_outcome(
                res,
                entry_views(old(tensors)@),
                entry_views(final(tensors)@),
                input,
                axes@,
                op,
                is_last,
                output@,
            ),
        },
{
    match step {
        ExecutionStep::Contraction { inputs, contracted, .. } => contraction_action(
            tensors,
            inputs.0,
            inputs.1,
            contracted.as_slice(),
            is_last,
            output,
            output_indices,
        ),
        ExecutionStep::FastPath(_) => Ok(StepAction::FastPath),
        ExecutionStep::Permutation { input, perm } => permutation_action(tensors, *input, perm.as_slice()),
        ExecutionStep::Reduction { input, axes, op } => reduction_action(
            tensors,
            *input,
            axes.as_slice(),
            *op,
            is_last,
            output,
        ),
    }
}

} // verus!
