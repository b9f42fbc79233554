//! The execution plan: a fast path, or the steps of a contraction path.

use crate::chars::{lemma_take_all, lemma_take_step};
use crate::dims::{
    bound_sizes, capped, element_count, lemma_capped_mul, letter_seqs, lookup_bound, product, sat_mul, shape_seqs,
};
use crate::notation::notation::{batch_letters, generate_batch_indices, EinsumNotation, MAX_ELLIPSIS_DIMS};
use crate::notation::subscript::{expanded_letters, has_dots, named, Index};
use crate::notation::validation::shape_views;
use crate::optimization::branch_bound::{branch_bound_path, branch_bound_steps, MAX_NODES, MAX_SEARCH_DEPTH};
use crate::optimization::cost::{bind_all, bind_operands, shorter, CostModel};
use crate::optimization::dynamic::{optimal_path, table_or_greedy, MAX_DP_TENSORS};
use crate::optimization::greedy::{
    greedy_path, greedy_path_of, initial_state, input_letters, lemma_greedy_valid, owned_indices, owned_shapes,
};
use crate::optimization::path::{sum_flops, ContractionPath, StepView};
use crate::optimization::search::{complete_path, whole_cost};
use crate::pattern::fast_path::FastPath;
use crate::pattern::recognize::{kind_of, parameters_fit, pattern_of, recognize_pattern};
use vstd::prelude::*;

verus! {

/// The largest number of operands for which branch and bound is run.
pub const MAX_BB_TENSORS: usize = 20;

/// How the order of contraction is found.
#[derive(Debug, Clone, Copy, PartialEq, Eq, Structural)]
pub enum ContractionStrategy {
    /// The cheapest pair first.
    Greedy,
    /// Dynamic programming over the subsets of the operands.
    Optimal,
    /// Branch and bound, seeded with the greedy path.
    BranchBound,
    /// By the number of operands.
    Auto,
}

impl Default for ContractionStrategy {
    fn default() -> (r: Self)
        ensures
            r == ContractionStrategy::Auto,
    {
        ContractionStrategy::Auto
    }
}

/// How a reduction combines the elements.
#[derive(Debug, Clone, Copy, PartialEq, Eq, Structural)]
pub enum ReductionOp {
    Sum,
    Prod,
    Max,
    Min,
}

/// One step of a plan.
#[derive(Debug)]
pub enum ExecutionStep {
    /// A recognised operation with a kernel of its own.
    FastPath(FastPath),
    /// The contraction of two tensors of the current list.
    Contraction { inputs: (usize, usize), contracted: Vec<char>, result: Vec<char>, flops: u64 },
    /// A permutation of the axes of one tensor.
    Permutation { input: usize, perm: Vec<usize> },
    /// A reduction of one tensor over some axes.
    Reduction { input: usize, axes: Vec<usize>, op: ReductionOp },
}

/// The plan of an einsum operation.
#[derive(Debug)]
pub struct ExecutionPlan {
    steps: Vec<ExecutionStep>,
    total_flops: u64,
    output_shape: Vec<usize>,
    uses_fast_path: bool,
    input_indices: Vec<Vec<char>>,
    output_indices: Vec<char>,
}

/// The plan step is the contraction that the path step describes.
pub open spec fn contraction_of(e: ExecutionStep, s: StepView) -> bool {
    e matches ExecutionStep::Contraction { inputs, contracted, result, flops } && inputs.0 == s.first && inputs.1
        == s.second && contracted@ == s.contracted && result@ == s.result && flops == s.flops
}

/// The plan steps are the contractions of the path, in order.
pub open spec fn contractions_of(e: Seq<ExecutionStep>, s: Seq<StepView>) -> bool {
    e.len() == s.len() && forall|i: int| 0 <= i < e.len() ==> contraction_of(#[trigger] e[i], s[i])
}

/// The size of axis `i`, or 1 where the shape has no such axis.
pub open spec fn axis_or_one(shape: Seq<usize>, i: int) -> nat {
    if 0 <= i < shape.len() {
        shape[i] as nat
    } else {
        1
    }
}

/// The product of the sizes of the axes `axes` of `shape`, taking 1 for an axis
/// that the shape lacks.
pub open spec fn axes_product(shape: Seq<usize>, axes: Seq<usize>) -> nat
    decreases axes.len(),
{
    if axes.len() == 0 {
        1
    } else {
        axes_product(shape, axes.drop_last()) * axis_or_one(shape, axes.last() as int)
    }
}

/// The estimated operations of a fast path on operands of these shapes.
pub open spec fn fast_path_flops(p: FastPath, shapes: Seq<Seq<usize>>) -> nat {
    match p {
        FastPath::Matmul { .. } => if shapes.len() >= 2 {
            2 * axis_or_one(shapes[0], 0) * axis_or_one(shapes[0], 1) * axis_or_one(shapes[1], 1)
        } else {
            0
        },
        FastPath::BatchedMatmul { batch_dims, .. } => if shapes.len() >= 2 {
            let b = batch_dims@.len() as int;
            2 * axes_product(shapes[0], batch_dims@) * axis_or_one(shapes[0], b) * axis_or_one(shapes[0], b + 1)
                * axis_or_one(shapes[1], b + 1)
        } else {
            0
        },
        FastPath::Reduce { .. } | FastPath::Transpose { .. } | FastPath::Hadamard => if shapes.len() >= 1 {
            product(shapes[0])
        } else {
            0
        },
        FastPath::OuterProduct => if shapes.len() >= 2 {
            product(shapes[0]) * product(shapes[1])
        } else {
            0
        },
        FastPath::DotProduct => if shapes.len() >= 1 {
            2 * product(shapes[0])
        } else {
            0
        },
        FastPath::Trace | FastPath::DiagonalExtract => if shapes.len() >= 1 {
            axis_or_one(shapes[0], 0)
        } else {
            0
        },
    }
}

/// The size of axis `i`, or 1 where the shape has no such axis.
fn axis_size(shape: &[usize], i: usize) -> (r: u64)
    ensures
        r == axis_or_one(shape@, i as int),
{
    if i < shape.len() {
        shape[i] as u64
    } else {
        1
    }
}

/// The estimated operations of a fast path, capped at `u64::MAX`.
pub fn estimate_fast_path_flops(fast_path: &FastPath, shapes: &[&[usize]]) -> (r: u64)
    ensures
        r == capped(fast_path_flops(*fast_path, shape_views(shapes@))),
{
    let ghost sv = shape_views(shapes@);
    match fast_path {
        FastPath::Matmul { .. } => {
            if shapes.len() >= 2 {
                assert(sv[0] == shapes@[0]@ && sv[1] == shapes@[1]@);
                let m = axis_size(shapes[0], 0);
                let k = axis_size(shapes[0], 1);
                let n = axis_size(shapes[1], 1);
                proof {
                    lemma_capped_mul(2, m as nat);
                    lemma_capped_mul(2 * m as nat, k as nat);
                    lemma_capped_mul(2 * m as nat * k as nat, n as nat);
                }
                sat_mul(sat_mul(sat_mul(2, m), k), n)
            } else {
                0
            }
        },
        FastPath::BatchedMatmul { batch_dims, .. } => {
            if shapes.len() >= 2 {
                assert(sv[0] == shapes@[0]@ && sv[1] == shapes@[1]@);
                let mut batch: u64 = 1;
                let mut i: usize = 0;
                while i < batch_dims.len()
                    invariant
                        i <= batch_dims.len(),
                        shapes@.len() >= 2,
                        batch == capped(axes_product(shapes@[0]@, batch_dims@.take(i as int))),
                    decreases batch_dims.len() - i,
                {
                    proof {
                        lemma_take_step(batch_dims@, i as int);
                        lemma_capped_mul(
                            axes_product(shapes@[0]@, batch_dims@.take(i as int)),
                            axis_or_one(shapes@[0]@, batch_dims@[i as int] as int),
                        );
                    }
                    batch = sat_mul(batch, axis_size(shapes[0], batch_dims[i]));
                    i += 1;
                }
                proof {
                    lemma_take_all(batch_dims@);
                }
                let b = batch_dims.len();
                let m = axis_size(shapes[0], b);
                // No shape has an axis beyond `usize::MAX`.
                let rank_a = shapes[0].len();
                let rank_b = shapes[1].len();
                let (k, n) = if b < usize::MAX {
                    (axis_size(shapes[0], b + 1), axis_size(shapes[1], b + 1))
                } else {
                    assert(rank_a <= b && rank_b <= b);
                    (1, 1)
                };
                proof {
                    let bp = axes_product(shapes@[0]@, batch_dims@);
                    lemma_capped_mul(2, bp);
                    lemma_capped_mul(2 * bp, m as nat);
                    lemma_capped_mul(2 * bp * m as nat, k as nat);
                    lemma_capped_mul(2 * bp * m as nat * k as nat, n as nat);
                }
                sat_mul(sat_mul(sat_mul(sat_mul(2, batch), m), k), n)
            } else {
                0
            }
        },
        FastPath::Reduce { .. } | FastPath::Transpose { .. } | FastPath::Hadamard => {
            if shapes.len() >= 1 {
                assert(sv[0] == shapes@[0]@);
                element_count(shapes[0])
            } else {
                0
            }
        },
        FastPath::OuterProduct => {
            if shapes.len() >= 2 {
                assert(sv[0] == shapes@[0]@ && sv[1] == shapes@[1]@);
                proof {
                    lemma_capped_mul(product(shapes@[0]@), product(shapes@[1]@));
                }
                sat_mul(element_count(shapes[0]), element_count(shapes[1]))
            } else {
                0
            }
        },
        FastPath::DotProduct => {
            if shapes.len() >= 1 {
                assert(sv[0] == shapes@[0]@);
                proof {
                    lemma_capped_mul(2, product(shapes@[0]@));
                }
                sat_mul(2, element_count(shapes[0]))
            } else {
                0
            }
        },
        FastPath::Trace | FastPath::DiagonalExtract => {
            if shapes.len() >= 1 {
                assert(sv[0] == shapes@[0]@);
                axis_size(shapes[0], 0)
            } else {
                0
            }
        },
    }
}

/// The least position below `k` of an input with an ellipsis, or `k`.
pub open spec fn first_dotted(ins: Seq<Seq<Index>>, k: nat) -> nat
    decreases k,
{
    if k == 0 {
        0
    } else {
        let p = first_dotted(ins, (k - 1) as nat);
        if p < k - 1 || !has_dots(ins[k - 1]) {
            if p < k - 1 {
                p
            } else {
                k
            }
        } else {
            (k - 1) as nat
        }
    }
}

/// The number of axes that the ellipsis stands for in a plan: the axes that the
/// shape of the first input with an ellipsis has beyond its letters. It is 0
/// where no input has an ellipsis, where that input has no shape or too short a
/// shape, and where there are more axes than letters to name them.
pub open spec fn planned_width(ins: Seq<Seq<Index>>, shapes: Seq<Seq<usize>>) -> nat {
    let p = first_dotted(ins, ins.len()) as int;
    if p < ins.len() && p < shapes.len() && shapes[p].len() >= named(ins[p]).len() && shapes[p].len() - named(
        ins[p],
    ).len() <= MAX_ELLIPSIS_DIMS {
        (shapes[p].len() - named(ins[p]).len()) as nat
    } else {
        0
    }
}

/// The index lists of the inputs, each ellipsis replaced by `batch`.
pub open spec fn expanded_inputs(ins: Seq<Seq<Index>>, batch: Seq<char>) -> Seq<Seq<char>> {
    Seq::new(ins.len(), |i: int| expanded_letters(ins[i], batch))
}

/// The shape of the output: the sizes of its indices, as the operands bind
/// them, an ellipsis standing for as many axes as the first input with one has
/// beyond its letters; an index that no operand binds is left out.
pub open spec fn planned_output_shape(ins: Seq<Seq<Index>>, out: Seq<Index>, shapes: Seq<Seq<usize>>) -> Seq<usize> {
    let batch = batch_letters(planned_width(ins, shapes));
    bound_sizes(
        bind_all(shapes, expanded_inputs(ins, batch), shorter(shapes.len(), ins.len())),
        expanded_letters(out, batch),
    )
}

/// No input before the first with an ellipsis has one; and the first stays the
/// first.
pub proof fn lemma_first_dotted(ins: Seq<Seq<Index>>, k: nat)
    requires
        k <= ins.len(),
    ensures
        first_dotted(ins, k) <= k,
        forall|i: int| 0 <= i < first_dotted(ins, k) ==> !has_dots(#[trigger] ins[i]),
        first_dotted(ins, k) < k ==> has_dots(ins[first_dotted(ins, k) as int]),
    decreases k,
{
    if k > 0 {
        lemma_first_dotted(ins, (k - 1) as nat);
    }
}

/// The width of the ellipsis in a plan.
fn ellipsis_axes(notation: &EinsumNotation, shapes: &[&[usize]]) -> (r: usize)
    requires
        notation.wf(),
    ensures
        r == planned_width(notation.spec_inputs(), shape_views(shapes@)),
        r <= MAX_ELLIPSIS_DIMS,
{
    let inputs = notation.inputs();
    let ghost ins = notation.spec_inputs();
    let mut p: usize = 0;
    while p < inputs.len()
        invariant
            p <= inputs.len(),
            ins == crate::notation::notation::views(inputs@),
            ins == notation.spec_inputs(),
            crate::notation::notation::all_wf(inputs@),
            first_dotted(ins, p as nat) == p,
        decreases inputs.len() - p,
    {
        assert(ins[p as int] == inputs@[p as int]@);
        assert(inputs@[p as int].wf());
        if inputs[p].has_ellipsis() {
            proof {
                lemma_first_stays(ins, p as nat, ins.len());
            }
            if p < shapes.len() {
                assert(shape_views(shapes@)[p as int] == shapes@[p as int]@);
                let rank = shapes[p].len();
                let letters = inputs[p].explicit_count();
                if rank >= letters && rank - letters <= MAX_ELLIPSIS_DIMS {
                    return rank - letters;
                }
            }
            return 0;
        }
        p += 1;
    }
    0
}

/// An input with an ellipsis that no other comes before is the first of any
/// number of inputs.
pub proof fn lemma_first_stays(ins: Seq<Seq<Index>>, p: nat, k: nat)
    requires
        p < k <= ins.len(),
        first_dotted(ins, p) == p,
        has_dots(ins[p as int]),
    ensures
        first_dotted(ins, k) == p,
    decreases k,
{
    if k > p + 1 {
        lemma_first_stays(ins, p, (k - 1) as nat);
    }
}

/// The index lists of the inputs of the notation, each ellipsis replaced by
/// `batch`.
fn expanded_indices(notation: &EinsumNotation, batch: &[char]) -> (r: Vec<Vec<char>>)
    requires
        notation.wf(),
    ensures
        letter_seqs(r@) == expanded_inputs(notation.spec_inputs(), batch@),
{
    let inputs = notation.inputs();
    let ghost ins = notation.spec_inputs();
    let mut out: Vec<Vec<char>> = Vec::new();
    let mut i: usize = 0;
    while i < inputs.len()
        invariant
            i <= inputs.len(),
            ins == crate::notation::notation::views(inputs@),
            crate::notation::notation::all_wf(inputs@),
            letter_seqs(out@) == expanded_inputs(ins, batch@).take(i as int),
        decreases inputs.len() - i,
    {
        let ghost before = letter_seqs(out@);
        assert(inputs@[i as int].wf());
        out.push(inputs[i].expand_ellipsis(batch).named_indices());
        proof {
            assert(ins[i as int] == inputs@[i as int]@);
            assert(letter_seqs(out@) =~= before.push(expanded_letters(ins[i as int], batch@)));
            assert(expanded_inputs(ins, batch@).take(i + 1) =~= expanded_inputs(ins, batch@).take(i as int).push(
                expanded_letters(ins[i as int], batch@),
            ));
        }
        i += 1;
    }
    proof {
        crate::chars::lemma_take_all(expanded_inputs(ins, batch@));
    }
    out
}

/// The shape of the output of the notation for operands of these shapes.
pub fn compute_output_shape(notation: &EinsumNotation, shapes: &[&[usize]]) -> (r: Vec<usize>)
    requires
        notation.wf(),
    ensures
        r@ == planned_output_shape(notation.spec_inputs(), notation.spec_output(), shape_views(shapes@)),
{
    let width = ellipsis_axes(notation, shapes);
    let batch = generate_batch_indices(width);
    let owned = owned_shapes(shapes);
    let indices = expanded_indices(notation, batch.as_slice());
    proof {
        assert(shape_seqs(owned@).len() == owned@.len());
        assert(letter_seqs(indices@).len() == indices@.len());
    }
    let dim_map = bind_operands(owned.as_slice(), indices.as_slice());
    let letters = notation.output().expand_ellipsis(batch.as_slice()).named_indices();
    lookup_bound(&dim_map, letters.as_slice())
}

impl ExecutionPlan {
    /// The steps in order.
    pub closed spec fn spec_steps(&self) -> Seq<ExecutionStep> {
        self.steps@
    }

    /// The estimated operations.
    pub closed spec fn spec_total_flops(&self) -> u64 {
        self.total_flops
    }

    /// The shape of the output.
    pub closed spec fn spec_output_shape(&self) -> Seq<usize> {
        self.output_shape@
    }

    /// Whether the plan is a fast path.
    pub closed spec fn spec_uses_fast_path(&self) -> bool {
        self.uses_fast_path
    }

    /// The indices of the inputs.
    pub closed spec fn spec_input_indices(&self) -> Seq<Seq<char>> {
        letter_seqs(self.input_indices@)
    }

    /// The indices of the output, where the plan records them.
    pub closed spec fn spec_output_indices(&self) -> Seq<char> {
        self.output_indices@
    }

    /// The plan of one step that takes the fast path.
    pub fn fast_path(fast_path: FastPath, output_shape: Vec<usize>, flops: u64) -> (r: Self)
        ensures
            r.spec_steps() == seq![ExecutionStep::FastPath(fast_path)],
            r.spec_total_flops() == flops,
            r.spec_output_shape() == output_shape@,
            r.spec_uses_fast_path(),
            r.spec_input_indices() == Seq::<Seq<char>>::empty(),
            r.spec_output_indices() == Seq::<char>::empty(),
    {
        let mut steps: Vec<ExecutionStep> = Vec::new();
        steps.push(ExecutionStep::FastPath(fast_path));
        let r = ExecutionPlan {
            steps,
            total_flops: flops,
            output_shape,
            uses_fast_path: true,
            input_indices: Vec::new(),
            output_indices: Vec::new(),
        };
        proof {
            assert(r.spec_steps() =~= seq![ExecutionStep::FastPath(fast_path)]);
            assert(r.spec_input_indices() =~= Seq::<Seq<char>>::empty());
        }
        r
    }

    /// The plan whose steps are the contractions of a path.
    pub fn from_contraction_path(path: ContractionPath, output_shape: Vec<usize>, input_indices: Vec<Vec<char>>) -> (r:
        Self)
        requires
            path.wf(),
        ensures
            contractions_of(r.spec_steps(), path.spec_steps()),
            r.spec_total_flops() == capped(sum_flops(path.spec_steps())),
            r.spec_output_shape() == output_shape@,
            !r.spec_uses_fast_path(),
            r.spec_input_indices() == letter_seqs(input_indices@),
            r.spec_output_indices() == Seq::<char>::empty(),
    {
        let total_flops = path.total_flops();
        let source = path.steps();
        let mut steps: Vec<ExecutionStep> = Vec::new();
        let mut i: usize = 0;
        while i < source.len()
            invariant
                i <= source.len(),
                steps@.len() == i,
                forall|k: int| 0 <= k < i ==> contraction_of(#[trigger] steps@[k], source@[k]@),
            decreases source.len() - i,
        {
            let step = &source[i];
            steps.push(
                ExecutionStep::Contraction {
                    inputs: (step.inputs.0, step.inputs.1),
                    contracted: crate::chars::copy_chars(step.contracted_indices.as_slice()),
                    result: crate::chars::copy_chars(step.result_indices.as_slice()),
                    flops: step.estimated_flops,
                },
            );
            i += 1;
        }
        ExecutionPlan {
            steps,
            total_flops,
            output_shape,
            uses_fast_path: false,
            input_indices,
            output_indices: Vec::new(),
        }
    }

    /// The plan with the indices of the output recorded, in their order.
    pub fn with_output_indices(self, output_indices: Vec<char>) -> (r: Self)
        ensures
            r.spec_steps() == self.spec_steps(),
            r.spec_total_flops() == self.spec_total_flops(),
            r.spec_output_shape() == self.spec_output_shape(),
            r.spec_uses_fast_path() == self.spec_uses_fast_path(),
            r.spec_input_indices() == self.spec_input_indices(),
            r.spec_output_indices() == output_indices@,
    {
        ExecutionPlan {
            steps: self.steps,
            total_flops: self.total_flops,
            output_shape: self.output_shape,
            uses_fast_path: self.uses_fast_path,
            input_indices: self.input_indices,
            output_indices,
        }
    }

    /// The indices of the output, where the plan records them.
    pub fn output_indices(&self) -> (r: &[char])
        ensures
            r@ == self.spec_output_indices(),
    {
        self.output_indices.as_slice()
    }

    /// The steps in order.
    pub fn steps(&self) -> (r: &[ExecutionStep])
        ensures
            r@ == self.spec_steps(),
    {
        self.steps.as_slice()
    }

    /// The estimated operations.
    pub fn total_flops(&self) -> (r: u64)
        ensures
            r == self.spec_total_flops(),
    {
        self.total_flops
    }

    /// The shape of the output.
    pub fn output_shape(&self) -> (r: &[usize])
        ensures
            r@ == self.spec_output_shape(),
    {
        self.output_shape.as_slice()
    }

    /// Whether the plan is a fast path.
    pub fn uses_fast_path(&self) -> (r: bool)
        ensures
            r == self.spec_uses_fast_path(),
    {
        self.uses_fast_path
    }

    /// The number of steps.
    pub fn num_steps(&self) -> (r: usize)
        ensures
            r == self.spec_steps().len(),
    {
        self.steps.len()
    }

    /// The indices of the inputs; empty for a fast path.
    pub fn input_indices(&self) -> (r: &[Vec<char>])
        ensures
            letter_seqs(r@) == self.spec_input_indices(),
    {
        self.input_indices.as_slice()
    }
}

/// The strategy that `Auto` stands for with `n` operands, and the strategy that
/// replaces one that is not run with so many operands.
pub open spec fn effective_strategy(strategy: ContractionStrategy, n: nat) -> ContractionStrategy {
    match strategy {
        ContractionStrategy::Greedy => ContractionStrategy::Greedy,
        ContractionStrategy::Optimal => if n <= MAX_DP_TENSORS {
            ContractionStrategy::Optimal
        } else {
            ContractionStrategy::Greedy
        },
        ContractionStrategy::BranchBound => if n <= MAX_BB_TENSORS {
            ContractionStrategy::BranchBound
        } else {
            ContractionStrategy::Greedy
        },
        ContractionStrategy::Auto => if n <= 4 {
            ContractionStrategy::Optimal
        } else if n <= MAX_BB_TENSORS {
            ContractionStrategy::BranchBound
        } else {
            ContractionStrategy::Greedy
        },
    }
}

/// What `create_plan` returns where the notation has no fast path: the
/// contractions of a path that takes the operands down to one tensor. Under the
/// greedy strategy it is the greedy path; under the optimal strategy the path
/// that the table of subsets gives, or the greedy path where that is cheaper;
/// under branch and bound the path that the search finds within the standard
/// limits; under every strategy it costs no more than the greedy path.
pub open spec fn general_plan(
    plan: ExecutionPlan,
    ins: Seq<Seq<Index>>,
    out: Seq<Index>,
    shapes: Seq<Seq<usize>>,
    strategy: ContractionStrategy,
    alpha: u64,
) -> bool {
    exists|path: Seq<StepView>|
        {
            &&& #[trigger] contractions_of(plan.spec_steps(), path)
            &&& complete_path(alpha, initial_state(ins, shapes), path, named(out))
            &&& plan.spec_total_flops() == capped(sum_flops(path))
            &&& effective_strategy(strategy, ins.len()) == ContractionStrategy::Greedy ==> greedy_path_of(
                alpha,
                initial_state(ins, shapes),
                path,
                named(out),
            )
            &&& effective_strategy(strategy, ins.len()) == ContractionStrategy::Optimal ==> table_or_greedy(
                alpha,
                initial_state(ins, shapes),
                named(out),
                path,
            )
            &&& effective_strategy(strategy, ins.len()) == ContractionStrategy::BranchBound ==> path
                == branch_bound_steps(alpha, initial_state(ins, shapes), named(out), MAX_NODES, MAX_SEARCH_DEPTH as nat)
            &&& forall|g: Seq<StepView>|
                greedy_path_of(alpha, initial_state(ins, shapes), g, named(out)) ==> whole_cost(
                    alpha,
                    initial_state(ins, shapes),
                    path,
                    named(out),
                ).total <= whole_cost(alpha, initial_state(ins, shapes), g, named(out)).total
        }
}

/// The plan of an einsum operation: the fast path where the notation has one,
/// else the contractions of a path that the strategy finds under the cost model
/// for accelerators.
pub fn create_plan(notation: &EinsumNotation, shapes: &[&[usize]], strategy: ContractionStrategy) -> (r:
    ExecutionPlan)
    requires
        notation.wf(),
        pattern_of(notation.spec_inputs(), notation.spec_output()) is None ==> shapes@.len()
            == notation.spec_inputs().len(),
    ensures
        r.spec_uses_fast_path() == (pattern_of(notation.spec_inputs(), notation.spec_output()) is Some),
        r.spec_output_shape() == planned_output_shape(
            notation.spec_inputs(),
            notation.spec_output(),
            shape_views(shapes@),
        ),
        r.spec_uses_fast_path() ==> r.spec_steps().len() == 1 && (r.spec_steps()[0] matches ExecutionStep::FastPath(
            p,
        ) && pattern_of(notation.spec_inputs(), notation.spec_output()) == Some(kind_of(p)) && parameters_fit(
            p,
            notation.spec_inputs(),
            notation.spec_output(),
        ) && r.spec_total_flops() == capped(fast_path_flops(p, shape_views(shapes@)))) && r.spec_input_indices()
            == Seq::<Seq<char>>::empty(),
        !r.spec_uses_fast_path() ==> general_plan(
            r,
            notation.spec_inputs(),
            notation.spec_output(),
            shape_views(shapes@),
            strategy,
            64,
        ) && r.spec_input_indices() == input_letters(notation.spec_inputs()) && r.spec_output_indices() == named(
            notation.spec_output(),
        ) && r.spec_steps().len() == (
        if shapes@.len() >= 1 {
            shapes@.len() - 1
        } else {
            0
        }),
{
    if let Some(fast_path) = recognize_pattern(notation) {
        let output_shape = compute_output_shape(notation, shapes);
        let flops = estimate_fast_path_flops(&fast_path, shapes);
        return ExecutionPlan::fast_path(fast_path, output_shape, flops);
    }
    let cost_model = CostModel::default();
    let n = notation.num_inputs();
    let ghost s0 = initial_state(notation.spec_inputs(), shape_views(shapes@));
    let ghost out = named(notation.spec_output());
    let path = match strategy {
        ContractionStrategy::Greedy => greedy_path(notation, shapes, &cost_model),
        ContractionStrategy::Optimal => {
            if n <= MAX_DP_TENSORS {
                optimal_path(notation, shapes, &cost_model)
            } else {
                greedy_path(notation, shapes, &cost_model)
            }
        },
        ContractionStrategy::BranchBound => {
            if n <= MAX_BB_TENSORS {
                branch_bound_path(notation, shapes, &cost_model)
            } else {
                greedy_path(notation, shapes, &cost_model)
            }
        },
        ContractionStrategy::Auto => {
            if n <= 4 {
                optimal_path(notation, shapes, &cost_model)
            } else if n <= MAX_DP_TENSORS {
                branch_bound_path(notation, shapes, &cost_model)
            } else if n <= MAX_BB_TENSORS {
                branch_bound_path(notation, shapes, &cost_model)
            } else {
                greedy_path(notation, shapes, &cost_model)
            }
        },
    };
    proof {
        let steps = path.spec_steps();
        if greedy_path_of(64, s0, steps, out) {
            lemma_greedy_valid(64, s0, steps, out, steps.len());
            assert forall|g: Seq<StepView>| greedy_path_of(64, s0, g, out) implies whole_cost(64, s0, steps, out).total
                <= whole_cost(64, s0, g, out).total by {
                crate::optimization::branch_bound::lemma_greedy_same(64, s0, steps, g, out);
            }
        }
    }
    let output_shape = compute_output_shape(notation, shapes);
    let input_indices = owned_indices(notation);
    let ghost path_steps = path.spec_steps();
    let plan = ExecutionPlan::from_contraction_path(path, output_shape, input_indices).with_output_indices(
        notation.output().named_indices(),
    );
    proof {
        assert(contractions_of(plan.spec_steps(), path_steps));
    }
    plan
}

/// A plan has one step exactly if it is a fast path, unless it contracts two
/// operands without a fast path: the general plan of two operands has one step
/// too.
pub proof fn plan_step_count(
    plan: ExecutionPlan,
    ins: Seq<Seq<Index>>,
    out: Seq<Index>,
    shapes: Seq<Seq<usize>>,
    strategy: ContractionStrategy,
)
    requires
        pattern_of(ins, out) is None ==> shapes.len() == ins.len() && ins.len() != 2,
        planned(plan, ins, out, shapes, strategy),
    ensures
        plan.spec_steps().len() == 1 <==> plan.spec_uses_fast_path(),
{
}

/// What `create_plan` promises of its result.
pub open spec fn planned(
    plan: ExecutionPlan,
    ins: Seq<Seq<Index>>,
    out: Seq<Index>,
    shapes: Seq<Seq<usize>>,
    strategy: ContractionStrategy,
) -> bool {
    &&& plan.spec_uses_fast_path() == (pattern_of(ins, out) is Some)
    &&& plan.spec_output_shape() == planned_output_shape(ins, out, shapes)
    &&& plan.spec_uses_fast_path() ==> plan.spec_steps().len() == 1
    &&& !plan.spec_uses_fast_path() ==> general_plan(plan, ins, out, shapes, strategy, 64)
        && plan.spec_output_indices() == named(out) && plan.spec_steps().len() == (if shapes.len() >= 1 {
        shapes.len() - 1
    } else {
        0
    })
}

/// Letters that are bound without a clash are bound as if each binding replaced
/// the one before.
pub proof fn lemma_checked_is_bound(m: Map<char, usize>, letters: Seq<char>, shape: Seq<usize>, n: nat)
    requires
        crate::notation::validation::bind_checked(m, letters, shape, n) is Ok,
    ensures
        crate::dims::bind_first(m, letters, shape, n) == crate::notation::validation::bind_checked(
            m,
            letters,
            shape,
            n,
        )->Ok_0,
    decreases n,
{
    if n > 0 {
        lemma_checked_is_bound(m, letters, shape, (n - 1) as nat);
        let b = crate::notation::validation::bind_checked(m, letters, shape, (n - 1) as nat)->Ok_0;
        let c = letters[n - 1];
        if b.contains_key(c) {
            assert(b.insert(c, shape[n - 1]) =~= b);
        }
    }
}

/// The bindings that validation makes are the bindings that the plan reads the
/// shape of the output from.
pub proof fn lemma_validated_bindings(ins: Seq<Seq<Index>>, shapes: Seq<Seq<usize>>, batch: Seq<char>, k: nat)
    requires
        k <= ins.len(),
        k <= shapes.len(),
        crate::notation::validation::bind_inputs(ins, shapes, batch, k) is Ok,
    ensures
        bind_all(shapes, expanded_inputs(ins, batch), k) == crate::notation::validation::bind_inputs(
            ins,
            shapes,
            batch,
            k,
        )->Ok_0,
    decreases k,
{
    if k > 0 {
        lemma_validated_bindings(ins, shapes, batch, (k - 1) as nat);
        let m = crate::notation::validation::bind_inputs(ins, shapes, batch, (k - 1) as nat)->Ok_0;
        let letters = expanded_letters(ins[k - 1], batch);
        assert(expanded_inputs(ins, batch)[k - 1] == letters);
        lemma_checked_is_bound(m, letters, shapes[k - 1], letters.len());
    }
}

/// Where validation finds a width among the first `k` inputs, it is what the
/// shape of the first input with an ellipsis has beyond its letters; where it
/// finds none, no input has an ellipsis.
pub proof fn lemma_validated_width(ins: Seq<Seq<Index>>, shapes: Seq<Seq<usize>>, k: nat)
    requires
        k <= ins.len(),
        crate::notation::validation::width_first(ins, shapes, k) is Ok,
    ensures
        match crate::notation::validation::width_first(ins, shapes, k)->Ok_0 {
            Some(w) => first_dotted(ins, k) < k && shapes[first_dotted(ins, k) as int].len() >= named(
                ins[first_dotted(ins, k) as int],
            ).len() && w == shapes[first_dotted(ins, k) as int].len() - named(ins[first_dotted(ins, k) as int]).len(),
            None => first_dotted(ins, k) == k,
        },
    decreases k,
{
    if k > 0 {
        lemma_validated_width(ins, shapes, (k - 1) as nat);
        lemma_first_dotted(ins, (k - 1) as nat);
    }
}

/// Where validation accepts the shapes, the shape of the output in the plan is
/// the shape that validation derives.
pub proof fn planned_shape_is_validated_shape(ins: Seq<Seq<Index>>, out: Seq<Index>, shapes: Seq<Seq<usize>>)
    requires
        crate::notation::validation::shapes_spec(ins, out, shapes) is Ok,
    ensures
        planned_output_shape(ins, out, shapes) == crate::notation::validation::shapes_spec(
            ins,
            out,
            shapes,
        )->Ok_0.output_shape,
{
    let w = crate::notation::validation::ellipsis_width(ins, out, shapes)->Ok_0;
    lemma_first_dotted(ins, ins.len());
    if crate::notation::notation::any_dots(ins, out) {
        lemma_validated_width(ins, shapes, ins.len());
    } else {
        lemma_no_dots(ins, out, ins.len());
    }
    assert(planned_width(ins, shapes) == w);
    lemma_validated_bindings(ins, shapes, batch_letters(w as nat), ins.len());
}

/// A notation without ellipsis has no input with one.
pub proof fn lemma_no_dots(ins: Seq<Seq<Index>>, out: Seq<Index>, k: nat)
    requires
        k <= ins.len(),
        !crate::notation::notation::any_dots(ins, out),
    ensures
        first_dotted(ins, k) == k,
    decreases k,
{
    if k > 0 {
        lemma_no_dots(ins, out, (k - 1) as nat);
        assert(!has_dots(ins[k - 1]));
    }
}

} // verus!
