//! The greedy strategy: contract the cheapest pair, again and again.

use crate::chars::{lemma_push_drop_last};
use crate::dims::{letter_seqs, shape_seqs};
use crate::notation::notation::EinsumNotation;
use crate::notation::subscript::{named, Index};
use crate::notation::validation::shape_views;
use crate::optimization::cost::{ContractionCost, CostModel};
use crate::optimization::path::{ContractionPath, ContractionStep, StateView, StepView, TensorState};
use crate::optimization::search::{evaluate_pair, lemma_prefix, state_after, state_wf, step_at, step_cost, valid_steps};
use vstd::prelude::*;

verus! {

/// The pair `(p, q)` comes before the pair `(i, j)` in the order in which pairs are
/// tried.
pub open spec fn earlier(p: int, q: int, i: int, j: int) -> bool {
    p < i || (p == i && q < j)
}

/// `(i, j)` is the cheapest pair of the state, and the first of the cheapest in
/// the order in which pairs are tried.
pub open spec fn cheapest_pair(alpha: u64, s: StateView, output: Seq<char>, i: int, j: int) -> bool {
    &&& 0 <= i < j < s.shapes.len()
    &&& forall|p: int, q: int|
        0 <= p < q < s.shapes.len() ==> step_cost(alpha, s, i, j, output).total <= (#[trigger] step_cost(
            alpha,
            s,
            p,
            q,
            output,
        )).total
    &&& forall|p: int, q: int|
        0 <= p < q < s.shapes.len() && earlier(p, q, i, j) ==> step_cost(alpha, s, i, j, output).total < (
        #[trigger] step_cost(alpha, s, p, q, output)).total
}

/// Each of the first `k` steps contracts the cheapest pair of its state.
pub open spec fn greedy_steps(alpha: u64, s0: StateView, steps: Seq<StepView>, output: Seq<char>, k: nat) -> bool
    decreases k,
{
    k == 0 || {
        let p = state_after(s0, steps, (k - 1) as nat);
        let st = steps[k - 1];
        &&& greedy_steps(alpha, s0, steps, output, (k - 1) as nat)
        &&& cheapest_pair(alpha, p, output, st.first as int, st.second as int)
        &&& st == step_at(alpha, p, st.first as int, st.second as int, output)
    }
}

/// The steps are those of the greedy strategy, down to one tensor.
pub open spec fn greedy_path_of(alpha: u64, s0: StateView, steps: Seq<StepView>, output: Seq<char>) -> bool {
    &&& greedy_steps(alpha, s0, steps, output, steps.len())
    &&& state_after(s0, steps, steps.len()).shapes.len() <= 1
}

/// Greedy steps are valid steps.
pub proof fn lemma_greedy_valid(alpha: u64, s0: StateView, steps: Seq<StepView>, output: Seq<char>, k: nat)
    requires
        greedy_steps(alpha, s0, steps, output, k),
    ensures
        valid_steps(alpha, s0, steps, output, k),
    decreases k,
{
    if k > 0 {
        lemma_greedy_valid(alpha, s0, steps, output, (k - 1) as nat);
    }
}

/// What the first `k` steps are depends on those steps only.
pub proof fn lemma_greedy_prefix(
    alpha: u64,
    s0: StateView,
    a: Seq<StepView>,
    b: Seq<StepView>,
    output: Seq<char>,
    k: nat,
)
    requires
        k <= a.len(),
        k <= b.len(),
        forall|i: int| 0 <= i < k ==> a[i] == b[i],
    ensures
        greedy_steps(alpha, s0, a, output, k) == greedy_steps(alpha, s0, b, output, k),
    decreases k,
{
    if k > 0 {
        lemma_greedy_prefix(alpha, s0, a, b, output, (k - 1) as nat);
        lemma_prefix(alpha, s0, a, b, output, (k - 1) as nat);
    }
}

/// What holds of a whole path holds of each of its prefixes.
pub proof fn lemma_greedy_at(alpha: u64, s0: StateView, steps: Seq<StepView>, output: Seq<char>, n: nat, k: nat)
    requires
        k <= n,
        greedy_steps(alpha, s0, steps, output, n),
    ensures
        greedy_steps(alpha, s0, steps, output, k),
    decreases n - k,
{
    if k < n {
        lemma_greedy_at(alpha, s0, steps, output, (n - 1) as nat, k);
    }
}

/// The greedy path of a state is unique.
pub proof fn lemma_greedy_unique(alpha: u64, s0: StateView, a: Seq<StepView>, b: Seq<StepView>, output: Seq<char>, k: nat)
    requires
        k <= a.len(),
        k <= b.len(),
        greedy_steps(alpha, s0, a, output, k),
        greedy_steps(alpha, s0, b, output, k),
    ensures
        forall|i: int| 0 <= i < k ==> a[i] == b[i],
        state_after(s0, a, k) == state_after(s0, b, k),
    decreases k,
{
    if k > 0 {
        lemma_greedy_unique(alpha, s0, a, b, output, (k - 1) as nat);
        let p = state_after(s0, a, (k - 1) as nat);
        let x = a[k - 1];
        let y = b[k - 1];
        let (xi, xj) = (x.first as int, x.second as int);
        let (yi, yj) = (y.first as int, y.second as int);
        if earlier(xi, xj, yi, yj) {
            assert(step_cost(alpha, p, yi, yj, output).total < step_cost(alpha, p, xi, xj, output).total);
            assert(step_cost(alpha, p, xi, xj, output).total <= step_cost(alpha, p, yi, yj, output).total);
        }
        if earlier(yi, yj, xi, xj) {
            assert(step_cost(alpha, p, xi, xj, output).total < step_cost(alpha, p, yi, yj, output).total);
            assert(step_cost(alpha, p, yi, yj, output).total <= step_cost(alpha, p, xi, xj, output).total);
        }
    }
}

/// The cheapest pair of the state, with its step and its cost.
pub fn find_best_pair(state: &TensorState, output_indices: &[char], cost_model: &CostModel) -> (r: (
    usize,
    usize,
    ContractionStep,
    ContractionCost,
))
    requires
        state.wf(),
        state.shapes@.len() >= 2,
    ensures
        cheapest_pair(cost_model.alpha, state@, output_indices@, r.0 as int, r.1 as int),
        r.2@ == step_at(cost_model.alpha, state@, r.0 as int, r.1 as int, output_indices@),
        r.3 == step_cost(cost_model.alpha, state@, r.0 as int, r.1 as int, output_indices@),
{
    let n = state.len();
    let ghost s = state@;
    let ghost alpha = cost_model.alpha;
    let ghost out = output_indices@;
    let first = evaluate_pair(state, 0, 1, output_indices, cost_model);
    let mut best_i: usize = 0;
    let mut best_j: usize = 1;
    let mut best_step = first.0;
    let mut best_cost = first.1;
    let mut i: usize = 0;
    while i < n
        invariant
            i <= n,
            n == state.shapes@.len(),
            n >= 2,
            state.wf(),
            s == state@,
            alpha == cost_model.alpha,
            out == output_indices@,
            best_i < best_j < n,
            best_step@ == step_at(alpha, s, best_i as int, best_j as int, out),
            best_cost == step_cost(alpha, s, best_i as int, best_j as int, out),
            forall|p: int, q: int|
                0 <= p < q < n && p < i ==> best_cost.total <= (#[trigger] step_cost(alpha, s, p, q, out)).total,
            forall|p: int, q: int|
                0 <= p < q < n && earlier(p, q, best_i as int, best_j as int) ==> best_cost.total < (
                #[trigger] step_cost(alpha, s, p, q, out)).total,
            i > 0 || (best_i == 0 && best_j == 1),
            best_i < i || (best_i == 0 && best_j == 1),
        decreases n - i,
    {
        let mut j: usize = i + 1;
        while j < n
            invariant
                i < j <= n,
                n == state.shapes@.len(),
                n >= 2,
                state.wf(),
                s == state@,
                alpha == cost_model.alpha,
                out == output_indices@,
                best_i < best_j < n,
                best_step@ == step_at(alpha, s, best_i as int, best_j as int, out),
                best_cost == step_cost(alpha, s, best_i as int, best_j as int, out),
                forall|p: int, q: int|
                    0 <= p < q < n && (p < i || (p == i && q < j)) ==> best_cost.total <= (#[trigger] step_cost(
                        alpha,
                        s,
                        p,
                        q,
                        out,
                    )).total,
                forall|p: int, q: int|
                    0 <= p < q < n && earlier(p, q, best_i as int, best_j as int) ==> best_cost.total < (
                    #[trigger] step_cost(alpha, s, p, q, out)).total,
                best_i < i || (best_i == i && best_j < j) || (best_i == 0 && best_j == 1),
            decreases n - j,
        {
            let (step, cost) = evaluate_pair(state, i, j, output_indices, cost_model);
            if cost.total < best_cost.total {
                best_cost = cost;
                best_i = i;
                best_j = j;
                best_step = step;
            }
            j += 1;
        }
        i += 1;
    }
    (best_i, best_j, best_step, best_cost)
}

/// The index lists of the inputs of a notation.
pub open spec fn input_letters(ins: Seq<Seq<Index>>) -> Seq<Seq<char>> {
    Seq::new(ins.len(), |i: int| named(ins[i]))
}

/// The positions `0..n`.
pub open spec fn positions(n: nat) -> Seq<usize> {
    Seq::new(n, |i: int| i as usize)
}

/// The state before any contraction: the operands with their shapes and
/// indices.
pub open spec fn initial_state(ins: Seq<Seq<Index>>, shapes: Seq<Seq<usize>>) -> StateView {
    StateView { shapes: shapes, indices: input_letters(ins), original: positions(shapes.len()) }
}

/// Copies of the shapes.
pub fn owned_shapes(shapes: &[&[usize]]) -> (r: Vec<Vec<usize>>)
    ensures
        shape_seqs(r@) == shape_views(shapes@),
{
    let mut out: Vec<Vec<usize>> = Vec::new();
    let mut i: usize = 0;
    while i < shapes.len()
        invariant
            i <= shapes.len(),
            shape_seqs(out@) == shape_views(shapes@).take(i as int),
        decreases shapes.len() - i,
    {
        let ghost before = shape_seqs(out@);
        out.push(crate::chars::copy_sizes(shapes[i]));
        proof {
            assert(shape_seqs(out@) =~= before.push(shapes@[i as int]@));
            assert(shape_views(shapes@).take(i + 1) =~= shape_views(shapes@).take(i as int).push(
                shapes@[i as int]@,
            ));
        }
        i += 1;
    }
    proof {
        crate::chars::lemma_take_all(shape_views(shapes@));
    }
    out
}

/// The index lists of the inputs of the notation.
pub fn owned_indices(notation: &EinsumNotation) -> (r: Vec<Vec<char>>)
    requires
        notation.wf(),
    ensures
        letter_seqs(r@) == input_letters(notation.spec_inputs()),
{
    let inputs = notation.inputs();
    let ghost ins = notation.spec_inputs();
    let mut out: Vec<Vec<char>> = Vec::new();
    let mut i: usize = 0;
    while i < inputs.len()
        invariant
            i <= inputs.len(),
            ins == crate::notation::notation::views(inputs@),
            letter_seqs(out@) == input_letters(ins).take(i as int),
        decreases inputs.len() - i,
    {
        let ghost before = letter_seqs(out@);
        out.push(inputs[i].named_indices());
        proof {
            assert(ins[i as int] == inputs@[i as int]@);
            assert(letter_seqs(out@) =~= before.push(named(ins[i as int])));
            assert(input_letters(ins).take(i + 1) =~= input_letters(ins).take(i as int).push(
                named(ins[i as int]),
            ));
        }
        i += 1;
    }
    proof {
        crate::chars::lemma_take_all(input_letters(ins));
    }
    out
}

/// The greedy steps from a state on, appended to `path`.
pub fn greedy_from(state: TensorState, output_indices: &[char], cost_model: &CostModel) -> (r: (
    ContractionPath,
    ContractionCost,
))
    requires
        state.wf(),
    ensures
        r.0.wf(),
        greedy_path_of(cost_model.alpha, state@, r.0.spec_steps(), output_indices@),
        r.0.spec_steps().len() == (if state.shapes@.len() >= 1 {
            state.shapes@.len() - 1
        } else {
            0
        }),
        r.1 == crate::optimization::search::whole_cost(cost_model.alpha, state@, r.0.spec_steps(), output_indices@),
{
    let ghost s0 = state@;
    let ghost alpha = cost_model.alpha;
    let ghost out = output_indices@;
    let mut state = state;
    let mut path = ContractionPath::new();
    let mut total = ContractionCost::zero();
    while state.len() > 1
        invariant
            state.wf(),
            path.wf(),
            alpha == cost_model.alpha,
            out == output_indices@,
            state_wf(s0),
            state@ == state_after(s0, path.spec_steps(), path.spec_steps().len()),
            greedy_steps(alpha, s0, path.spec_steps(), out, path.spec_steps().len()),
            state.shapes@.len() + path.spec_steps().len() == s0.shapes.len(),
            total == crate::optimization::search::path_cost(alpha, s0, path.spec_steps(), out, path.spec_steps().len()),
        decreases state.shapes@.len(),
    {
        let (best_i, best_j, step, cost) = find_best_pair(&state, output_indices, cost_model);
        let new_state = state.contract(best_i, best_j, step.result_indices.as_slice());
        let ghost before = path.spec_steps();
        let ghost sv = step@;
        path.push(step);
        proof {
            let after = path.spec_steps();
            let k = before.len();
            lemma_push_drop_last(before, sv);
            lemma_prefix(alpha, s0, before, after, out, k);
            lemma_greedy_prefix(alpha, s0, before, after, out, k);
            assert(after[k as int] == sv);
            crate::optimization::search::lemma_cost_step(alpha, s0, after, out, (k + 1) as nat);
        }
        total = total.plus(cost);
        state = new_state;
    }
    (path, total)
}

/// The path of the greedy strategy: at each state the cheapest pair is
/// contracted, and of several cheapest pairs the first.
pub fn greedy_path(notation: &EinsumNotation, shapes: &[&[usize]], cost_model: &CostModel) -> (r: ContractionPath)
    requires
        notation.wf(),
        shapes@.len() == notation.spec_inputs().len(),
    ensures
        r.wf(),
        greedy_path_of(
            cost_model.alpha,
            initial_state(notation.spec_inputs(), shape_views(shapes@)),
            r.spec_steps(),
            named(notation.spec_output()),
        ),
        r.spec_steps().len() == (if shapes@.len() >= 1 {
            shapes@.len() - 1
        } else {
            0
        }),
{
    let state = starting_state(notation, shapes);
    let output = notation.output().named_indices();
    let (path, _cost) = greedy_from(state, output.as_slice(), cost_model);
    path
}

/// The state before any contraction.
pub fn starting_state(notation: &EinsumNotation, shapes: &[&[usize]]) -> (r: TensorState)
    requires
        notation.wf(),
        shapes@.len() == notation.spec_inputs().len(),
    ensures
        r.wf(),
        r@ == initial_state(notation.spec_inputs(), shape_views(shapes@)),
{
    let initial_shapes = owned_shapes(shapes);
    let initial_indices = owned_indices(notation);
    proof {
        assert(shape_seqs(initial_shapes@).len() == initial_shapes@.len());
        assert(shape_views(shapes@).len() == shapes@.len());
        assert(letter_seqs(initial_indices@).len() == initial_indices@.len());
        assert(input_letters(notation.spec_inputs()).len() == notation.spec_inputs().len());
    }
    let state = TensorState::new(initial_shapes, initial_indices);
    proof {
        assert(state@.original =~= positions(shapes@.len()));
    }
    state
}

/// The greedy path; ties between pairs of the same cost are broken as in
/// `greedy_path`.
pub fn greedy_path_size_tiebreak(notation: &EinsumNotation, shapes: &[&[usize]], cost_model: &CostModel) -> (r:
    ContractionPath)
    requires
        notation.wf(),
        shapes@.len() == notation.spec_inputs().len(),
    ensures
        r.wf(),
        greedy_path_of(
            cost_model.alpha,
            initial_state(notation.spec_inputs(), shape_views(shapes@)),
            r.spec_steps(),
            named(notation.spec_output()),
        ),
{
    greedy_path(notation, shapes, cost_model)
}

/// The greedy path under a cost model that counts operations only.
pub fn greedy_flops_only(notation: &EinsumNotation, shapes: &[&[usize]]) -> (r: ContractionPath)
    requires
        notation.wf(),
        shapes@.len() == notation.spec_inputs().len(),
    ensures
        r.wf(),
        greedy_path_of(
            0,
            initial_state(notation.spec_inputs(), shape_views(shapes@)),
            r.spec_steps(),
            named(notation.spec_output()),
        ),
{
    let cost_model = CostModel { alpha: 0 };
    greedy_path(notation, shapes, &cost_model)
}

} // verus!
