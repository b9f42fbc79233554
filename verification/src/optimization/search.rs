//! What the search strategies have in common: the contraction of a pair in a
//! state, and the paths that such contractions form.

use crate::chars::{
    keep_in, keep_letters_in, keep_letters_not_in, keep_not_in, lemma_take_all, lemma_take_step,
};
use crate::dims::{letter_seqs, shape_seqs};
use crate::index_set::{ordered, IndexSet};
use crate::optimization::cost::{letter_set, merge_outside, pair_cost, result_letters, ContractionCost, CostModel};
use crate::optimization::path::{contracted_state, ContractionStep, StateView, StepView, TensorState};
use vstd::prelude::*;

verus! {

/// The letters of the tensors before position `n` other than those at `i` and
/// `j`.
pub open spec fn others(indices: Seq<Seq<char>>, i: int, j: int, n: nat) -> Seq<char>
    decreases n,
{
    if n == 0 {
        Seq::empty()
    } else if n - 1 == i || n - 1 == j {
        others(indices, i, j, (n - 1) as nat)
    } else {
        others(indices, i, j, (n - 1) as nat) + indices[n - 1]
    }
}

/// The letters that are needed after the tensors at `i` and `j` are contracted:
/// those of the output and those of the other tensors.
pub open spec fn kept_letters(indices: Seq<Seq<char>>, i: int, j: int, output: Seq<char>) -> Seq<char> {
    output + others(indices, i, j, indices.len())
}

/// The indices that the contraction of the tensors at `i` and `j` sums over:
/// those that both have and that are not needed later, in increasing order.
pub open spec fn pair_contracted(indices: Seq<Seq<char>>, i: int, j: int, output: Seq<char>) -> Seq<char> {
    keep_not_in(ordered(keep_in(indices[i], indices[j].to_set())), kept_letters(indices, i, j, output).to_set())
}

/// The indices of the result of contracting the tensors at `i` and `j`.
pub open spec fn pair_result(indices: Seq<Seq<char>>, i: int, j: int, output: Seq<char>) -> Seq<char> {
    result_letters(indices[i], indices[j], pair_contracted(indices, i, j, output))
}

/// The cost of contracting the tensors at `i` and `j`.
pub open spec fn step_cost(alpha: u64, s: StateView, i: int, j: int, output: Seq<char>) -> ContractionCost {
    pair_cost(alpha, s.shapes[i], s.shapes[j], s.indices[i], s.indices[j], pair_contracted(s.indices, i, j, output))
}

/// The step that contracts the tensors at `i` and `j`.
pub open spec fn step_at(alpha: u64, s: StateView, i: int, j: int, output: Seq<char>) -> StepView {
    StepView {
        first: i as usize,
        second: j as usize,
        contracted: pair_contracted(s.indices, i, j, output),
        result: pair_result(s.indices, i, j, output),
        flops: step_cost(alpha, s, i, j, output).flops,
    }
}

/// The state after the first `k` steps.
pub open spec fn state_after(s0: StateView, steps: Seq<StepView>, k: nat) -> StateView
    decreases k,
{
    if k == 0 {
        s0
    } else {
        let p = state_after(s0, steps, (k - 1) as nat);
        contracted_state(p, steps[k - 1].first as int, steps[k - 1].second as int, steps[k - 1].result)
    }
}

/// A state holds as many index lists and origins as shapes.
pub open spec fn state_wf(s: StateView) -> bool {
    s.shapes.len() == s.indices.len() && s.shapes.len() == s.original.len()
}

/// Each of the first `k` steps contracts two tensors of the state that the steps
/// before it leave, with the indices and the cost of that contraction.
pub open spec fn valid_steps(alpha: u64, s0: StateView, steps: Seq<StepView>, output: Seq<char>, k: nat) -> bool
    decreases k,
{
    k == 0 || {
        let p = state_after(s0, steps, (k - 1) as nat);
        let st = steps[k - 1];
        &&& valid_steps(alpha, s0, steps, output, (k - 1) as nat)
        &&& st.first < st.second < p.shapes.len()
        &&& st == step_at(alpha, p, st.first as int, st.second as int, output)
    }
}

/// The steps contract the tensors of `s0` down to one.
pub open spec fn complete_path(alpha: u64, s0: StateView, steps: Seq<StepView>, output: Seq<char>) -> bool {
    &&& valid_steps(alpha, s0, steps, output, steps.len())
    &&& state_after(s0, steps, steps.len()).shapes.len() <= 1
}

/// The operations of the first `k` steps together.
pub open spec fn flops_sum(alpha: u64, s0: StateView, steps: Seq<StepView>, output: Seq<char>, k: nat) -> nat
    decreases k,
{
    if k == 0 {
        0
    } else {
        flops_sum(alpha, s0, steps, output, (k - 1) as nat) + step_cost(
            alpha,
            state_after(s0, steps, (k - 1) as nat),
            steps[k - 1].first as int,
            steps[k - 1].second as int,
            output,
        ).flops as nat
    }
}

/// The memory traffic of the first `k` steps together.
pub open spec fn memory_sum(alpha: u64, s0: StateView, steps: Seq<StepView>, output: Seq<char>, k: nat) -> nat
    decreases k,
{
    if k == 0 {
        0
    } else {
        memory_sum(alpha, s0, steps, output, (k - 1) as nat) + step_cost(
            alpha,
            state_after(s0, steps, (k - 1) as nat),
            steps[k - 1].first as int,
            steps[k - 1].second as int,
            output,
        ).memory as nat
    }
}

/// The totals of the first `k` steps together.
pub open spec fn total_sum(alpha: u64, s0: StateView, steps: Seq<StepView>, output: Seq<char>, k: nat) -> nat
    decreases k,
{
    if k == 0 {
        0
    } else {
        total_sum(alpha, s0, steps, output, (k - 1) as nat) + step_cost(
            alpha,
            state_after(s0, steps, (k - 1) as nat),
            steps[k - 1].first as int,
            steps[k - 1].second as int,
            output,
        ).total as nat
    }
}

/// The cost of the first `k` steps: the sums of the costs of their contractions,
/// each capped at `u64::MAX`.
pub open spec fn path_cost(alpha: u64, s0: StateView, steps: Seq<StepView>, output: Seq<char>, k: nat) -> ContractionCost {
    ContractionCost {
        flops: crate::dims::capped(flops_sum(alpha, s0, steps, output, k)),
        memory: crate::dims::capped(memory_sum(alpha, s0, steps, output, k)),
        total: crate::dims::capped(total_sum(alpha, s0, steps, output, k)),
    }
}

/// The cost of a whole path.
pub open spec fn whole_cost(alpha: u64, s0: StateView, steps: Seq<StepView>, output: Seq<char>) -> ContractionCost {
    path_cost(alpha, s0, steps, output, steps.len())
}

/// What the first `k` steps give depends on those steps only.
pub proof fn lemma_prefix(alpha: u64, s0: StateView, a: Seq<StepView>, b: Seq<StepView>, output: Seq<char>, k: nat)
    requires
        k <= a.len(),
        k <= b.len(),
        forall|i: int| 0 <= i < k ==> a[i] == b[i],
    ensures
        state_after(s0, a, k) == state_after(s0, b, k),
        valid_steps(alpha, s0, a, output, k) == valid_steps(alpha, s0, b, output, k),
        flops_sum(alpha, s0, a, output, k) == flops_sum(alpha, s0, b, output, k),
        memory_sum(alpha, s0, a, output, k) == memory_sum(alpha, s0, b, output, k),
        total_sum(alpha, s0, a, output, k) == total_sum(alpha, s0, b, output, k),
        path_cost(alpha, s0, a, output, k) == path_cost(alpha, s0, b, output, k),
    decreases k,
{
    if k > 0 {
        lemma_prefix(alpha, s0, a, b, output, (k - 1) as nat);
    }
}

/// The cost of a path with one more step.
pub proof fn lemma_cost_step(alpha: u64, s0: StateView, steps: Seq<StepView>, output: Seq<char>, k: nat)
    requires
        k > 0,
    ensures
        path_cost(alpha, s0, steps, output, k) == path_cost(alpha, s0, steps, output, (k - 1) as nat).spec_plus(
            step_cost(
                alpha,
                state_after(s0, steps, (k - 1) as nat),
                steps[k - 1].first as int,
                steps[k - 1].second as int,
                output,
            ),
        ),
{
    let c = step_cost(
        alpha,
        state_after(s0, steps, (k - 1) as nat),
        steps[k - 1].first as int,
        steps[k - 1].second as int,
        output,
    );
    crate::dims::lemma_capped_add(flops_sum(alpha, s0, steps, output, (k - 1) as nat), c.flops as nat);
    crate::dims::lemma_capped_add(memory_sum(alpha, s0, steps, output, (k - 1) as nat), c.memory as nat);
    crate::dims::lemma_capped_add(total_sum(alpha, s0, steps, output, (k - 1) as nat), c.total as nat);
}

/// Every valid step takes one tensor away.
pub proof fn lemma_state_len(alpha: u64, s0: StateView, steps: Seq<StepView>, output: Seq<char>, k: nat)
    requires
        state_wf(s0),
        k <= steps.len(),
        valid_steps(alpha, s0, steps, output, k),
    ensures
        state_wf(state_after(s0, steps, k)),
        state_after(s0, steps, k).shapes.len() + k == s0.shapes.len(),
    decreases k,
{
    if k > 0 {
        lemma_state_len(alpha, s0, steps, output, (k - 1) as nat);
        let p = state_after(s0, steps, (k - 1) as nat);
        let st = steps[k - 1];
        crate::optimization::path::lemma_without_len(p.shapes, st.first as int, st.second as int, p.shapes.len());
        crate::optimization::path::lemma_without_len(p.indices, st.first as int, st.second as int, p.indices.len());
        crate::optimization::path::lemma_without_len(
            p.original,
            st.first as int,
            st.second as int,
            p.original.len(),
        );
    }
}

/// Without a weight on the memory traffic the total of a path is the number of
/// its operations.
pub proof fn total_is_operations_without_weight(s0: StateView, steps: Seq<StepView>, output: Seq<char>, k: nat)
    ensures
        total_sum(0, s0, steps, output, k) == flops_sum(0, s0, steps, output, k),
        path_cost(0, s0, steps, output, k).total == path_cost(0, s0, steps, output, k).flops,
    decreases k,
{
    if k > 0 {
        total_is_operations_without_weight(s0, steps, output, (k - 1) as nat);
    }
}

/// Under a pure count of operations, a path whose total is at most that of a
/// second path has at most as many operations.
pub proof fn cheaper_path_has_fewer_operations(s0: StateView, a: Seq<StepView>, b: Seq<StepView>, output: Seq<char>)
    requires
        whole_cost(0, s0, a, output).total <= whole_cost(0, s0, b, output).total,
    ensures
        whole_cost(0, s0, a, output).flops <= whole_cost(0, s0, b, output).flops,
{
    total_is_operations_without_weight(s0, a, output, a.len());
    total_is_operations_without_weight(s0, b, output, b.len());
}

/// The letters of the output and of the tensors other than those at `i` and `j`.
pub fn letters_kept(indices: &[Vec<char>], i: usize, j: usize, output: &[char]) -> (r: Vec<char>)
    ensures
        r@ == kept_letters(letter_seqs(indices@), i as int, j as int, output@),
{
    let ghost iv = letter_seqs(indices@);
    let mut kept = crate::chars::copy_chars(output);
    let mut k: usize = 0;
    assert(output@ + others(iv, i as int, j as int, 0) =~= output@);
    while k < indices.len()
        invariant
            k <= indices.len(),
            iv == letter_seqs(indices@),
            kept@ == output@ + others(iv, i as int, j as int, k as nat),
        decreases indices.len() - k,
    {
        if k != i && k != j {
            let letters = &indices[k];
            let ghost before = kept@;
            let mut q: usize = 0;
            assert(before + letters@.take(0) =~= before);
            while q < letters.len()
                invariant
                    q <= letters.len(),
                    kept@ == before + letters@.take(q as int),
                decreases letters.len() - q,
            {
                proof {
                    lemma_take_step(letters@, q as int);
                    assert((before + letters@.take(q as int)).push(letters@[q as int]) =~= before + letters@.take(
                        q + 1,
                    ));
                }
                kept.push(letters[q]);
                q += 1;
            }
            proof {
                lemma_take_all(letters@);
                assert(iv[k as int] == letters@);
                assert(output@ + (others(iv, i as int, j as int, k as nat) + letters@) =~= output@ + others(
                    iv,
                    i as int,
                    j as int,
                    k as nat,
                ) + letters@);
            }
        }
        k += 1;
    }
    kept
}

/// The step that contracts the tensors at `i` and `j`, and its cost.
pub fn evaluate_pair(state: &TensorState, i: usize, j: usize, final_output: &[char], cost_model: &CostModel) -> (r: (
    ContractionStep,
    ContractionCost,
))
    requires
        state.wf(),
        i < j < state.shapes@.len(),
    ensures
        r.0@ == step_at(cost_model.alpha, state@, i as int, j as int, final_output@),
        r.1 == step_cost(cost_model.alpha, state@, i as int, j as int, final_output@),
{
    let ghost iv = letter_seqs(state.indices@);
    let ghost sv = shape_seqs(state.shapes@);
    assert(iv[i as int] == state.indices@[i as int]@ && iv[j as int] == state.indices@[j as int]@);
    assert(sv[i as int] == state.shapes@[i as int]@ && sv[j as int] == state.shapes@[j as int]@);
    let indices_i = state.indices[i].as_slice();
    let indices_j = state.indices[j].as_slice();
    let both = keep_letters_in(indices_i, indices_j);
    let common = IndexSet::from_chars(both.as_slice()).to_vec();
    let kept = letters_kept(state.indices.as_slice(), i, j, final_output);
    let contracted = keep_letters_not_in(common.as_slice(), kept.as_slice());
    let contracted_set = letter_set(contracted.as_slice());
    let result_indices = merge_outside(indices_i, indices_j, &contracted_set);
    let cost = cost_model.compute_pairwise_cost(
        state.shapes[i].as_slice(),
        state.shapes[j].as_slice(),
        indices_i,
        indices_j,
        contracted.as_slice(),
    );
    let step = ContractionStep::new((i, j), contracted, result_indices, cost.flops);
    (step, cost)
}

} // verus!
