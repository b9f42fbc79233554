//! Contraction paths, and the list of tensors that a path consumes.

use crate::chars::{copy_chars, copy_sizes, lemma_take_all, lemma_take_step};
use crate::dims::{
    bind_into, capped, lemma_capped_add, letter_seqs, lookup_or_one, sat_add, shape_seqs, sizes_or_one,
};
use crate::optimization::cost::pair_bindings;
use crate::tables::DimMap;
use vstd::prelude::*;

verus! {

/// One pairwise contraction.
#[derive(Debug, PartialEq, Eq)]
pub struct ContractionStep {
    /// The positions of the two operands in the current list of tensors.
    pub inputs: (usize, usize),
    /// The indices that are summed over.
    pub contracted_indices: Vec<char>,
    /// The indices of the result.
    pub result_indices: Vec<char>,
    /// The estimated number of operations.
    pub estimated_flops: u64,
}

/// A step as plain values.
pub struct StepView {
    pub first: usize,
    pub second: usize,
    pub contracted: Seq<char>,
    pub result: Seq<char>,
    pub flops: u64,
}

impl View for ContractionStep {
    type V = StepView;

    open spec fn view(&self) -> StepView {
        StepView {
            first: self.inputs.0,
            second: self.inputs.1,
            contracted: self.contracted_indices@,
            result: self.result_indices@,
            flops: self.estimated_flops,
        }
    }
}

impl Clone for ContractionStep {
    fn clone(&self) -> (r: Self)
        ensures
            r@ == self@,
    {
        ContractionStep {
            inputs: (self.inputs.0, self.inputs.1),
            contracted_indices: copy_chars(self.contracted_indices.as_slice()),
            result_indices: copy_chars(self.result_indices.as_slice()),
            estimated_flops: self.estimated_flops,
        }
    }
}

impl ContractionStep {
    pub fn new(
        inputs: (usize, usize),
        contracted_indices: Vec<char>,
        result_indices: Vec<char>,
        estimated_flops: u64,
    ) -> (r: Self)
        ensures
            r.inputs == inputs,
            r.contracted_indices == contracted_indices,
            r.result_indices == result_indices,
            r.estimated_flops == estimated_flops,
    {
        ContractionStep { inputs, contracted_indices, result_indices, estimated_flops }
    }
}

/// The views of a list of steps.
pub open spec fn step_views(v: Seq<ContractionStep>) -> Seq<StepView> {
    Seq::new(v.len(), |i: int| v[i]@)
}

/// The operations of all steps together.
pub open spec fn sum_flops(steps: Seq<StepView>) -> nat
    decreases steps.len(),
{
    if steps.len() == 0 {
        0
    } else {
        sum_flops(steps.drop_last()) + steps.last().flops as nat
    }
}

/// A sequence of pairwise contractions.
#[derive(Debug)]
pub struct ContractionPath {
    steps: Vec<ContractionStep>,
    total_flops: u64,
    total_memory: u64,
}

impl Clone for ContractionPath {
    fn clone(&self) -> (r: Self)
        ensures
            r.spec_steps() == self.spec_steps(),
            self.wf() ==> r.wf(),
    {
        let mut steps: Vec<ContractionStep> = Vec::new();
        let mut i: usize = 0;
        while i < self.steps.len()
            invariant
                i <= self.steps.len(),
                step_views(steps@) == step_views(self.steps@).take(i as int),
            decreases self.steps.len() - i,
        {
            let ghost before = steps@;
            steps.push(self.steps[i].clone());
            proof {
                assert(step_views(steps@) =~= step_views(before).push(self.steps@[i as int]@));
                assert(step_views(self.steps@).take(i + 1) =~= step_views(self.steps@).take(i as int).push(
                    self.steps@[i as int]@,
                ));
            }
            i += 1;
        }
        proof {
            lemma_take_all(step_views(self.steps@));
        }
        ContractionPath { steps, total_flops: self.total_flops, total_memory: self.total_memory }
    }
}

impl ContractionPath {
    /// The steps in order.
    pub closed spec fn spec_steps(&self) -> Seq<StepView> {
        step_views(self.steps@)
    }

    /// The total is the sum of the operations of the steps, capped at
    /// `u64::MAX`; memory traffic is not accumulated.
    pub closed spec fn wf(&self) -> bool {
        self.total_flops == capped(sum_flops(step_views(self.steps@))) && self.total_memory == 0
    }

    /// The empty path.
    pub fn new() -> (r: Self)
        ensures
            r.wf(),
            r.spec_steps() == Seq::<StepView>::empty(),
    {
        let r = ContractionPath { steps: Vec::new(), total_flops: 0, total_memory: 0 };
        assert(r.spec_steps() =~= Seq::<StepView>::empty());
        r
    }

    /// The empty path with room for `capacity` steps.
    pub fn with_capacity(capacity: usize) -> (r: Self)
        ensures
            r.wf(),
            r.spec_steps() == Seq::<StepView>::empty(),
    {
        let r = ContractionPath { steps: Vec::with_capacity(capacity), total_flops: 0, total_memory: 0 };
        assert(r.spec_steps() =~= Seq::<StepView>::empty());
        r
    }

    /// Appends a step and adds its operations to the total.
    pub fn push(&mut self, step: ContractionStep)
        requires
            old(self).wf(),
        ensures
            final(self).wf(),
            final(self).spec_steps() == old(self).spec_steps().push(step@),
    {
        proof {
            let v = step_views(self.steps@);
            lemma_capped_add(sum_flops(v), step.estimated_flops as nat);
            crate::chars::lemma_push_drop_last(v, step@);
            assert(step_views(self.steps@.push(step)) =~= v.push(step@));
        }
        self.total_flops = sat_add(self.total_flops, step.estimated_flops);
        self.steps.push(step);
    }

    /// The steps in order.
    pub fn steps(&self) -> (r: &[ContractionStep])
        ensures
            step_views(r@) == self.spec_steps(),
    {
        self.steps.as_slice()
    }

    /// The estimated operations of all steps, capped at `u64::MAX`.
    pub fn total_flops(&self) -> (r: u64)
        requires
            self.wf(),
        ensures
            r == capped(sum_flops(self.spec_steps())),
    {
        self.total_flops
    }

    /// The estimated memory traffic, which a path does not accumulate: 0.
    pub fn total_memory(&self) -> (r: u64)
        requires
            self.wf(),
        ensures
            r == 0,
    {
        self.total_memory
    }

    /// The number of steps.
    pub fn len(&self) -> (r: usize)
        ensures
            r == self.spec_steps().len(),
    {
        self.steps.len()
    }

    pub fn is_empty(&self) -> (r: bool)
        ensures
            r == (self.spec_steps().len() == 0),
    {
        self.steps.len() == 0
    }

    /// The pairs of positions that the steps contract.
    pub fn to_pairs(&self) -> (r: Vec<(usize, usize)>)
        ensures
            r@.len() == self.spec_steps().len(),
            forall|i: int|
                0 <= i < r@.len() ==> (#[trigger] r@[i]) == (self.spec_steps()[i].first, self.spec_steps()[i].second),
    {
        let mut out: Vec<(usize, usize)> = Vec::new();
        let mut i: usize = 0;
        while i < self.steps.len()
            invariant
                i <= self.steps.len(),
                out@.len() == i,
                forall|k: int|
                    0 <= k < i ==> (#[trigger] out@[k]) == (self.steps@[k].inputs.0, self.steps@[k].inputs.1),
            decreases self.steps.len() - i,
        {
            out.push((self.steps[i].inputs.0, self.steps[i].inputs.1));
            i += 1;
        }
        out
    }
}

impl Default for ContractionPath {
    fn default() -> (r: Self)
        ensures
            r.wf(),
            r.spec_steps() == Seq::<StepView>::empty(),
    {
        ContractionPath::new()
    }
}

/// The tensors that remain to be contracted, as plain values.
pub struct StateView {
    /// The shape of each tensor.
    pub shapes: Seq<Seq<usize>>,
    /// The indices of each tensor.
    pub indices: Seq<Seq<char>>,
    /// For each tensor, the least position of an operand that went into it.
    pub original: Seq<usize>,
}

/// The elements of `s` before position `n`, without those at `i` and `j`.
pub open spec fn without<T>(s: Seq<T>, i: int, j: int, n: nat) -> Seq<T>
    decreases n,
{
    if n == 0 {
        Seq::empty()
    } else if n - 1 == i || n - 1 == j {
        without(s, i, j, (n - 1) as nat)
    } else {
        without(s, i, j, (n - 1) as nat).push(s[n - 1])
    }
}

/// `without` leaves out one element for each of `i` and `j` that lies before `n`.
pub proof fn lemma_without_len<T>(s: Seq<T>, i: int, j: int, n: nat)
    requires
        0 <= i < j,
    ensures
        without(s, i, j, n).len() == n - (if i < n { 1int } else { 0int }) - (if j < n { 1int } else { 0int }),
    decreases n,
{
    if n > 0 {
        lemma_without_len(s, i, j, (n - 1) as nat);
    }
}

/// The smaller of two positions.
pub open spec fn least(a: usize, b: usize) -> usize {
    if a <= b {
        a
    } else {
        b
    }
}

/// The list after the tensors at `i` and `j` are contracted into one with the
/// indices `result`: the other tensors keep their order and the new tensor comes
/// last. The size of each of its indices is that of the operands, or 1 for an
/// index that neither has.
pub open spec fn contracted_state(s: StateView, i: int, j: int, result: Seq<char>) -> StateView {
    StateView {
        shapes: without(s.shapes, i, j, s.shapes.len()).push(
            sizes_or_one(pair_bindings(s.shapes[i], s.shapes[j], s.indices[i], s.indices[j]), result),
        ),
        indices: without(s.indices, i, j, s.indices.len()).push(result),
        original: without(s.original, i, j, s.original.len()).push(least(s.original[i], s.original[j])),
    }
}

/// The tensors that remain to be contracted during a search.
#[derive(Debug)]
pub struct TensorState {
    /// The shape of each tensor.
    pub shapes: Vec<Vec<usize>>,
    /// The indices of each tensor.
    pub indices: Vec<Vec<char>>,
    /// For each tensor, the least position of an operand that went into it.
    pub original_indices: Vec<usize>,
}

impl View for TensorState {
    type V = StateView;

    open spec fn view(&self) -> StateView {
        StateView {
            shapes: shape_seqs(self.shapes@),
            indices: letter_seqs(self.indices@),
            original: self.original_indices@,
        }
    }
}

/// A copy of a list of shapes.
pub fn copy_shapes(v: &[Vec<usize>]) -> (r: Vec<Vec<usize>>)
    ensures
        shape_seqs(r@) == shape_seqs(v@),
{
    let mut out: Vec<Vec<usize>> = Vec::new();
    let mut i: usize = 0;
    while i < v.len()
        invariant
            i <= v.len(),
            shape_seqs(out@) == shape_seqs(v@).take(i as int),
        decreases v.len() - i,
    {
        let ghost before = shape_seqs(out@);
        out.push(copy_sizes(v[i].as_slice()));
        proof {
            assert(shape_seqs(out@) =~= before.push(v@[i as int]@));
            assert(shape_seqs(v@).take(i + 1) =~= shape_seqs(v@).take(i as int).push(v@[i as int]@));
        }
        i += 1;
    }
    proof {
        lemma_take_all(shape_seqs(v@));
    }
    out
}

/// A copy of a list of index lists.
pub fn copy_index_lists(v: &[Vec<char>]) -> (r: Vec<Vec<char>>)
    ensures
        letter_seqs(r@) == letter_seqs(v@),
{
    let mut out: Vec<Vec<char>> = Vec::new();
    let mut i: usize = 0;
    while i < v.len()
        invariant
            i <= v.len(),
            letter_seqs(out@) == letter_seqs(v@).take(i as int),
        decreases v.len() - i,
    {
        let ghost before = letter_seqs(out@);
        out.push(copy_chars(v[i].as_slice()));
        proof {
            assert(letter_seqs(out@) =~= before.push(v@[i as int]@));
            assert(letter_seqs(v@).take(i + 1) =~= letter_seqs(v@).take(i as int).push(v@[i as int]@));
        }
        i += 1;
    }
    proof {
        lemma_take_all(letter_seqs(v@));
    }
    out
}

impl Clone for TensorState {
    fn clone(&self) -> (r: Self)
        ensures
            r@ == self@,
            self.wf() ==> r.wf(),
    {
        proof {
            assert(shape_seqs(self.shapes@).len() == self.shapes@.len());
            assert(letter_seqs(self.indices@).len() == self.indices@.len());
        }
        let mut original: Vec<usize> = Vec::new();
        let mut i: usize = 0;
        while i < self.original_indices.len()
            invariant
                i <= self.original_indices.len(),
                original@ == self.original_indices@.take(i as int),
            decreases self.original_indices.len() - i,
        {
            proof {
                lemma_take_step(self.original_indices@, i as int);
            }
            original.push(self.original_indices[i]);
            i += 1;
        }
        proof {
            lemma_take_all(self.original_indices@);
        }
        let shapes = copy_shapes(self.shapes.as_slice());
        let indices = copy_index_lists(self.indices.as_slice());
        proof {
            assert(shape_seqs(shapes@).len() == shapes@.len());
            assert(letter_seqs(indices@).len() == indices@.len());
        }
        TensorState { shapes, indices, original_indices: original }
    }
}

impl TensorState {
    /// Shapes, index lists and origins are as many.
    pub open spec fn wf(&self) -> bool {
        self.shapes@.len() == self.indices@.len() && self.shapes@.len() == self.original_indices@.len()
    }

    /// The state of the operands before any contraction.
    pub fn new(shapes: Vec<Vec<usize>>, indices: Vec<Vec<char>>) -> (r: Self)
        ensures
            r.shapes == shapes,
            r.indices == indices,
            r.original_indices@.len() == shapes@.len(),
            forall|i: int| 0 <= i < shapes@.len() ==> r.original_indices@[i] == i,
    {
        let mut original: Vec<usize> = Vec::new();
        let mut i: usize = 0;
        while i < shapes.len()
            invariant
                i <= shapes.len(),
                original@.len() == i,
                forall|k: int| 0 <= k < i ==> original@[k] == k,
            decreases shapes.len() - i,
        {
            original.push(i);
            i += 1;
        }
        TensorState { shapes, indices, original_indices: original }
    }

    /// The number of tensors that remain.
    pub fn len(&self) -> (r: usize)
        ensures
            r == self.shapes@.len(),
    {
        self.shapes.len()
    }

    /// The state after the tensors at `i` and `j` are contracted into one with
    /// the indices `output_indices`.
    pub fn contract(&self, i: usize, j: usize, output_indices: &[char]) -> (r: TensorState)
        requires
            self.wf(),
            i < j < self.shapes@.len(),
        ensures
            r.wf(),
            r@ == contracted_state(self@, i as int, j as int, output_indices@),
            r.shapes@.len() == self.shapes@.len() - 1,
    {
        let ghost sv = shape_seqs(self.shapes@);
        let ghost iv = letter_seqs(self.indices@);
        let mut dim_map = DimMap::new();
        assert(sv[i as int] == self.shapes@[i as int]@ && sv[j as int] == self.shapes@[j as int]@);
        assert(iv[i as int] == self.indices@[i as int]@ && iv[j as int] == self.indices@[j as int]@);
        bind_into(&mut dim_map, self.indices[i].as_slice(), self.shapes[i].as_slice());
        bind_into(&mut dim_map, self.indices[j].as_slice(), self.shapes[j].as_slice());
        let result_shape = lookup_or_one(&dim_map, output_indices);
        let mut new_shapes: Vec<Vec<usize>> = Vec::new();
        let mut new_indices: Vec<Vec<char>> = Vec::new();
        let mut new_original: Vec<usize> = Vec::new();
        let n = self.shapes.len();
        let mut k: usize = 0;
        while k < n
            invariant
                k <= n,
                n == self.shapes@.len(),
                self.wf(),
                sv == shape_seqs(self.shapes@),
                iv == letter_seqs(self.indices@),
                shape_seqs(new_shapes@) == without(sv, i as int, j as int, k as nat),
                letter_seqs(new_indices@) == without(iv, i as int, j as int, k as nat),
                new_original@ == without(self.original_indices@, i as int, j as int, k as nat),
            decreases n - k,
        {
            if k != i && k != j {
                let ghost s0 = shape_seqs(new_shapes@);
                let ghost i0 = letter_seqs(new_indices@);
                new_shapes.push(copy_sizes(self.shapes[k].as_slice()));
                new_indices.push(copy_chars(self.indices[k].as_slice()));
                new_original.push(self.original_indices[k]);
                proof {
                    assert(shape_seqs(new_shapes@) =~= s0.push(sv[k as int]));
                    assert(letter_seqs(new_indices@) =~= i0.push(iv[k as int]));
                }
            }
            k += 1;
        }
        let ghost s0 = shape_seqs(new_shapes@);
        let ghost i0 = letter_seqs(new_indices@);
        proof {
            lemma_without_len(sv, i as int, j as int, n as nat);
            lemma_without_len(iv, i as int, j as int, n as nat);
            lemma_without_len(self.original_indices@, i as int, j as int, n as nat);
        }
        new_shapes.push(result_shape);
        new_indices.push(copy_chars(output_indices));
        let a = self.original_indices[i];
        let b = self.original_indices[j];
        new_original.push(if a <= b {
            a
        } else {
            b
        });
        proof {
            assert(shape_seqs(new_shapes@) =~= s0.push(result_shape@));
            assert(letter_seqs(new_indices@) =~= i0.push(output_indices@));
        }
        TensorState { shapes: new_shapes, indices: new_indices, original_indices: new_original }
    }
}

} // verus!
