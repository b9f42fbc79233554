//! The cost of a contraction: operations and memory traffic.

use crate::chars::{distinct, keep_not_in, lemma_take_all, lemma_take_step};
use crate::dims::{
    bind, bind_into, bound_sizes, capped, element_count, lemma_capped_add, lemma_capped_mul, letter_seqs,
    lookup_bound, product, sat_add, sat_mul, shape_seqs, total_elements,
};
use crate::tables::{dim_bindings, letters_of, DimMap, LetterSet};
use vstd::prelude::*;

verus! {

/// The cost of one contraction. Every number is capped at `u64::MAX`.
#[derive(Debug, Clone, Copy, PartialEq, Eq, Structural)]
pub struct ContractionCost {
    /// Floating-point operations.
    pub flops: u64,
    /// Memory traffic, in elements.
    pub memory: u64,
    /// `flops + alpha * memory`.
    pub total: u64,
}

impl ContractionCost {
    /// The cost with the given operations and memory traffic, weighed by `alpha`.
    pub fn new(flops: u64, memory: u64, alpha: u64) -> (r: Self)
        ensures
            r.flops == flops,
            r.memory == memory,
            r.total == capped(flops as nat + memory as nat * alpha as nat),
    {
        proof {
            lemma_capped_add(flops as nat, memory as nat * alpha as nat);
        }
        ContractionCost { flops, memory, total: sat_add(flops, sat_mul(memory, alpha)) }
    }

    /// No cost.
    pub fn zero() -> (r: Self)
        ensures
            r.flops == 0,
            r.memory == 0,
            r.total == 0,
    {
        ContractionCost { flops: 0, memory: 0, total: 0 }
    }

    /// The sum of two costs, part by part.
    pub fn plus(self, rhs: Self) -> (r: Self)
        ensures
            r == self.spec_plus(rhs),
    {
        ContractionCost {
            flops: sat_add(self.flops, rhs.flops),
            memory: sat_add(self.memory, rhs.memory),
            total: sat_add(self.total, rhs.total),
        }
    }

    /// The sum of two costs, part by part, each capped at `u64::MAX`.
    pub open spec fn spec_plus(self, rhs: Self) -> Self {
        ContractionCost {
            flops: capped(self.flops as nat + rhs.flops as nat),
            memory: capped(self.memory as nat + rhs.memory as nat),
            total: capped(self.total as nat + rhs.total as nat),
        }
    }
}

/// How memory traffic weighs against operations.
#[derive(Debug, Clone)]
pub struct CostModel {
    /// The weight of one element of memory traffic, in operations.
    pub alpha: u64,
}

impl Default for CostModel {
    fn default() -> (r: Self)
        ensures
            r.alpha == 64,
    {
        CostModel { alpha: 64 }
    }
}

/// The indices of the result of a contraction: the letters of the first operand
/// and then the new ones of the second, without the contracted ones.
pub open spec fn result_letters(a: Seq<char>, b: Seq<char>, contracted: Seq<char>) -> Seq<char> {
    distinct(keep_not_in(a + b, contracted.to_set()))
}

/// The sizes of the indices of two operands: the bindings of the first, then
/// those of the second.
pub open spec fn pair_bindings(shape_a: Seq<usize>, shape_b: Seq<usize>, a: Seq<char>, b: Seq<char>) -> Map<
    char,
    usize,
> {
    bind(bind(Map::empty(), a, shape_a), b, shape_b)
}

/// The number of elements of the result of a pairwise contraction: each of its
/// indices counts once.
pub open spec fn pair_output_size(
    shape_a: Seq<usize>,
    shape_b: Seq<usize>,
    a: Seq<char>,
    b: Seq<char>,
    contracted: Seq<char>,
) -> nat {
    product(bound_sizes(pair_bindings(shape_a, shape_b, a, b), result_letters(a, b, contracted)))
}

/// The operations of a pairwise contraction: two for each element of the result
/// and each combination of contracted indices.
pub open spec fn pair_flops(
    shape_a: Seq<usize>,
    shape_b: Seq<usize>,
    a: Seq<char>,
    b: Seq<char>,
    contracted: Seq<char>,
) -> nat {
    pair_output_size(shape_a, shape_b, a, b, contracted) * product(
        bound_sizes(pair_bindings(shape_a, shape_b, a, b), contracted),
    ) * 2
}

/// The memory traffic of a pairwise contraction: both operands are read and the
/// result is written.
pub open spec fn pair_memory(
    shape_a: Seq<usize>,
    shape_b: Seq<usize>,
    a: Seq<char>,
    b: Seq<char>,
    contracted: Seq<char>,
) -> nat {
    product(shape_a) + product(shape_b) + pair_output_size(shape_a, shape_b, a, b, contracted)
}

/// The cost of a pairwise contraction under the weight `alpha`.
pub open spec fn pair_cost(
    alpha: u64,
    shape_a: Seq<usize>,
    shape_b: Seq<usize>,
    a: Seq<char>,
    b: Seq<char>,
    contracted: Seq<char>,
) -> ContractionCost {
    let flops = pair_flops(shape_a, shape_b, a, b, contracted);
    let memory = pair_memory(shape_a, shape_b, a, b, contracted);
    ContractionCost {
        flops: capped(flops),
        memory: capped(memory),
        total: capped(capped(flops) as nat + capped(memory) as nat * alpha as nat),
    }
}

/// The letters of all index lists, one list after the other.
pub open spec fn all_letters(indices: Seq<Seq<char>>) -> Seq<char>
    decreases indices.len(),
{
    if indices.len() == 0 {
        Seq::empty()
    } else {
        all_letters(indices.drop_last()) + indices.last()
    }
}

/// The sizes of the indices of the first `n` operands: the bindings of each, one
/// after the other.
pub open spec fn bind_all(shapes: Seq<Seq<usize>>, indices: Seq<Seq<char>>, n: nat) -> Map<char, usize>
    decreases n,
{
    if n == 0 {
        Map::empty()
    } else {
        bind(bind_all(shapes, indices, (n - 1) as nat), indices[n - 1], shapes[n - 1])
    }
}

/// The smaller of two lengths.
pub open spec fn shorter(a: nat, b: nat) -> nat {
    if a <= b {
        a
    } else {
        b
    }
}

/// The cost of contracting several operands at once into a tensor with the
/// indices `output`.
pub open spec fn multi_cost(alpha: u64, shapes: Seq<Seq<usize>>, indices: Seq<Seq<char>>, output: Seq<char>) -> ContractionCost {
    let n = shorter(shapes.len(), indices.len());
    let m = bind_all(shapes, indices, n);
    let out = product(bound_sizes(m, output));
    let contracted = distinct(keep_not_in(all_letters(indices), output.to_set()));
    let flops = out * product(bound_sizes(m, contracted)) * 2;
    let memory = total_elements(shapes) + out;
    ContractionCost {
        flops: capped(flops),
        memory: capped(memory),
        total: capped(capped(flops) as nat + capped(memory) as nat * alpha as nat),
    }
}

/// The letters of `a` and then of `b` that the set `drop` does not hold, each
/// once.
pub(crate) fn merge_outside(a: &[char], b: &[char], drop: &LetterSet) -> (r: Vec<char>)
    ensures
        r@ == distinct(keep_not_in(a@ + b@, letters_of(*drop))),
{
    let mut out: Vec<char> = Vec::new();
    let mut i: usize = 0;
    assert((a@ + b@).take(0) =~= Seq::<char>::empty());
    while i < a.len()
        invariant
            i <= a.len(),
            out@ == distinct(keep_not_in((a@ + b@).take(i as int), letters_of(*drop))),
        decreases a.len() - i,
    {
        proof {
            lemma_take_step(a@ + b@, i as int);
            assert((a@ + b@)[i as int] == a@[i as int]);
            crate::chars::lemma_push_drop_last(
                keep_not_in((a@ + b@).take(i as int), letters_of(*drop)),
                a@[i as int],
            );
        }
        let c = a[i];
        if !drop.contains(c) && !crate::chars::contains_char(out.as_slice(), c) {
            out.push(c);
        }
        i += 1;
    }
    let mut k: usize = 0;
    while k < b.len()
        invariant
            k <= b.len(),
            out@ == distinct(keep_not_in((a@ + b@).take(a@.len() + k), letters_of(*drop))),
        decreases b.len() - k,
    {
        proof {
            lemma_take_step(a@ + b@, a@.len() + k);
            assert((a@ + b@)[a@.len() + k] == b@[k as int]);
            crate::chars::lemma_push_drop_last(
                keep_not_in((a@ + b@).take(a@.len() + k), letters_of(*drop)),
                b@[k as int],
            );
        }
        let c = b[k];
        if !drop.contains(c) && !crate::chars::contains_char(out.as_slice(), c) {
            out.push(c);
        }
        k += 1;
    }
    proof {
        lemma_take_all(a@ + b@);
    }
    out
}

/// The set of the letters of `v`.
pub(crate) fn letter_set(v: &[char]) -> (r: LetterSet)
    ensures
        letters_of(r) == v@.to_set(),
{
    let mut s = LetterSet::new();
    let mut i: usize = 0;
    assert(v@.take(0).to_set() =~= Set::<char>::empty());
    while i < v.len()
        invariant
            i <= v.len(),
            letters_of(s) == v@.take(i as int).to_set(),
        decreases v.len() - i,
    {
        proof {
            lemma_take_step(v@, i as int);
            v@.take(i as int).lemma_push_to_set_commute(v@[i as int]);
        }
        s.insert(v[i]);
        i += 1;
    }
    proof {
        lemma_take_all(v@);
    }
    s
}

impl CostModel {
    /// The model for accelerators, where memory traffic is dear.
    pub fn gpu() -> (r: Self)
        ensures
            r.alpha == 64,
    {
        CostModel { alpha: 64 }
    }

    /// The model for the host.
    pub fn cpu() -> (r: Self)
        ensures
            r.alpha == 8,
    {
        CostModel { alpha: 8 }
    }

    /// The cost of contracting two tensors over the indices `contracted`.
    pub fn compute_pairwise_cost(
        &self,
        shape_a: &[usize],
        shape_b: &[usize],
        indices_a: &[char],
        indices_b: &[char],
        contracted: &[char],
    ) -> (r: ContractionCost)
        ensures
            r == pair_cost(self.alpha, shape_a@, shape_b@, indices_a@, indices_b@, contracted@),
    {
        let mut dim_map = DimMap::new();
        bind_into(&mut dim_map, indices_a, shape_a);
        bind_into(&mut dim_map, indices_b, shape_b);
        let contracted_set = letter_set(contracted);
        let result = merge_outside(indices_a, indices_b, &contracted_set);
        let result_sizes = lookup_bound(&dim_map, result.as_slice());
        let output_size = element_count(result_sizes.as_slice());
        let contracted_sizes = lookup_bound(&dim_map, contracted);
        let contracted_size = element_count(contracted_sizes.as_slice());
        let flops = sat_mul(sat_mul(output_size, contracted_size), 2);
        let input_a_size = element_count(shape_a);
        let input_b_size = element_count(shape_b);
        let memory = sat_add(sat_add(input_a_size, input_b_size), output_size);
        proof {
            let out = product(result_sizes@);
            let k = product(contracted_sizes@);
            lemma_capped_mul(out, k);
            lemma_capped_mul(out * k, 2);
            lemma_capped_add(product(shape_a@), product(shape_b@));
            lemma_capped_add(product(shape_a@) + product(shape_b@), out);
        }
        ContractionCost::new(flops, memory, self.alpha)
    }

    /// The cost of contracting several tensors at once into a tensor with the
    /// indices `output_indices`.
    pub fn compute_multi_cost(&self, shapes: &[Vec<usize>], indices: &[Vec<char>], output_indices: &[char]) -> (r:
        ContractionCost)
        ensures
            r == multi_cost(self.alpha, shape_seqs(shapes@), letter_seqs(indices@), output_indices@),
    {
        let dim_map = bind_operands(shapes, indices);
        let flat = flatten(indices);
        let output_set = letter_set(output_indices);
        let none: Vec<char> = Vec::new();
        let contracted = merge_outside(flat.as_slice(), none.as_slice(), &output_set);
        proof {
            assert(flat@ + none@ =~= flat@);
        }
        let out_sizes = lookup_bound(&dim_map, output_indices);
        let output_size = element_count(out_sizes.as_slice());
        let contracted_sizes = lookup_bound(&dim_map, contracted.as_slice());
        let contracted_size = element_count(contracted_sizes.as_slice());
        let flops = sat_mul(sat_mul(output_size, contracted_size), 2);
        let input_size = total_size(shapes);
        let memory = sat_add(input_size, output_size);
        proof {
            let out = product(out_sizes@);
            let k = product(contracted_sizes@);
            lemma_capped_mul(out, k);
            lemma_capped_mul(out * k, 2);
            lemma_capped_add(total_elements(shape_seqs(shapes@)), out);
        }
        ContractionCost::new(flops, memory, self.alpha)
    }

    /// A bound from below on the cost of contracting the remaining tensors: every
    /// element of every tensor is touched once. Nothing remains to do with one
    /// tensor or none.
    pub fn optimistic_remaining_cost(&self, shapes: &[Vec<usize>], _indices: &[Vec<char>]) -> (r:
        ContractionCost)
        ensures
            r == remaining_bound(self.alpha, shape_seqs(shapes@)),
    {
        if shapes.len() <= 1 {
            return ContractionCost::zero();
        }
        let total = total_size(shapes);
        ContractionCost::new(total, total, self.alpha)
    }
}

/// The letters of all index lists, one list after the other.
pub fn flatten(indices: &[Vec<char>]) -> (r: Vec<char>)
    ensures
        r@ == all_letters(letter_seqs(indices@)),
{
    let ghost iv = letter_seqs(indices@);
    let mut flat: Vec<char> = Vec::new();
    let mut i: usize = 0;
    while i < indices.len()
        invariant
            i <= indices.len(),
            iv == letter_seqs(indices@),
            flat@ == all_letters(iv.take(i as int)),
        decreases indices.len() - i,
    {
        proof {
            lemma_take_step(iv, i as int);
            assert(iv[i as int] == indices@[i as int]@);
        }
        let ghost before = flat@;
        let letters = &indices[i];
        let mut k: usize = 0;
        assert(before + letters@.take(0) =~= before);
        while k < letters.len()
            invariant
                k <= letters.len(),
                flat@ == before + letters@.take(k as int),
            decreases letters.len() - k,
        {
            proof {
                lemma_take_step(letters@, k as int);
                assert((before + letters@.take(k as int)).push(letters@[k as int]) =~= before + letters@.take(
                    k + 1,
                ));
            }
            flat.push(letters[k]);
            k += 1;
        }
        proof {
            lemma_take_all(letters@);
        }
        i += 1;
    }
    proof {
        lemma_take_all(iv);
    }
    flat
}

/// The sizes of the indices of the operands, as far as shapes and index lists
/// pair up.
pub(crate) fn bind_operands(shapes: &[Vec<usize>], indices: &[Vec<char>]) -> (r: DimMap)
    ensures
        dim_bindings(r) == bind_all(
            shape_seqs(shapes@),
            letter_seqs(indices@),
            shorter(shape_seqs(shapes@).len(), letter_seqs(indices@).len()),
        ),
{
    let ghost sv = shape_seqs(shapes@);
    let ghost iv = letter_seqs(indices@);
    let mut dim_map = DimMap::new();
    let mut i: usize = 0;
    while i < indices.len() && i < shapes.len()
        invariant
            i <= indices.len(),
            i <= shapes.len(),
            sv == shape_seqs(shapes@),
            iv == letter_seqs(indices@),
            dim_bindings(dim_map) == bind_all(sv, iv, i as nat),
        decreases indices.len() - i,
    {
        proof {
            assert(iv[i as int] == indices@[i as int]@);
            assert(sv[i as int] == shapes@[i as int]@);
        }
        bind_into(&mut dim_map, indices[i].as_slice(), shapes[i].as_slice());
        i += 1;
    }
    dim_map
}

/// The optimistic cost of what remains to do with tensors of these shapes.
pub open spec fn remaining_bound(alpha: u64, shapes: Seq<Seq<usize>>) -> ContractionCost {
    if shapes.len() <= 1 {
        ContractionCost { flops: 0, memory: 0, total: 0 }
    } else {
        let t = capped(total_elements(shapes));
        ContractionCost { flops: t, memory: t, total: capped(t as nat + t as nat * alpha as nat) }
    }
}

/// The elements of all tensors together, capped at `u64::MAX`.
pub fn total_size(shapes: &[Vec<usize>]) -> (r: u64)
    ensures
        r == capped(total_elements(shape_seqs(shapes@))),
{
    let ghost sv = shape_seqs(shapes@);
    let mut total: u64 = 0;
    let mut i: usize = 0;
    while i < shapes.len()
        invariant
            i <= shapes.len(),
            sv == shape_seqs(shapes@),
            total == capped(total_elements(sv.take(i as int))),
        decreases shapes.len() - i,
    {
        proof {
            lemma_take_step(sv, i as int);
            lemma_capped_add(total_elements(sv.take(i as int)), product(sv[i as int]));
            assert(sv[i as int] == shapes@[i as int]@);
        }
        total = sat_add(total, element_count(shapes[i].as_slice()));
        i += 1;
    }
    proof {
        lemma_take_all(sv);
    }
    total
}

} // verus!
