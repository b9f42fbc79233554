//! The pattern of a notation: the first one that applies.

use crate::chars::{first_position, keep_not_in, positions_not_in, positions_within};
use crate::notation::notation::EinsumNotation;
use crate::notation::subscript::{named, Index};
use crate::pattern::binary::{
    dot_product_applies, hadamard_applies, is_dot_product, is_hadamard, is_outer_product, outer_product_applies,
};
use crate::pattern::fast_path::{FastPath, ReduceOp};
use crate::pattern::matmul::{
    batched_matmul_applies, free_letters, is_batched_matmul, is_matmul, k_letters, matmul_applies, present_positions,
    shared_letters,
};
use crate::pattern::unary::{
    diagonal_applies, is_diagonal_extract, is_reduction, is_trace, is_transpose, reduction_applies, trace_applies,
    transpose_applies,
};
use vstd::prelude::*;

verus! {

/// The kinds of fast path.
pub enum PatternKind {
    Transpose,
    Trace,
    DiagonalExtract,
    Reduce,
    BatchedMatmul,
    Matmul,
    Hadamard,
    OuterProduct,
    DotProduct,
}

/// The pattern of a notation. With one operand: transpose, then trace, then
/// diagonal, then reduction. With two operands: batched matrix multiplication,
/// then matrix multiplication, then element-wise product, then outer product,
/// then inner product. The first that applies wins; else there is none.
pub open spec fn pattern_of(ins: Seq<Seq<Index>>, out: Seq<Index>) -> Option<PatternKind> {
    if transpose_applies(ins, out) {
        Some(PatternKind::Transpose)
    } else if trace_applies(ins, out) {
        Some(PatternKind::Trace)
    } else if diagonal_applies(ins, out) {
        Some(PatternKind::DiagonalExtract)
    } else if reduction_applies(ins, out) {
        Some(PatternKind::Reduce)
    } else if batched_matmul_applies(ins, out) {
        Some(PatternKind::BatchedMatmul)
    } else if matmul_applies(ins, out) {
        Some(PatternKind::Matmul)
    } else if hadamard_applies(ins, out) {
        Some(PatternKind::Hadamard)
    } else if outer_product_applies(ins, out) {
        Some(PatternKind::OuterProduct)
    } else if dot_product_applies(ins, out) {
        Some(PatternKind::DotProduct)
    } else {
        None
    }
}

/// The kind of a fast path.
pub open spec fn kind_of(p: FastPath) -> PatternKind {
    match p {
        FastPath::Matmul { .. } => PatternKind::Matmul,
        FastPath::BatchedMatmul { .. } => PatternKind::BatchedMatmul,
        FastPath::Reduce { .. } => PatternKind::Reduce,
        FastPath::Transpose { .. } => PatternKind::Transpose,
        FastPath::Hadamard => PatternKind::Hadamard,
        FastPath::OuterProduct => PatternKind::OuterProduct,
        FastPath::DotProduct => PatternKind::DotProduct,
        FastPath::Trace => PatternKind::Trace,
        FastPath::DiagonalExtract => PatternKind::DiagonalExtract,
    }
}

/// The parameters of a recognised fast path.
pub open spec fn parameters_fit(p: FastPath, ins: Seq<Seq<Index>>, out: Seq<Index>) -> bool {
    match p {
        FastPath::Transpose { permutation } => permutation@ == positions_within(named(out), named(ins[0])),
        FastPath::Reduce { axes, op } => axes@ == positions_not_in(named(ins[0]), named(out).to_set()) && op
            is Sum,
        FastPath::Matmul { transpose_a, transpose_b } => {
            let a = named(ins[0]);
            let b = named(ins[1]);
            let o = named(out);
            let k = k_letters(a, b, o)[0];
            &&& transpose_a == (first_position(a, k) < first_position(a, free_letters(a, b, o)[0]))
            &&& transpose_b == (first_position(b, free_letters(b, a, o)[0]) < first_position(b, k))
        },
        FastPath::BatchedMatmul { batch_dims, transpose_a, transpose_b } => {
            let a = named(ins[0]);
            let b = named(ins[1]);
            let o = named(out);
            let k = k_letters(a, b, o)[0];
            let batch = shared_letters(a, b, o).to_set();
            let rest_a = keep_not_in(a, batch);
            let rest_b = keep_not_in(b, batch);
            &&& batch_dims@ == present_positions(shared_letters(a, b, o), o)
            &&& transpose_a == (first_position(rest_a, k) < first_position(rest_a, free_letters(a, b, o)[0]))
            &&& transpose_b == (first_position(rest_b, free_letters(b, a, o)[0]) < first_position(rest_b, k))
        },
        _ => true,
    }
}

/// The recogniser of fast paths.
pub struct PatternMatcher;

impl PatternMatcher {
    /// The fast path of the notation, if it has one.
    pub fn recognize(notation: &EinsumNotation) -> (r: Option<FastPath>)
        requires
            notation.wf(),
        ensures
            match r {
                Some(p) => pattern_of(notation.spec_inputs(), notation.spec_output()) == Some(kind_of(p))
                    && parameters_fit(p, notation.spec_inputs(), notation.spec_output()),
                None => pattern_of(notation.spec_inputs(), notation.spec_output()) is None,
            },
    {
        recognize_pattern(notation)
    }
}

/// The fast path of the notation, if it has one.
pub fn recognize_pattern(notation: &EinsumNotation) -> (r: Option<FastPath>)
    requires
        notation.wf(),
    ensures
        match r {
            Some(p) => pattern_of(notation.spec_inputs(), notation.spec_output()) == Some(kind_of(p))
                && parameters_fit(p, notation.spec_inputs(), notation.spec_output()),
            None => pattern_of(notation.spec_inputs(), notation.spec_output()) is None,
        },
{
    if notation.is_unary() {
        if let Some(permutation) = is_transpose(notation) {
            return Some(FastPath::Transpose { permutation });
        }
        if is_trace(notation) {
            return Some(FastPath::Trace);
        }
        if is_diagonal_extract(notation).is_some() {
            return Some(FastPath::DiagonalExtract);
        }
        if let Some((axes, _op)) = is_reduction(notation) {
            return Some(FastPath::Reduce { axes, op: ReduceOp::Sum });
        }
    }
    if notation.is_binary() {
        if let Some(config) = is_batched_matmul(notation) {
            return Some(
                FastPath::BatchedMatmul {
                    batch_dims: config.batch_dims,
                    transpose_a: config.transpose_a,
                    transpose_b: config.transpose_b,
                },
            );
        }
        if let Some(config) = is_matmul(notation) {
            return Some(FastPath::Matmul { transpose_a: config.transpose_a, transpose_b: config.transpose_b });
        }
        if is_hadamard(notation) {
            return Some(FastPath::Hadamard);
        }
        if is_outer_product(notation) {
            return Some(FastPath::OuterProduct);
        }
        if is_dot_product(notation) {
            return Some(FastPath::DotProduct);
        }
    }
    None
}

/// A notation whose only operand has the subscript of the output, without a
/// repeated index, has no fast path: the permutation is the identity. (The
/// subscript fits in memory: it has at most `usize::MAX` letters.)
pub proof fn identity_has_no_fast_path(ins: Seq<Seq<Index>>, out: Seq<Index>)
    requires
        ins.len() == 1,
        named(ins[0]) == named(out),
        named(out).no_duplicates(),
        named(out).len() <= usize::MAX,
    ensures
        pattern_of(ins, out) is None,
{
    let a = named(ins[0]);
    lemma_identity_positions(a, a.len() as int);
    assert(a.take(a.len() as int) =~= a);
    lemma_no_repeats(a);
    assert(crate::chars::subset_of(a, a)) by {
        assert forall|i: int| 0 <= i < a.len() implies a.contains(#[trigger] a[i]) by {}
    }
}

/// Without duplicates, the position of each of the first `n` letters within the
/// sequence is its own.
pub proof fn lemma_identity_positions(a: Seq<char>, n: int)
    requires
        a.no_duplicates(),
        0 <= n <= a.len() <= usize::MAX,
    ensures
        positions_within(a.take(n), a).len() == n,
        forall|i: int| 0 <= i < n ==> positions_within(a.take(n), a)[i] == i,
    decreases n,
{
    if n > 0 {
        lemma_identity_positions(a, n - 1);
        crate::chars::lemma_take_step(a, n - 1);
        crate::chars::lemma_first_position(a, a[n - 1]);
        let p = first_position(a, a[n - 1]);
        assert(a.contains(a[n - 1]));
        if p != n - 1 {
            assert(a[p] == a[n - 1]);
        }
        let prev = positions_within(a.take(n - 1), a);
        let cur = positions_within(a.take(n), a);
        assert(cur == prev.push(p as usize));
        assert forall|i: int| 0 <= i < n implies cur[i] == i by {
            if i < n - 1 {
                assert(cur[i] == prev[i]);
            }
        }
    }
}

/// A sequence without duplicates has no repeated letter.
pub proof fn lemma_no_repeats(a: Seq<char>)
    requires
        a.no_duplicates(),
    ensures
        crate::chars::repeats(a).len() == 0,
    decreases a.len(),
{
    if a.len() > 0 {
        let t = a.drop_last();
        assert(t.no_duplicates());
        lemma_no_repeats(t);
        if t.contains(a.last()) {
            let k = choose|k: int| 0 <= k < t.len() && t[k] == a.last();
            assert(a[k] == a[a.len() - 1]);
        }
    }
}

} // verus!
