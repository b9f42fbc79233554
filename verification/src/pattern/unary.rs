//! Patterns with one operand: transpose, reduction, trace, diagonal.

use crate::chars::{
    find_member, first_member, is_subset, letter_positions_not_in, letter_positions_within, positions_not_in,
    positions_within, repeated_letters, repeats, subset_of,
};
use crate::notation::notation::EinsumNotation;
use crate::notation::subscript::{has_dots, named, Index};
use vstd::prelude::*;

verus! {

/// Every entry is its own position.
pub open spec fn is_identity(p: Seq<usize>) -> bool {
    forall|i: int| 0 <= i < p.len() ==> p[i] == i
}

/// The output is a scalar: an empty subscript, or an ellipsis alone.
pub open spec fn scalar_output(out: Seq<Index>) -> bool {
    out.len() == 0 || (out.len() == 1 && has_dots(out))
}

/// A transpose: one operand, whose letters and the output's are the same, as
/// many, and in another order.
pub open spec fn transpose_applies(ins: Seq<Seq<Index>>, out: Seq<Index>) -> bool {
    &&& ins.len() == 1
    &&& subset_of(named(ins[0]), named(out))
    &&& named(ins[0]).len() == named(out).len()
    &&& subset_of(named(out), named(ins[0]))
    &&& !is_identity(positions_within(named(out), named(ins[0])))
}

/// A reduction: one operand with a letter that the output lacks.
pub open spec fn reduction_applies(ins: Seq<Seq<Index>>, out: Seq<Index>) -> bool {
    ins.len() == 1 && !subset_of(named(ins[0]), named(out))
}

/// A trace: one operand with a repeated letter, and a scalar output.
pub open spec fn trace_applies(ins: Seq<Seq<Index>>, out: Seq<Index>) -> bool {
    ins.len() == 1 && scalar_output(out) && repeats(named(ins[0])).len() > 0
}

/// A diagonal: one operand with a repeated letter, all of whose letters the
/// output has.
pub open spec fn diagonal_applies(ins: Seq<Seq<Index>>, out: Seq<Index>) -> bool {
    ins.len() == 1 && repeats(named(ins[0])).len() > 0 && subset_of(named(ins[0]), named(out))
}

/// Is every entry of `p` its own position?
pub fn identity_permutation(p: &[usize]) -> (r: bool)
    ensures
        r == is_identity(p@),
{
    let mut i: usize = 0;
    while i < p.len()
        invariant
            i <= p.len(),
            forall|j: int| 0 <= j < i ==> p@[j] == j,
        decreases p.len() - i,
    {
        if p[i] != i {
            return false;
        }
        i += 1;
    }
    true
}

/// The permutation of a transpose: entry `k` is the position, within the input,
/// of the `k`-th letter of the output.
pub fn is_transpose(notation: &EinsumNotation) -> (r: Option<Vec<usize>>)
    requires
        notation.wf(),
    ensures
        r is Some <==> transpose_applies(notation.spec_inputs(), notation.spec_output()),
        r matches Some(p) ==> p@ == positions_within(
            named(notation.spec_output()),
            named(notation.spec_inputs()[0]),
        ),
{
    if !notation.is_unary() {
        return None;
    }
    let inputs = notation.inputs();
    assert(inputs@[0].wf());
    assert(notation.spec_inputs()[0] == inputs@[0]@);
    let a = inputs[0].named_indices();
    let o = notation.output().named_indices();
    if !is_subset(a.as_slice(), o.as_slice()) {
        return None;
    }
    if a.len() != o.len() {
        return None;
    }
    if !is_subset(o.as_slice(), a.as_slice()) {
        return None;
    }
    let permutation = letter_positions_within(o.as_slice(), a.as_slice());
    if identity_permutation(permutation.as_slice()) {
        return None;
    }
    Some(permutation)
}

/// How a reduction combines the elements.
#[derive(Debug, Clone, Copy, PartialEq, Eq)]
pub enum ReductionType {
    Sum,
    Prod,
    Max,
    Min,
}

/// The axes of a reduction: the positions of the input letters that the output
/// lacks. Einsum sums over them.
pub fn is_reduction(notation: &EinsumNotation) -> (r: Option<(Vec<usize>, ReductionType)>)
    requires
        notation.wf(),
    ensures
        r is Some <==> reduction_applies(notation.spec_inputs(), notation.spec_output()),
        r matches Some(p) ==> p.0@ == positions_not_in(
            named(notation.spec_inputs()[0]),
            named(notation.spec_output()).to_set(),
        ) && p.0@.len() > 0 && p.1 is Sum,
{
    if !notation.is_unary() {
        return None;
    }
    let inputs = notation.inputs();
    assert(inputs@[0].wf());
    assert(notation.spec_inputs()[0] == inputs@[0]@);
    let a = inputs[0].named_indices();
    let o = notation.output().named_indices();
    if is_subset(a.as_slice(), o.as_slice()) {
        return None;
    }
    let axes = letter_positions_not_in(a.as_slice(), o.as_slice());
    proof {
        lemma_some_position_not_in(a@, o@);
    }
    Some((axes, ReductionType::Sum))
}

/// Where some letter of `s` is outside `t`, some position of `s` is.
pub proof fn lemma_some_position_not_in(s: Seq<char>, t: Seq<char>)
    requires
        !subset_of(s, t),
    ensures
        positions_not_in(s, t.to_set()).len() > 0,
    decreases s.len(),
{
    let i = choose|i: int| 0 <= i < s.len() && !t.contains(#[trigger] s[i]);
    if i == s.len() - 1 {
    } else {
        let u = s.drop_last();
        assert(u[i] == s[i]);
        assert(!subset_of(u, t));
        lemma_some_position_not_in(u, t);
    }
}

/// Is the notation a trace: one operand with a repeated index and a scalar
/// output?
pub fn is_trace(notation: &EinsumNotation) -> (r: bool)
    requires
        notation.wf(),
    ensures
        r == trace_applies(notation.spec_inputs(), notation.spec_output()),
{
    if !notation.is_unary() {
        return false;
    }
    if !notation.is_scalar_output() {
        return false;
    }
    let inputs = notation.inputs();
    assert(inputs@[0].wf());
    assert(notation.spec_inputs()[0] == inputs@[0]@);
    let a = inputs[0].named_indices();
    let repeated = repeated_letters(a.as_slice());
    repeated.len() > 0
}

/// The diagonal of a diagonal extraction.
#[derive(Debug, Clone, PartialEq, Eq)]
pub struct DiagonalConfig {
    /// The repeated index.
    pub diagonal_index: char,
    /// The first axis that a repeated index names.
    pub diagonal_dim: usize,
}

/// The diagonal that the notation extracts: the index that is the first to occur
/// a second time, and the first axis that a repeated index names.
pub fn is_diagonal_extract(notation: &EinsumNotation) -> (r: Option<DiagonalConfig>)
    requires
        notation.wf(),
    ensures
        r is Some <==> diagonal_applies(notation.spec_inputs(), notation.spec_output()),
        r matches Some(cfg) ==> cfg.diagonal_index == repeats(named(notation.spec_inputs()[0]))[0]
            && cfg.diagonal_dim == first_member(
            named(notation.spec_inputs()[0]),
            repeats(named(notation.spec_inputs()[0])),
        ),
{
    if !notation.is_unary() {
        return None;
    }
    let inputs = notation.inputs();
    assert(inputs@[0].wf());
    assert(notation.spec_inputs()[0] == inputs@[0]@);
    let a = inputs[0].named_indices();
    let o = notation.output().named_indices();
    let repeated = repeated_letters(a.as_slice());
    if repeated.len() == 0 {
        return None;
    }
    if !is_subset(a.as_slice(), o.as_slice()) {
        return None;
    }
    let diagonal_dim = find_member(a.as_slice(), repeated.as_slice());
    Some(DiagonalConfig { diagonal_index: repeated[0], diagonal_dim })
}

} // verus!
