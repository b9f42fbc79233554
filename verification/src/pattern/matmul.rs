//! Patterns of matrix multiplication, plain and batched.

use crate::chars::{
    distinct, distinct_letters, first_position, keep_in, keep_letters_in, keep_letters_not_in, keep_not_in,
    position_or_len,
};
use crate::index_set::{ordered, IndexSet};
use crate::notation::notation::EinsumNotation;
use crate::notation::parser::count_cap;
use crate::notation::subscript::{named, Index};
use vstd::prelude::*;

verus! {

/// What a matrix multiplication needs to know of its operands.
#[derive(Debug, Clone, PartialEq, Eq)]
pub struct MatmulConfig {
    /// The first operand holds the contracted index before its row index.
    pub transpose_a: bool,
    /// The second operand holds its column index before the contracted index.
    pub transpose_b: bool,
    /// The positions of the batch indices in the output.
    pub batch_dims: Vec<usize>,
    /// The position of the row index in the output.
    pub m_dim: usize,
    /// The position of the column index in the output.
    pub n_dim: usize,
    /// The contracted index.
    pub k_index: char,
}

/// The letters of both operands that the output lacks, each once.
pub open spec fn k_letters(a: Seq<char>, b: Seq<char>, o: Seq<char>) -> Seq<char> {
    distinct(keep_not_in(keep_in(a, b.to_set()), o.to_set()))
}

/// The letters of `a` alone that the output has, each once.
pub open spec fn free_letters(a: Seq<char>, b: Seq<char>, o: Seq<char>) -> Seq<char> {
    distinct(keep_in(keep_not_in(a, b.to_set()), o.to_set()))
}

/// The letters that both operands and the output have, in increasing order.
pub open spec fn shared_letters(a: Seq<char>, b: Seq<char>, o: Seq<char>) -> Seq<char> {
    ordered(keep_in(keep_in(a, b.to_set()), o.to_set()))
}

/// A matrix multiplication: two operands and an output of two indices each; one
/// index that both operands have and the output lacks, one that the first
/// operand and the output have, and one that the second operand and the output
/// have.
pub open spec fn matmul_applies(ins: Seq<Seq<Index>>, out: Seq<Index>) -> bool {
    &&& ins.len() == 2
    &&& named(ins[0]).len() == 2
    &&& named(ins[1]).len() == 2
    &&& named(out).len() == 2
    &&& k_letters(named(ins[0]), named(ins[1]), named(out)).len() == 1
    &&& free_letters(named(ins[0]), named(ins[1]), named(out)).len() == 1
    &&& free_letters(named(ins[1]), named(ins[0]), named(out)).len() == 1
}

/// A batched matrix multiplication: two operands of three indices or more; at
/// least one index that both operands and the output have; beside those, a
/// matrix multiplication.
pub open spec fn batched_matmul_applies(ins: Seq<Seq<Index>>, out: Seq<Index>) -> bool {
    let a = named(ins[0]);
    let b = named(ins[1]);
    let o = named(out);
    let batch = shared_letters(a, b, o).to_set();
    &&& ins.len() == 2
    &&& a.len() >= 3
    &&& b.len() >= 3
    &&& shared_letters(a, b, o).len() > 0
    &&& k_letters(a, b, o).len() == 1
    &&& free_letters(a, b, o).len() == 1
    &&& free_letters(b, a, o).len() == 1
    &&& keep_not_in(a, batch).len() == 2
    &&& keep_not_in(b, batch).len() == 2
    &&& keep_not_in(o, batch).len() == 2
}

/// What `is_matmul` returns where the pattern applies.
pub open spec fn matmul_config(cfg: MatmulConfig, a: Seq<char>, b: Seq<char>, o: Seq<char>) -> bool {
    let k = k_letters(a, b, o)[0];
    let m = free_letters(a, b, o)[0];
    let n = free_letters(b, a, o)[0];
    &&& cfg.k_index == k
    &&& cfg.transpose_a == (first_position(a, k) < first_position(a, m))
    &&& cfg.transpose_b == (first_position(b, n) < first_position(b, k))
    &&& cfg.batch_dims@.len() == 0
    &&& cfg.m_dim == first_position(o, m)
    &&& cfg.n_dim == first_position(o, n)
}

/// The first position within `t` of each letter of `s`, leaving out the letters
/// that `t` lacks.
pub open spec fn present_positions(s: Seq<char>, t: Seq<char>) -> Seq<usize>
    decreases s.len(),
{
    if s.len() == 0 {
        Seq::empty()
    } else if t.contains(s.last()) {
        present_positions(s.drop_last(), t).push(first_position(t, s.last()) as usize)
    } else {
        present_positions(s.drop_last(), t)
    }
}

/// What `is_batched_matmul` returns where the pattern applies: the positions,
/// in the output, of the batch indices in increasing order of their letters; and
/// the places of the three other indices among the indices that are no batch
/// indices.
pub open spec fn batched_matmul_config(cfg: MatmulConfig, a: Seq<char>, b: Seq<char>, o: Seq<char>) -> bool {
    let k = k_letters(a, b, o)[0];
    let m = free_letters(a, b, o)[0];
    let n = free_letters(b, a, o)[0];
    let shared = shared_letters(a, b, o);
    let batch = shared.to_set();
    let rest_a = keep_not_in(a, batch);
    let rest_b = keep_not_in(b, batch);
    let rest_o = keep_not_in(o, batch);
    &&& cfg.k_index == k
    &&& cfg.transpose_a == (first_position(rest_a, k) < first_position(rest_a, m))
    &&& cfg.transpose_b == (first_position(rest_b, n) < first_position(rest_b, k))
    &&& cfg.batch_dims@ == present_positions(shared, o)
    &&& cfg.m_dim == count_cap((cfg.batch_dims@.len() + first_position(rest_o, m)) as nat)
    &&& cfg.n_dim == count_cap((cfg.batch_dims@.len() + first_position(rest_o, n)) as nat)
}

/// The contracted index, the row index and the column index, where there is
/// exactly one of each.
fn matmul_letters(a: &[char], b: &[char], o: &[char]) -> (r: Option<(char, char, char)>)
    ensures
        r is Some <==> (k_letters(a@, b@, o@).len() == 1 && free_letters(a@, b@, o@).len() == 1
            && free_letters(b@, a@, o@).len() == 1),
        r matches Some(t) ==> t.0 == k_letters(a@, b@, o@)[0] && t.1 == free_letters(a@, b@, o@)[0] && t.2
            == free_letters(b@, a@, o@)[0],
{
    let common = keep_letters_in(a, b);
    let inner = keep_letters_not_in(common.as_slice(), o);
    let ks = distinct_letters(inner.as_slice());
    if ks.len() != 1 {
        return None;
    }
    let only_a = keep_letters_not_in(a, b);
    let kept_a = keep_letters_in(only_a.as_slice(), o);
    let ms = distinct_letters(kept_a.as_slice());
    if ms.len() != 1 {
        return None;
    }
    let only_b = keep_letters_not_in(b, a);
    let kept_b = keep_letters_in(only_b.as_slice(), o);
    let ns = distinct_letters(kept_b.as_slice());
    if ns.len() != 1 {
        return None;
    }
    Some((ks[0], ms[0], ns[0]))
}

/// The matrix multiplication that the notation is, if it is one.
pub fn is_matmul(notation: &EinsumNotation) -> (r: Option<MatmulConfig>)
    requires
        notation.wf(),
    ensures
        r is Some <==> matmul_applies(notation.spec_inputs(), notation.spec_output()),
        r matches Some(cfg) ==> matmul_config(
            cfg,
            named(notation.spec_inputs()[0]),
            named(notation.spec_inputs()[1]),
            named(notation.spec_output()),
        ),
{
    if !notation.is_binary() {
        return None;
    }
    let inputs = notation.inputs();
    assert(inputs@[0].wf() && inputs@[1].wf());
    assert(notation.spec_inputs()[0] == inputs@[0]@);
    assert(notation.spec_inputs()[1] == inputs@[1]@);
    let a = inputs[0].named_indices();
    let b = inputs[1].named_indices();
    let o = notation.output().named_indices();
    if a.len() != 2 || b.len() != 2 {
        return None;
    }
    if o.len() != 2 {
        return None;
    }
    let (k, m, n) = match matmul_letters(a.as_slice(), b.as_slice(), o.as_slice()) {
        Some(t) => t,
        None => {
            return None;
        },
    };
    let m_pos_a = position_or_len(a.as_slice(), m);
    let k_pos_a = position_or_len(a.as_slice(), k);
    let k_pos_b = position_or_len(b.as_slice(), k);
    let n_pos_b = position_or_len(b.as_slice(), n);
    let m_dim = position_or_len(o.as_slice(), m);
    let n_dim = position_or_len(o.as_slice(), n);
    Some(
        MatmulConfig {
            transpose_a: k_pos_a < m_pos_a,
            transpose_b: n_pos_b < k_pos_b,
            batch_dims: Vec::new(),
            m_dim,
            n_dim,
            k_index: k,
        },
    )
}

/// The first position within `t` of each letter of `s` that `t` has.
pub fn positions_of_present(s: &[char], t: &[char]) -> (r: Vec<usize>)
    ensures
        r@ == present_positions(s@, t@),
{
    let mut out: Vec<usize> = Vec::new();
    let mut i: usize = 0;
    while i < s.len()
        invariant
            i <= s.len(),
            out@ == present_positions(s@.take(i as int), t@),
        decreases s.len() - i,
    {
        proof {
            crate::chars::lemma_take_step(s@, i as int);
        }
        match crate::chars::position_char(t, s[i]) {
            Some(p) => {
                out.push(p);
            },
            None => {},
        }
        i += 1;
    }
    proof {
        crate::chars::lemma_take_all(s@);
    }
    out
}

/// The batched matrix multiplication that the notation is, if it is one.
pub fn is_batched_matmul(notation: &EinsumNotation) -> (r: Option<MatmulConfig>)
    requires
        notation.wf(),
    ensures
        r is Some <==> batched_matmul_applies(notation.spec_inputs(), notation.spec_output()),
        r matches Some(cfg) ==> batched_matmul_config(
            cfg,
            named(notation.spec_inputs()[0]),
            named(notation.spec_inputs()[1]),
            named(notation.spec_output()),
        ),
{
    if !notation.is_binary() {
        return None;
    }
    let inputs = notation.inputs();
    assert(inputs@[0].wf() && inputs@[1].wf());
    assert(notation.spec_inputs()[0] == inputs@[0]@);
    assert(notation.spec_inputs()[1] == inputs@[1]@);
    let a = inputs[0].named_indices();
    let b = inputs[1].named_indices();
    let o = notation.output().named_indices();
    if a.len() < 3 || b.len() < 3 {
        return None;
    }
    // Batch indices: in both operands and in the output, walked in increasing
    // order.
    let common = keep_letters_in(a.as_slice(), b.as_slice());
    let common_out = keep_letters_in(common.as_slice(), o.as_slice());
    let batch = IndexSet::from_chars(common_out.as_slice()).to_vec();
    if batch.len() == 0 {
        return None;
    }
    let (k, m, n) = match matmul_letters(a.as_slice(), b.as_slice(), o.as_slice()) {
        Some(t) => t,
        None => {
            return None;
        },
    };
    let batch_dims = positions_of_present(batch.as_slice(), o.as_slice());
    let rest_a = keep_letters_not_in(a.as_slice(), batch.as_slice());
    let rest_b = keep_letters_not_in(b.as_slice(), batch.as_slice());
    if rest_a.len() != 2 || rest_b.len() != 2 {
        return None;
    }
    let m_pos_a = position_or_len(rest_a.as_slice(), m);
    let k_pos_a = position_or_len(rest_a.as_slice(), k);
    let k_pos_b = position_or_len(rest_b.as_slice(), k);
    let n_pos_b = position_or_len(rest_b.as_slice(), n);
    let rest_o = keep_letters_not_in(o.as_slice(), batch.as_slice());
    if rest_o.len() != 2 {
        return None;
    }
    let m_off = position_or_len(rest_o.as_slice(), m);
    let n_off = position_or_len(rest_o.as_slice(), n);
    let m_dim = match batch_dims.len().checked_add(m_off) {
        Some(v) => v,
        None => usize::MAX,
    };
    let n_dim = match batch_dims.len().checked_add(n_off) {
        Some(v) => v,
        None => usize::MAX,
    };
    Some(
        MatmulConfig {
            transpose_a: k_pos_a < m_pos_a,
            transpose_b: n_pos_b < k_pos_b,
            batch_dims,
            m_dim,
            n_dim,
            k_index: k,
        },
    )
}

/// The matrix multiplication that the notation is, batched or plain.
pub fn extract_matmul_config(notation: &EinsumNotation) -> (r: Option<MatmulConfig>)
    requires
        notation.wf(),
    ensures
        r is Some <==> (batched_matmul_applies(notation.spec_inputs(), notation.spec_output())
            || matmul_applies(notation.spec_inputs(), notation.spec_output())),
        r matches Some(cfg) ==> (if batched_matmul_applies(notation.spec_inputs(), notation.spec_output()) {
            batched_matmul_config(
                cfg,
                named(notation.spec_inputs()[0]),
                named(notation.spec_inputs()[1]),
                named(notation.spec_output()),
            )
        } else {
            matmul_config(
                cfg,
                named(notation.spec_inputs()[0]),
                named(notation.spec_inputs()[1]),
                named(notation.spec_output()),
            )
        }),
{
    match is_batched_matmul(notation) {
        Some(cfg) => Some(cfg),
        None => is_matmul(notation),
    }
}

} // verus!
