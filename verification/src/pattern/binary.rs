//! Patterns with two operands and no matrix product: the element-wise product,
//! the outer product and the inner product.

use crate::chars::{disjoint_from, is_disjoint, is_subset, same_letters, subset_of};
use crate::notation::notation::EinsumNotation;
use crate::notation::subscript::{named, Index};
use crate::pattern::unary::scalar_output;
use vstd::prelude::*;

verus! {

/// The element-wise product: two operands and an output with the same letters.
pub open spec fn hadamard_applies(ins: Seq<Seq<Index>>, out: Seq<Index>) -> bool {
    &&& ins.len() == 2
    &&& same_letters(named(ins[0]), named(ins[1]))
    &&& same_letters(named(ins[0]), named(out))
}

/// The outer product: two operands without a common letter, and an output with
/// the letters of both.
pub open spec fn outer_product_applies(ins: Seq<Seq<Index>>, out: Seq<Index>) -> bool {
    &&& ins.len() == 2
    &&& disjoint_from(named(ins[0]), named(ins[1]))
    &&& same_letters(named(ins[0]) + named(ins[1]), named(out))
}

/// The inner product: two operands with the same letters, and a scalar output.
pub open spec fn dot_product_applies(ins: Seq<Seq<Index>>, out: Seq<Index>) -> bool {
    &&& ins.len() == 2
    &&& scalar_output(out)
    &&& same_letters(named(ins[0]), named(ins[1]))
}

/// Is the notation an element-wise product, such as `ij,ij->ij`?
pub fn is_hadamard(notation: &EinsumNotation) -> (r: bool)
    requires
        notation.wf(),
    ensures
        r == hadamard_applies(notation.spec_inputs(), notation.spec_output()),
{
    if !notation.is_binary() {
        return false;
    }
    let inputs = notation.inputs();
    assert(inputs@[0].wf() && inputs@[1].wf());
    assert(notation.spec_inputs()[0] == inputs@[0]@);
    assert(notation.spec_inputs()[1] == inputs@[1]@);
    let a = inputs[0].named_indices();
    let b = inputs[1].named_indices();
    let o = notation.output().named_indices();
    is_subset(a.as_slice(), b.as_slice()) && is_subset(b.as_slice(), a.as_slice()) && is_subset(
        a.as_slice(),
        o.as_slice(),
    ) && is_subset(o.as_slice(), a.as_slice())
}

/// Is the notation an outer product, such as `i,j->ij`?
#[verifier::loop_isolation(false)]
pub fn is_outer_product(notation: &EinsumNotation) -> (r: bool)
    requires
        notation.wf(),
    ensures
        r == outer_product_applies(notation.spec_inputs(), notation.spec_output()),
{
    if !notation.is_binary() {
        return false;
    }
    let inputs = notation.inputs();
    assert(inputs@[0].wf() && inputs@[1].wf());
    assert(notation.spec_inputs()[0] == inputs@[0]@);
    assert(notation.spec_inputs()[1] == inputs@[1]@);
    let a = inputs[0].named_indices();
    let b = inputs[1].named_indices();
    let o = notation.output().named_indices();
    if !is_disjoint(a.as_slice(), b.as_slice()) {
        return false;
    }
    proof {
        let ab = a@ + b@;
        assert(subset_of(ab, o@) <==> (subset_of(a@, o@) && subset_of(b@, o@))) by {
            if subset_of(ab, o@) {
                assert forall|i: int| 0 <= i < a@.len() implies o@.contains(#[trigger] a@[i]) by {
                    assert(ab[i] == a@[i]);
                }
                assert forall|i: int| 0 <= i < b@.len() implies o@.contains(#[trigger] b@[i]) by {
                    assert(ab[a@.len() + i] == b@[i]);
                }
            }
            if subset_of(a@, o@) && subset_of(b@, o@) {
                assert forall|i: int| 0 <= i < ab.len() implies o@.contains(#[trigger] ab[i]) by {
                    if i < a@.len() {
                        assert(ab[i] == a@[i]);
                    } else {
                        assert(ab[i] == b@[i - a@.len()]);
                    }
                }
            }
        }
    }
    if !(is_subset(a.as_slice(), o.as_slice()) && is_subset(b.as_slice(), o.as_slice())) {
        return false;
    }
    let mut i: usize = 0;
    while i < o.len()
        invariant
            i <= o.len(),
            forall|j: int| 0 <= j < i ==> (a@ + b@).contains(#[trigger] o@[j]),
        decreases o.len() - i,
    {
        let c = o[i];
        let in_a = crate::chars::contains_char(a.as_slice(), c);
        let in_b = crate::chars::contains_char(b.as_slice(), c);
        proof {
            let ab = a@ + b@;
            if in_a {
                let k = choose|k: int| 0 <= k < a@.len() && a@[k] == c;
                assert(ab[k] == c);
            }
            if in_b {
                let k = choose|k: int| 0 <= k < b@.len() && b@[k] == c;
                assert(ab[a@.len() + k] == c);
            }
            if ab.contains(c) {
                let k = choose|k: int| 0 <= k < ab.len() && ab[k] == c;
                if k < a@.len() {
                    assert(a@[k] == c);
                } else {
                    assert(b@[k - a@.len()] == c);
                }
            }
        }
        if !in_a && !in_b {
            return false;
        }
        i += 1;
    }
    true
}

/// Is the notation an inner product, such as `i,i->`?
pub fn is_dot_product(notation: &EinsumNotation) -> (r: bool)
    requires
        notation.wf(),
    ensures
        r == dot_product_applies(notation.spec_inputs(), notation.spec_output()),
{
    if !notation.is_binary() {
        return false;
    }
    if !notation.is_scalar_output() {
        return false;
    }
    let inputs = notation.inputs();
    assert(inputs@[0].wf() && inputs@[1].wf());
    assert(notation.spec_inputs()[0] == inputs@[0]@);
    assert(notation.spec_inputs()[1] == inputs@[1]@);
    let a = inputs[0].named_indices();
    let b = inputs[1].named_indices();
    is_subset(a.as_slice(), b.as_slice()) && is_subset(b.as_slice(), a.as_slice())
}

/// A bilinear form such as `i,ij,j->` has no fast path: the answer is always
/// no.
pub fn is_bilinear_form(notation: &EinsumNotation) -> (r: bool)
    ensures
        !r,
{
    if notation.num_inputs() != 3 {
        return false;
    }
    false
}

} // verus!
