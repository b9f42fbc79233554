//! The optimal strategy: dynamic programming over the subsets of the operands.
//!
//! The cheapest way to contract a subset is the cheapest way to split it in two,
//! contract each part, and contract the two results. The order that the table
//! gives for all operands is turned into a path of the same form as the greedy
//! path, step by step, and the greedy path is returned where it is cheaper.

use crate::chars::{keep_letters_in, keep_letters_not_in, lemma_push_drop_last};
use crate::dims::{bind_into, letter_seqs, lookup_or_one, shape_seqs};
use crate::index_set::IndexSet;
use crate::notation::notation::EinsumNotation;
use crate::notation::subscript::named;
use crate::notation::validation::shape_views;
use crate::optimization::branch_bound::lemma_greedy_same;
use crate::optimization::cost::{
    letter_set, merge_outside, pair_bindings, pair_cost, result_letters, ContractionCost, CostModel,
};
use crate::optimization::greedy::{
    greedy_from, greedy_path_of, initial_state, lemma_greedy_valid, starting_state,
};
use crate::optimization::path::{contracted_state, ContractionPath, StateView, StepView, TensorState};
use crate::optimization::search::{
    complete_path, evaluate_pair, lemma_cost_step, lemma_prefix, lemma_state_len, path_cost, state_after, step_at,
    valid_steps, whole_cost,
};
use crate::tables::{subset_slots, DimMap, SubsetIndex};
use vstd::prelude::*;

verus! {

/// The largest number of operands for which the table is built.
pub const MAX_DP_TENSORS: usize = 12;

/// What the table holds for a subset of the operands.
pub struct SubsetPlan {
    /// The cost of contracting the subset.
    pub cost: ContractionCost,
    /// The contractions in order, each as the least operands of its two parts.
    pub pairs: Vec<(usize, usize)>,
    /// The shape of the result.
    pub shape: Vec<usize>,
    /// The indices of the result.
    pub indices: Vec<char>,
}

/// What the table holds for a subset, as plain values.
pub struct PlanView {
    /// The cost of contracting the subset.
    pub cost: ContractionCost,
    /// The contractions in order, each as the least operands of its two parts.
    pub pairs: Seq<(usize, usize)>,
    /// The shape of the result.
    pub shape: Seq<usize>,
    /// The indices of the result.
    pub indices: Seq<char>,
}

impl View for SubsetPlan {
    type V = PlanView;

    open spec fn view(&self) -> PlanView {
        PlanView { cost: self.cost, pairs: self.pairs@, shape: self.shape@, indices: self.indices@ }
    }
}

/// Every bit of `mask` is a bit of `set`.
pub open spec fn within(mask: u32, set: u32) -> bool {
    mask & set == mask
}

/// The subset `mask` holds the operand `i`.
pub open spec fn holds(mask: u32, i: nat) -> bool {
    mask & (1u32 << (i as u32)) != 0
}

/// The number of the operands from `lo` up to `hi` that the subset holds.
pub open spec fn members_between(mask: u32, lo: nat, hi: nat) -> nat
    decreases hi - lo,
{
    if lo >= hi {
        0
    } else {
        (if holds(mask, lo) {
            1nat
        } else {
            0nat
        }) + members_between(mask, (lo + 1) as nat, hi)
    }
}

/// `mask` is a subset of `{0, .., n - 1}` that holds below `start` the
/// operands of `current` and from `start` on `size` operands.
pub open spec fn extends(mask: u32, n: nat, size: nat, start: nat, current: u32) -> bool {
    &&& mask < (1u32 << (n as u32))
    &&& mask & (((1u32 << (start as u32)) - 1) as u32) == current
    &&& members_between(mask, start, n) == size
}

/// A subset holds at most as many operands of a range as the range has.
pub proof fn lemma_members_bound(mask: u32, lo: nat, hi: nat)
    ensures
        members_between(mask, lo, hi) <= (if hi >= lo {
            hi - lo
        } else {
            0
        }),
    decreases hi - lo,
{
    if lo < hi {
        lemma_members_bound(mask, lo + 1, hi);
    }
}

/// A subset that holds no operand of a range holds none of its operands.
pub proof fn lemma_no_members(mask: u32, lo: nat, hi: nat)
    requires
        members_between(mask, lo, hi) == 0,
    ensures
        forall|i: nat| lo <= i < hi ==> !holds(mask, i),
    decreases hi - lo,
{
    if lo < hi {
        lemma_no_members(mask, lo + 1, hi);
    }
}

/// A subset of `{0, .., hi - 1}` that holds no operand from `lo` on is a subset
/// of `{0, .., lo - 1}`.
pub proof fn lemma_below(mask: u32, lo: nat, hi: nat)
    requires
        lo <= hi <= 31,
        mask < (1u32 << (hi as u32)),
        forall|i: nat| lo <= i < hi ==> !holds(mask, i),
    ensures
        mask < (1u32 << (lo as u32)),
    decreases hi - lo,
{
    if lo < hi {
        let h = (hi - 1) as u32;
        assert(!holds(mask, (hi - 1) as nat));
        assert(mask < (1u32 << h)) by (bit_vector)
            requires
                h < 31,
                mask < (1u32 << ((h + 1) as u32)),
                mask & (1u32 << h) == 0,
        ;
        lemma_below(mask, lo, (hi - 1) as nat);
    }
}

/// A subset of `{0, .., lo - 1}` holds no operand from `lo` on.
pub proof fn lemma_above(mask: u32, lo: nat, hi: nat)
    requires
        lo <= hi <= 31,
        mask < (1u32 << (lo as u32)),
    ensures
        members_between(mask, lo, hi) == 0,
    decreases hi - lo,
{
    if lo < hi {
        let l = lo as u32;
        assert(mask & (1u32 << l) == 0 && mask < (1u32 << ((l + 1) as u32))) by (bit_vector)
            requires
                l < 31,
                mask < (1u32 << l),
        ;
        lemma_above(mask, lo + 1, hi);
    }
}

/// The subsets of `{0, .., n - 1}` with `size` elements, as bit masks, each
/// once.
pub fn subsets_of_size(n: usize, size: usize) -> (r: Vec<u32>)
    requires
        n <= 31,
    ensures
        forall|k: int|
            0 <= k < r@.len() ==> (#[trigger] r@[k]) < (1u32 << (n as u32)) && members_between(r@[k], 0, n as nat)
                == size,
        forall|a: int, b: int| 0 <= a < b < r@.len() ==> r@[a] != r@[b],
        forall|m: u32| m < (1u32 << (n as u32)) && members_between(m, 0, n as nat) == size ==> r@.contains(m),
{
    let mut result: Vec<u32> = Vec::new();
    assert(0u32 < (1u32 << 0u32)) by (bit_vector);
    generate_subsets(n, size, 0, 0, &mut result);
    proof {
        assert forall|m: u32|
            m < (1u32 << (n as u32)) && members_between(m, 0, n as nat) == size implies result@.contains(m) by {
            assert(m & (((1u32 << 0u32) - 1) as u32) == 0) by (bit_vector);
            assert(extends(m, n as nat, size as nat, 0, 0));
            let k = choose|k: int| 0 <= k < result@.len() && result@[k] == m;
            assert(result@[k] == m);
        }
    }
    result
}

/// Appends to `result` the masks that hold the bits of `current` and `size` of
/// the bits from `start` up to `n`, each once.
pub fn generate_subsets(n: usize, size: usize, start: usize, current: u32, result: &mut Vec<u32>)
    requires
        start <= n <= 31,
        current < (1u32 << (start as u32)),
    ensures
        final(result)@.len() >= old(result)@.len(),
        final(result)@.take(old(result)@.len() as int) == old(result)@,
        forall|k: int|
            old(result)@.len() <= k < final(result)@.len() ==> extends(
                #[trigger] final(result)@[k],
                n as nat,
                size as nat,
                start as nat,
                current,
            ),
        forall|a: int, b: int|
            old(result)@.len() <= a < b < final(result)@.len() ==> final(result)@[a] != final(result)@[b],
        forall|m: u32|
            extends(m, n as nat, size as nat, start as nat, current) ==> exists|k: int|
                old(result)@.len() <= k < final(result)@.len() && final(result)@[k] == m,
    decreases n - start,
{
    let ghost first = result@;
    if size == 0 {
        proof {
            let s = start as u32;
            let m = n as u32;
            assert(current < (1u32 << m) && current & (((1u32 << s) - 1) as u32) == current) by (bit_vector)
                requires
                    current < (1u32 << s),
                    s <= m,
                    m <= 31,
            ;
            lemma_above(current, start as nat, n as nat);
        }
        result.push(current);
        proof {
            assert(result@.take(first.len() as int) =~= first);
            assert forall|m: u32| extends(m, n as nat, 0, start as nat, current) implies exists|k: int|
                first.len() <= k < result@.len() && result@[k] == m by {
                lemma_no_members(m, start as nat, n as nat);
                lemma_below(m, start as nat, n as nat);
                let s = start as u32;
                assert(m & (((1u32 << s) - 1) as u32) == m) by (bit_vector)
                    requires
                        m < (1u32 << s),
                        s <= 31,
                ;
                assert(result@[first.len() as int] == m);
            }
        }
        return;
    }
    if start >= n {
        proof {
            assert(result@.take(first.len() as int) =~= first);
        }
        return;
    }
    if n - start < size {
        proof {
            assert(result@.take(first.len() as int) =~= first);
            assert forall|m: u32| !extends(m, n as nat, size as nat, start as nat, current) by {
                lemma_members_bound(m, start as nat, n as nat);
            }
        }
        return;
    }
    let with_start = current | (1u32 << (start as u32));
    proof {
        let s = start as u32;
        assert((current | (1u32 << s)) < (1u32 << ((s + 1) as u32))) by (bit_vector)
            requires
                current < (1u32 << s),
                s < 31,
        ;
        assert(current < (1u32 << ((s + 1) as u32))) by (bit_vector)
            requires
                current < (1u32 << s),
                s < 31,
        ;
    }
    generate_subsets(n, size - 1, start + 1, with_start, result);
    let ghost second = result@;
    generate_subsets(n, size, start + 1, current, result);
    proof {
        let s = start as u32;
        let third = result@;
        assert(third.take(first.len() as int) =~= first) by {
            assert(second.take(first.len() as int) == first);
            assert(third.take(second.len() as int) == second);
            assert forall|k: int| 0 <= k < first.len() implies third[k] == first[k] by {
                assert(third.take(second.len() as int)[k] == third[k]);
                assert(second.take(first.len() as int)[k] == second[k]);
            }
        }
        assert forall|k: int| first.len() <= k < second.len() implies third[k] == second[k] by {
            assert(third.take(second.len() as int)[k] == third[k]);
        }
        assert forall|m: u32|
            extends(m, n as nat, size as nat, start as nat, current) <==> extends(
                m,
                n as nat,
                (size - 1) as nat,
                (start + 1) as nat,
                with_start,
            ) || extends(m, n as nat, size as nat, (start + 1) as nat, current) by {
            assert((m & (((1u32 << ((s + 1) as u32)) - 1) as u32) == (current | (1u32 << s))) <==> (m & (((1u32 << s)
                - 1) as u32) == current && m & (1u32 << s) != 0)) by (bit_vector)
                requires
                    current < (1u32 << s),
                    s < 31,
            ;
            assert((m & (((1u32 << ((s + 1) as u32)) - 1) as u32) == current) <==> (m & (((1u32 << s) - 1) as u32)
                == current && m & (1u32 << s) == 0)) by (bit_vector)
                requires
                    current < (1u32 << s),
                    s < 31,
            ;
            assert(members_between(m, start as nat, n as nat) == (if holds(m, start as nat) {
                1nat
            } else {
                0nat
            }) + members_between(m, (start + 1) as nat, n as nat));
        }
        assert forall|k: int| first.len() <= k < third.len() implies extends(
            #[trigger] third[k],
            n as nat,
            size as nat,
            start as nat,
            current,
        ) by {
            if k < second.len() {
                assert(extends(second[k], n as nat, (size - 1) as nat, (start + 1) as nat, with_start));
            }
        }
        assert forall|a: int, b: int| first.len() <= a < b < third.len() implies third[a] != third[b] by {
            if a < second.len() && b >= second.len() {
                assert(extends(second[a], n as nat, (size - 1) as nat, (start + 1) as nat, with_start));
                assert(extends(third[b], n as nat, size as nat, (start + 1) as nat, current));
                let x = third[a];
                assert(x & (((1u32 << ((s + 1) as u32)) - 1) as u32) != current) by (bit_vector)
                    requires
                        x & (((1u32 << ((s + 1) as u32)) - 1) as u32) == (current | (1u32 << s)),
                        current < (1u32 << s),
                        s < 31,
                ;
            }
        }
        assert forall|m: u32| extends(m, n as nat, size as nat, start as nat, current) implies exists|k: int|
            first.len() <= k < third.len() && third[k] == m by {
            if extends(m, n as nat, (size - 1) as nat, (start + 1) as nat, with_start) {
                let k = choose|k: int| first.len() <= k < second.len() && second[k] == m;
                assert(third[k] == m);
            } else {
                let k = choose|k: int| second.len() <= k < third.len() && third[k] == m;
                assert(third[k] == m);
            }
        }
    }
}

/// The non-empty subsets of `set`, from `set` itself down.
pub fn proper_subsets(set: u32) -> (r: Vec<u32>)
    ensures
        forall|k: int| 0 <= k < r@.len() ==> (#[trigger] r@[k]) != 0 && within(r@[k], set),
        forall|a: int, b: int| 0 <= a < b < r@.len() ==> (#[trigger] r@[a]) > (#[trigger] r@[b]),
        forall|m: u32| m != 0 && #[trigger] within(m, set) ==> r@.contains(m),
        set != 0 ==> r@.len() > 0 && r@[0] == set,
        set == 0 ==> r@.len() == 0,
{
    let mut out: Vec<u32> = Vec::new();
    let mut subset = set;
    assert(set & set == set) by (bit_vector);
    assert forall|m: u32| #[trigger] within(m, set) implies m <= set by {
        assert(m <= set) by (bit_vector)
            requires
                m & set == m,
        ;
    }
    while subset != 0
        invariant
            within(subset, set),
            forall|k: int| 0 <= k < out@.len() ==> (#[trigger] out@[k]) != 0 && within(out@[k], set) && out@[k] > subset,
            forall|a: int, b: int| 0 <= a < b < out@.len() ==> (#[trigger] out@[a]) > (#[trigger] out@[b]),
            forall|m: u32| m > subset && #[trigger] within(m, set) ==> out@.contains(m),
            out@.len() > 0 ==> out@[0] == set,
            out@.len() == 0 ==> subset == set,
        decreases subset,
    {
        let ghost before = out@;
        out.push(subset);
        let next = (subset - 1) & set;
        proof {
            assert(((subset - 1) as u32 & set) < subset) by (bit_vector)
                requires
                    subset != 0,
            ;
            assert((((subset - 1) as u32 & set) & set) == ((subset - 1) as u32 & set)) by (bit_vector);
            assert forall|m: u32| m > next && #[trigger] within(m, set) implies out@.contains(m) by {
                assert(m >= subset) by (bit_vector)
                    requires
                        m & set == m,
                        subset & set == subset,
                        subset != 0,
                        m > ((subset - 1) as u32 & set),
                ;
                if m == subset {
                    assert(out@[before.len() as int] == m);
                } else {
                    assert(before.contains(m));
                    let k = choose|k: int| 0 <= k < before.len() && before[k] == m;
                    assert(out@[k] == m);
                }
            }
        }
        subset = next;
    }
    out
}

/// The least operand from `i` on that the subset holds, or `n` where it holds
/// none below `n`.
pub open spec fn least_from(mask: u32, i: nat, n: nat) -> nat
    decreases n - i,
{
    if i >= n {
        n
    } else if holds(mask, i) {
        i
    } else {
        least_from(mask, i + 1, n)
    }
}

/// The least operand of the subset `mask`, or `n` where it holds none of the
/// first `n` operands.
pub fn least_member(mask: u32, n: usize) -> (r: usize)
    requires
        n <= 31,
    ensures
        r == least_from(mask, 0, n as nat),
        r <= n,
        r < n ==> holds(mask, r as nat),
        forall|i: nat| i < r ==> !holds(mask, i),
{
    let mut i: usize = 0;
    while i < n
        invariant
            i <= n <= 31,
            forall|k: nat| k < i ==> !holds(mask, k),
            least_from(mask, 0, n as nat) == least_from(mask, i as nat, n as nat),
        decreases n - i,
    {
        if mask & (1u32 << (i as u32)) != 0 {
            return i;
        }
        i += 1;
    }
    n
}

/// The letters that are needed outside a subset: those of the output and those
/// of the operands before `k` that the subset does not hold.
pub open spec fn needed_outside(mask: u32, indices: Seq<Seq<char>>, output: Seq<char>, k: nat) -> Seq<char>
    decreases k,
{
    if k == 0 {
        output
    } else if holds(mask, (k - 1) as nat) {
        needed_outside(mask, indices, output, (k - 1) as nat)
    } else {
        needed_outside(mask, indices, output, (k - 1) as nat) + indices[k - 1]
    }
}

/// The letters that are needed outside a subset.
fn letters_outside(mask: u32, indices: &[Vec<char>], output: &[char]) -> (r: Vec<char>)
    requires
        indices@.len() <= 31,
    ensures
        r@ == needed_outside(mask, letter_seqs(indices@), output@, indices@.len()),
{
    let mut kept = crate::chars::copy_chars(output);
    let mut i: usize = 0;
    while i < indices.len()
        invariant
            i <= indices.len(),
            indices@.len() <= 31,
            kept@ == needed_outside(mask, letter_seqs(indices@), output@, i as nat),
        decreases indices.len() - i,
    {
        if mask & (1u32 << (i as u32)) == 0 {
            let letters = &indices[i];
            let ghost before = kept@;
            let mut k: usize = 0;
            while k < letters.len()
                invariant
                    k <= letters.len(),
                    kept@ == before + letters@.take(k as int),
                decreases letters.len() - k,
            {
                kept.push(letters[k]);
                proof {
                    assert(before + letters@.take(k + 1) =~= (before + letters@.take(k as int)).push(letters@[k as int]));
                }
                k += 1;
            }
            proof {
                assert(letters@.take(letters@.len() as int) =~= letters@);
                assert(letter_seqs(indices@)[i as int] == letters@);
            }
        }
        i += 1;
    }
    kept
}

/// The contraction of two partial results to one: its cost with theirs, their
/// pairs and `pair`, and the shape and the indices of what it gives. It sums
/// over the indices that both have and that `kept` does not hold.
pub open spec fn joined_plan(alpha: u64, l: PlanView, r: PlanView, kept: Seq<char>, pair: (usize, usize)) -> PlanView {
    let contracted = crate::chars::keep_not_in(
        crate::index_set::ordered(crate::chars::keep_in(l.indices, r.indices.to_set())),
        kept.to_set(),
    );
    let letters = result_letters(l.indices, r.indices, contracted);
    PlanView {
        cost: l.cost.spec_plus(r.cost).spec_plus(pair_cost(alpha, l.shape, r.shape, l.indices, r.indices, contracted)),
        pairs: (l.pairs + r.pairs).push(pair),
        shape: crate::dims::sizes_or_one(pair_bindings(l.shape, r.shape, l.indices, r.indices), letters),
        indices: letters,
    }
}

/// The plan of the table for a subset of the operands. A subset of one operand is
/// that operand, at no cost. Every other subset is split in two in the cheapest
/// way, by the total of the cost.
pub open spec fn subset_plan(alpha: u64, shapes: Seq<Seq<usize>>, indices: Seq<Seq<char>>, output: Seq<char>, mask: u32) -> Option<
    PlanView,
>
    decreases mask, mask + 1,
{
    let i = least_from(mask, 0, shapes.len());
    if mask == 0 {
        None
    } else if i < shapes.len() && mask == (1u32 << (i as u32)) {
        Some(PlanView { cost: ContractionCost { flops: 0, memory: 0, total: 0 }, pairs: Seq::empty(), shape: shapes[i as int], indices: indices[i as int] })
    } else {
        best_split_from(alpha, shapes, indices, output, mask, 1)
    }
}

/// The cheapest of the splits of a subset whose first part is `left` or more,
/// as a number: the first part is a subset with a plan, it is less than the
/// second part, which has a plan too, and of two splits of the same total the
/// one with the greater first part is taken.
pub open spec fn best_split_from(
    alpha: u64,
    shapes: Seq<Seq<usize>>,
    indices: Seq<Seq<char>>,
    output: Seq<char>,
    mask: u32,
    left: nat,
) -> Option<PlanView>
    decreases mask, mask - left,
{
    if left >= mask {
        None
    } else {
        let prior = best_split_from(alpha, shapes, indices, output, mask, left + 1);
        let l = left as u32;
        let r = mask ^ l;
        if l != 0 && within(l, mask) && l < r && r < mask {
            match (subset_plan(alpha, shapes, indices, output, l), subset_plan(alpha, shapes, indices, output, r)) {
                (Some(a), Some(b)) => {
                    let p = joined_plan(
                        alpha,
                        a,
                        b,
                        needed_outside(mask, indices, output, indices.len()),
                        (least_from(l, 0, shapes.len()) as usize, least_from(r, 0, shapes.len()) as usize),
                    );
                    if prior matches Some(q) && q.cost.total <= p.cost.total {
                        prior
                    } else {
                        Some(p)
                    }
                },
                _ => prior,
            }
        } else {
            prior
        }
    }
}

/// A split of a subset into two parts that have plans: what contracting the
/// two plans costs and gives.
pub open spec fn split_plan(
    alpha: u64,
    shapes: Seq<Seq<usize>>,
    indices: Seq<Seq<char>>,
    output: Seq<char>,
    mask: u32,
    l: u32,
) -> PlanView {
    joined_plan(
        alpha,
        subset_plan(alpha, shapes, indices, output, l)->Some_0,
        subset_plan(alpha, shapes, indices, output, mask ^ l)->Some_0,
        needed_outside(mask, indices, output, indices.len()),
        (least_from(l, 0, shapes.len()) as usize, least_from(mask ^ l, 0, shapes.len()) as usize),
    )
}

/// `l` and the rest of `mask` are a split of `mask` into two parts that have
/// plans, the lesser part first.
pub open spec fn splits(alpha: u64, shapes: Seq<Seq<usize>>, indices: Seq<Seq<char>>, output: Seq<char>, mask: u32, l: u32) -> bool {
    &&& l != 0 && within(l, mask) && l < (mask ^ l) && (mask ^ l) < mask
    &&& subset_plan(alpha, shapes, indices, output, l) is Some
    &&& subset_plan(alpha, shapes, indices, output, mask ^ l) is Some
}

/// The cheapest split from `left` on costs no more than any split whose first
/// part is `left` or more.
pub proof fn lemma_cheapest_from(
    alpha: u64,
    shapes: Seq<Seq<usize>>,
    indices: Seq<Seq<char>>,
    output: Seq<char>,
    mask: u32,
    left: nat,
    l: u32,
)
    requires
        left <= l,
        splits(alpha, shapes, indices, output, mask, l),
    ensures
        best_split_from(alpha, shapes, indices, output, mask, left) matches Some(p) && p.cost.total <= split_plan(
            alpha,
            shapes,
            indices,
            output,
            mask,
            l,
        ).cost.total,
    decreases l - left,
{
    assert(l < mask) by (bit_vector)
        requires
            l & mask == l,
            l < (mask ^ l),
    ;
    if left < l {
        lemma_cheapest_from(alpha, shapes, indices, output, mask, left + 1, l);
    }
}

/// The plan of a subset of two operands or more costs no more than any split of
/// the subset into two parts with plans.
pub proof fn plan_is_cheapest_split(
    alpha: u64,
    shapes: Seq<Seq<usize>>,
    indices: Seq<Seq<char>>,
    output: Seq<char>,
    mask: u32,
    l: u32,
)
    requires
        shapes.len() <= 31,
        splits(alpha, shapes, indices, output, mask, l),
    ensures
        subset_plan(alpha, shapes, indices, output, mask) matches Some(p) && p.cost.total <= split_plan(
            alpha,
            shapes,
            indices,
            output,
            mask,
            l,
        ).cost.total,
{
    lemma_cheapest_from(alpha, shapes, indices, output, mask, 1, l);
    let i = least_from(mask, 0, shapes.len());
    if i < shapes.len() {
        let a = i as u32;
        assert(!(mask == (1u32 << a))) by (bit_vector)
            requires
                a < 32,
                l != 0,
                l & mask == l,
                l < (mask ^ l),
        ;
    }
    assert(mask != 0) by (bit_vector)
        requires
            l != 0,
            l & mask == l,
    ;
}

/// Where no number from `a` up to `b` is a subset of `mask`, the cheapest split
/// from `a` on is the cheapest split from `b` on.
pub proof fn lemma_no_split_between(
    alpha: u64,
    shapes: Seq<Seq<usize>>,
    indices: Seq<Seq<char>>,
    output: Seq<char>,
    mask: u32,
    a: nat,
    b: nat,
)
    requires
        a <= b <= mask + 1,
        forall|x: u32| a <= x < b ==> !(x != 0 && #[trigger] within(x, mask) && x < mask),
    ensures
        best_split_from(alpha, shapes, indices, output, mask, a) == best_split_from(
            alpha,
            shapes,
            indices,
            output,
            mask,
            b,
        ),
    decreases b - a,
{
    if a < b {
        lemma_no_split_between(alpha, shapes, indices, output, mask, a + 1, b);
        if a < mask {
            let x = a as u32;
            assert(!(x != 0 && within(x, mask) && x < mask));
        }
    }
}

/// A subset and the rest of a set hold together what the set holds.
pub proof fn lemma_members_split(l: u32, r: u32, mask: u32, lo: nat, hi: nat)
    requires
        l & r == 0,
        l | r == mask,
        hi <= 32,
    ensures
        members_between(l, lo, hi) + members_between(r, lo, hi) == members_between(mask, lo, hi),
    decreases hi - lo,
{
    if lo < hi {
        lemma_members_split(l, r, mask, lo + 1, hi);
        let i = lo as u32;
        assert(((l | r) & (1u32 << i) != 0) == ((l & (1u32 << i) != 0) || (r & (1u32 << i) != 0))) by (bit_vector);
        assert(!((l & (1u32 << i) != 0) && (r & (1u32 << i) != 0))) by (bit_vector)
            requires
                l & r == 0,
        ;
    }
}

/// A subset of `{0, .., n - 1}` that is not empty holds an operand.
pub proof fn lemma_members_positive(mask: u32, n: nat)
    requires
        n <= 31,
        mask != 0,
        mask < (1u32 << (n as u32)),
    ensures
        members_between(mask, 0, n) >= 1,
{
    if members_between(mask, 0, n) == 0 {
        lemma_no_members(mask, 0, n);
        lemma_below(mask, 0, n);
        assert((1u32 << 0u32) == 1u32) by (bit_vector);
    }
}

/// The subset of the one operand `i` holds it and no other.
pub proof fn lemma_members_single(i: nat, lo: nat, hi: nat)
    requires
        i < 32,
        hi <= 32,
    ensures
        members_between(1u32 << (i as u32), lo, hi) == (if lo <= i < hi {
            1nat
        } else {
            0nat
        }),
    decreases hi - lo,
{
    if lo < hi {
        lemma_members_single(i, lo + 1, hi);
        let a = i as u32;
        let b = lo as u32;
        assert(((1u32 << a) & (1u32 << b) != 0) == (a == b)) by (bit_vector)
            requires
                a < 32,
                b < 32,
        ;
    }
}

/// The least operand of the subset of the one operand `i` is `i`.
pub proof fn lemma_least_single(i: nat, k: nat, n: nat)
    requires
        k <= i < n <= 32,
    ensures
        least_from(1u32 << (i as u32), k, n) == i,
    decreases i - k,
{
    let a = i as u32;
    let b = k as u32;
    assert(((1u32 << a) & (1u32 << b) != 0) == (a == b)) by (bit_vector)
        requires
            a < 32,
            b < 32,
    ;
    if k < i {
        lemma_least_single(i, k + 1, n);
    }
}

/// A subset of `{0, .., n - 1}` that is not empty has a least operand, and holds
/// it.
pub proof fn lemma_least_exists(mask: u32, k: nat, n: nat)
    requires
        k <= n,
        members_between(mask, k, n) >= 1,
    ensures
        least_from(mask, k, n) < n,
        holds(mask, least_from(mask, k, n)),
    decreases n - k,
{
    if k < n && !holds(mask, k) {
        lemma_least_exists(mask, k + 1, n);
    }
}

/// A subset of `{0, .., n - 1}` that holds one operand is the subset of its
/// least operand.
pub proof fn lemma_single(mask: u32, n: nat)
    requires
        n <= 31,
        mask < (1u32 << (n as u32)),
        members_between(mask, 0, n) == 1,
    ensures
        least_from(mask, 0, n) < n,
        mask == (1u32 << (least_from(mask, 0, n) as u32)),
{
    lemma_least_exists(mask, 0, n);
    let i = least_from(mask, 0, n);
    let a = i as u32;
    let one = 1u32 << a;
    let rest = mask ^ one;
    assert(one & rest == 0 && one | rest == mask && rest <= mask) by (bit_vector)
        requires
            mask & one != 0,
            one == 1u32 << a,
            rest == mask ^ one,
            a < 32,
    ;
    lemma_members_split(one, rest, mask, 0, n);
    lemma_members_single(i, 0, n);
    lemma_no_members(rest, 0, n);
    lemma_below(rest, 0, n);
    assert(mask == one) by (bit_vector)
        requires
            rest == mask ^ one,
            rest < (1u32 << 0u32),
    ;
}

/// A part of a split of a subset of `{0, .., n - 1}` holds fewer operands than
/// the subset.
pub proof fn lemma_part_is_smaller(l: u32, mask: u32, n: nat)
    requires
        n <= 31,
        mask < (1u32 << (n as u32)),
        l != 0,
        within(l, mask),
        l != mask,
    ensures
        0 < (mask ^ l) < (1u32 << (n as u32)),
        l < (1u32 << (n as u32)),
        within(mask ^ l, mask),
        1 <= members_between(l, 0, n) < members_between(mask, 0, n),
        1 <= members_between(mask ^ l, 0, n) < members_between(mask, 0, n),
{
    let r = mask ^ l;
    assert(l & r == 0 && l | r == mask && r != 0 && r <= mask && l <= mask && r & mask == r) by (bit_vector)
        requires
            l & mask == l,
            l != mask,
            r == mask ^ l,
    ;
    lemma_members_split(l, r, mask, 0, n);
    lemma_members_positive(l, n);
    lemma_members_positive(r, n);
}

/// The contraction of two partial results: its cost, and the shape and the
/// indices of what it gives. It sums over the indices that both operands have
/// and that `kept` does not hold.
pub fn compute_contraction(
    shape_a: &[usize],
    indices_a: &[char],
    shape_b: &[usize],
    indices_b: &[char],
    kept: &[char],
    cost_model: &CostModel,
) -> (r: (ContractionCost, Vec<usize>, Vec<char>))
    ensures
        ({
            let contracted = crate::chars::keep_not_in(
                crate::index_set::ordered(crate::chars::keep_in(indices_a@, indices_b@.to_set())),
                kept@.to_set(),
            );
            &&& r.0 == pair_cost(cost_model.alpha, shape_a@, shape_b@, indices_a@, indices_b@, contracted)
            &&& r.2@ == result_letters(indices_a@, indices_b@, contracted)
            &&& r.1@ == crate::dims::sizes_or_one(pair_bindings(shape_a@, shape_b@, indices_a@, indices_b@), r.2@)
        }),
{
    let both = keep_letters_in(indices_a, indices_b);
    let common = IndexSet::from_chars(both.as_slice()).to_vec();
    let contracted = keep_letters_not_in(common.as_slice(), kept);
    let contracted_set = letter_set(contracted.as_slice());
    let result_indices = merge_outside(indices_a, indices_b, &contracted_set);
    let mut dim_map = DimMap::new();
    bind_into(&mut dim_map, indices_a, shape_a);
    bind_into(&mut dim_map, indices_b, shape_b);
    let result_shape = lookup_or_one(&dim_map, result_indices.as_slice());
    let cost = cost_model.compute_pairwise_cost(shape_a, shape_b, indices_a, indices_b, contracted.as_slice());
    (cost, result_shape, result_indices)
}

/// Every entry of the index leads to the plan of its subset.
pub open spec fn table_sound(
    index: SubsetIndex,
    table: Seq<SubsetPlan>,
    alpha: u64,
    shapes: Seq<Seq<usize>>,
    indices: Seq<Seq<char>>,
    output: Seq<char>,
) -> bool {
    forall|m: u32| #[trigger]
        subset_slots(index).contains_key(m) ==> subset_slots(index)[m] < table.len() && subset_plan(
            alpha,
            shapes,
            indices,
            output,
            m,
        ) == Some(table[subset_slots(index)[m] as int]@)
}

/// The plan that the table holds for `mask`, if it holds one.
fn lookup<'a>(index: &SubsetIndex, table: &'a Vec<SubsetPlan>, mask: u32) -> (r: Option<&'a SubsetPlan>)
    ensures
        r == (if subset_slots(*index).contains_key(mask) && subset_slots(*index)[mask] < table@.len() {
            Some(&table@[subset_slots(*index)[mask] as int])
        } else {
            None
        }),
{
    match index.get(mask) {
        Some(slot) => if slot < table.len() {
            Some(&table[slot])
        } else {
            None
        },
        None => None,
    }
}

/// A copy of a list of pairs, followed by a second list and one more pair.
fn join_pairs(a: &Vec<(usize, usize)>, b: &Vec<(usize, usize)>, last: (usize, usize)) -> (r: Vec<(usize, usize)>)
    ensures
        r@ == (a@ + b@).push(last),
{
    let mut out: Vec<(usize, usize)> = Vec::new();
    let mut i: usize = 0;
    while i < a.len()
        invariant
            i <= a.len(),
            out@ == a@.take(i as int),
        decreases a.len() - i,
    {
        out.push((a[i].0, a[i].1));
        proof {
            assert(a@.take(i + 1) =~= a@.take(i as int).push(a@[i as int]));
        }
        i += 1;
    }
    let mut k: usize = 0;
    proof {
        assert(a@.take(a@.len() as int) =~= a@);
        assert(a@ + b@.take(0) =~= a@);
    }
    while k < b.len()
        invariant
            k <= b.len(),
            out@ == a@ + b@.take(k as int),
        decreases b.len() - k,
    {
        out.push((b[k].0, b[k].1));
        proof {
            assert(a@ + b@.take(k + 1) =~= (a@ + b@.take(k as int)).push(b@[k as int]));
        }
        k += 1;
    }
    proof {
        assert(b@.take(b@.len() as int) =~= b@);
    }
    out.push(last);
    out
}

/// The cheapest split of the subset `mask` into two parts.
fn best_split(
    mask: u32,
    n: usize,
    index: &SubsetIndex,
    table: &Vec<SubsetPlan>,
    indices: &[Vec<char>],
    output: &[char],
    cost_model: &CostModel,
    Ghost(shapes): Ghost<Seq<Seq<usize>>>,
) -> (r: Option<SubsetPlan>)
    requires
        n <= 31,
        n == indices@.len(),
        n == shapes.len(),
        mask != 0,
        table_sound(*index, table@, cost_model.alpha, shapes, letter_seqs(indices@), output@),
        forall|m: u32|
            m != 0 && #[trigger] within(m, mask) && m != mask && subset_plan(
                cost_model.alpha,
                shapes,
                letter_seqs(indices@),
                output@,
                m,
            ) is Some ==> subset_slots(*index).contains_key(m),
    ensures
        match r {
            Some(p) => best_split_from(cost_model.alpha, shapes, letter_seqs(indices@), output@, mask, 1) == Some(p@),
            None => best_split_from(cost_model.alpha, shapes, letter_seqs(indices@), output@, mask, 1) is None,
        },
{
    let ghost alpha = cost_model.alpha;
    let ghost letters = letter_seqs(indices@);
    let ghost out = output@;
    let kept = letters_outside(mask, indices, output);
    let mut best: Option<SubsetPlan> = None;
    let lefts = proper_subsets(mask);
    let ghost mut lo: nat = (mask + 1) as nat;
    let mut k: usize = 0;
    while k < lefts.len()
        invariant
            k <= lefts.len(),
            n <= 31,
            n == indices@.len(),
            n == shapes.len(),
            mask != 0,
            alpha == cost_model.alpha,
            letters == letter_seqs(indices@),
            out == output@,
            kept@ == needed_outside(mask, letters, out, letters.len()),
            table_sound(*index, table@, alpha, shapes, letters, out),
            forall|m: u32|
                m != 0 && #[trigger] within(m, mask) && m != mask && subset_plan(alpha, shapes, letters, out, m)
                    is Some ==> subset_slots(*index).contains_key(m),
            forall|q: int| 0 <= q < lefts@.len() ==> (#[trigger] lefts@[q]) != 0 && within(lefts@[q], mask),
            forall|a: int, b: int| 0 <= a < b < lefts@.len() ==> (#[trigger] lefts@[a]) > (#[trigger] lefts@[b]),
            forall|m: u32| m != 0 && #[trigger] within(m, mask) ==> lefts@.contains(m),
            1 <= lo <= mask + 1,
            k == 0 ==> lo == mask + 1,
            k > 0 ==> lo == lefts@[k - 1],
            match best {
                Some(p) => best_split_from(alpha, shapes, letters, out, mask, lo) == Some(p@),
                None => best_split_from(alpha, shapes, letters, out, mask, lo) is None,
            },
        decreases lefts.len() - k,
    {
        let left = lefts[k];
        let right = mask ^ left;
        proof {
            assert(left <= mask) by (bit_vector)
                requires
                    left & mask == left,
            ;
            assert forall|x: u32| left + 1 <= x < lo implies !(x != 0 && #[trigger] within(x, mask) && x < mask) by {
                if x != 0 && within(x, mask) {
                    let q = choose|q: int| 0 <= q < lefts@.len() && lefts@[q] == x;
                    if q < k {
                        if q < k - 1 {
                            assert(lefts@[q] > lefts@[k - 1]);
                        }
                    } else if q > k {
                        assert(lefts@[k as int] > lefts@[q]);
                    }
                }
            }
            lemma_no_split_between(alpha, shapes, letters, out, mask, (left + 1) as nat, lo);
            lo = left as nat;
            assert((right < mask) == (left != 0) && (right == 0) == (left == mask)) by (bit_vector)
                requires
                    left & mask == left,
                    right == mask ^ left,
            ;
        }
        k += 1;
        if right == 0 || left == 0 || left > right {
            continue;
        }
        proof {
            assert(right != 0 && right & mask == right && right != mask && left != right) by (bit_vector)
                requires
                    left & mask == left,
                    right == mask ^ left,
                    left != 0,
                    right != 0,
            ;
            assert(within(right, mask));
            assert(within(left, mask));
        }
        let l = match lookup(index, table, left) {
            Some(p) => p,
            None => {
                continue;
            },
        };
        let r = match lookup(index, table, right) {
            Some(p) => p,
            None => {
                continue;
            },
        };
        let (cost, shape, result) = compute_contraction(
            l.shape.as_slice(),
            l.indices.as_slice(),
            r.shape.as_slice(),
            r.indices.as_slice(),
            kept.as_slice(),
            cost_model,
        );
        let total = l.cost.plus(r.cost).plus(cost);
        let better = match &best {
            Some(b) => total.total < b.cost.total,
            None => true,
        };
        if better {
            let pair = (least_member(left, n), least_member(right, n));
            best = Some(SubsetPlan { cost: total, pairs: join_pairs(&l.pairs, &r.pairs, pair), shape, indices: result });
        }
    }
    proof {
        assert forall|x: u32| 1 <= x < lo implies !(x != 0 && #[trigger] within(x, mask) && x < mask) by {
            if within(x, mask) {
                let q = choose|q: int| 0 <= q < lefts@.len() && lefts@[q] == x;
                if k == 0 {
                    assert(false);
                } else if q < k - 1 {
                    assert(lefts@[q] > lefts@[k - 1]);
                }
            }
        }
        lemma_no_split_between(alpha, shapes, letters, out, mask, 1, lo);
    }
    best
}

/// The subset of all of `n` operands.
pub open spec fn all_operands(n: nat) -> u32 {
    ((1u32 << (n as u32)) - 1) as u32
}

/// The order of contraction that the table gives for all operands: the
/// contractions in order, each as the least operands of its two parts.
fn plan_by_subsets(shapes: &[Vec<usize>], indices: &[Vec<char>], output: &[char], cost_model: &CostModel) -> (r:
    Option<Vec<(usize, usize)>>)
    requires
        shapes@.len() == indices@.len(),
        2 <= shapes@.len() <= MAX_DP_TENSORS,
    ensures
        match r {
            Some(pairs) => subset_plan(
                cost_model.alpha,
                shape_seqs(shapes@),
                letter_seqs(indices@),
                output@,
                all_operands(shapes@.len()),
            ) matches Some(p) && p.pairs == pairs@,
            None => subset_plan(
                cost_model.alpha,
                shape_seqs(shapes@),
                letter_seqs(indices@),
                output@,
                all_operands(shapes@.len()),
            ) is None,
        },
{
    let n = shapes.len();
    let ghost alpha = cost_model.alpha;
    let ghost sh = shape_seqs(shapes@);
    let ghost letters = letter_seqs(indices@);
    let ghost out = output@;
    let mut index = SubsetIndex::new();
    let mut table: Vec<SubsetPlan> = Vec::new();
    let mut i: usize = 0;
    while i < n
        invariant
            i <= n,
            n == shapes@.len(),
            n == indices@.len(),
            n <= 12,
            alpha == cost_model.alpha,
            sh == shape_seqs(shapes@),
            letters == letter_seqs(indices@),
            out == output@,
            table_sound(index, table@, alpha, sh, letters, out),
            forall|q: nat| q < i ==> subset_slots(index).contains_key(#[trigger] (1u32 << (q as u32))),
        decreases n - i,
    {
        let mask = 1u32 << (i as u32);
        let ghost before = index;
        let ghost rows = table@;
        index.insert(mask, table.len());
        table.push(
            SubsetPlan {
                cost: ContractionCost::zero(),
                pairs: Vec::new(),
                shape: crate::chars::copy_sizes(shapes[i].as_slice()),
                indices: crate::chars::copy_chars(indices[i].as_slice()),
            },
        );
        proof {
            let a = i as u32;
            lemma_least_single(i as nat, 0, n as nat);
            assert((1u32 << a) != 0) by (bit_vector)
                requires
                    a < 32,
            ;
            assert(sh[i as int] == shapes@[i as int]@);
            assert(letters[i as int] == indices@[i as int]@);
            assert(subset_plan(alpha, sh, letters, out, mask) == Some(table@[rows.len() as int]@));
            assert forall|m: u32| #[trigger]
                subset_slots(index).contains_key(m) implies subset_slots(index)[m] < table@.len() && subset_plan(
                alpha,
                sh,
                letters,
                out,
                m,
            ) == Some(table@[subset_slots(index)[m] as int]@) by {
                if m != mask {
                    assert(subset_slots(before).contains_key(m));
                    assert(table@[subset_slots(before)[m] as int] == rows[subset_slots(before)[m] as int]);
                }
            }
        }
        i += 1;
    }
    let mut size: usize = 2;
    proof {
        assert forall|m: u32|
            0 < m < (1u32 << (n as u32)) && members_between(m, 0, n as nat) < 2 && subset_plan(
                alpha,
                sh,
                letters,
                out,
                m,
            ) is Some implies #[trigger] subset_slots(index).contains_key(m) by {
            lemma_members_positive(m, n as nat);
            lemma_single(m, n as nat);
        }
    }
    while size <= n
        invariant
            2 <= size <= n + 1,
            n == shapes@.len(),
            n == indices@.len(),
            n <= 12,
            alpha == cost_model.alpha,
            sh == shape_seqs(shapes@),
            letters == letter_seqs(indices@),
            out == output@,
            table_sound(index, table@, alpha, sh, letters, out),
            forall|m: u32|
                0 < m < (1u32 << (n as u32)) && members_between(m, 0, n as nat) < size && subset_plan(
                    alpha,
                    sh,
                    letters,
                    out,
                    m,
                ) is Some ==> #[trigger] subset_slots(index).contains_key(m),
        decreases n + 1 - size,
    {
        let masks = subsets_of_size(n, size);
        let mut k: usize = 0;
        while k < masks.len()
            invariant
                k <= masks.len(),
                2 <= size <= n,
                n == shapes@.len(),
                n == indices@.len(),
                n <= 12,
                alpha == cost_model.alpha,
                sh == shape_seqs(shapes@),
                letters == letter_seqs(indices@),
                out == output@,
                table_sound(index, table@, alpha, sh, letters, out),
                forall|q: int|
                    0 <= q < masks@.len() ==> (#[trigger] masks@[q]) < (1u32 << (n as u32)) && members_between(
                        masks@[q],
                        0,
                        n as nat,
                    ) == size,
                forall|m: u32|
                    m < (1u32 << (n as u32)) && members_between(m, 0, n as nat) == size ==> masks@.contains(m),
                forall|m: u32|
                    0 < m < (1u32 << (n as u32)) && members_between(m, 0, n as nat) < size && subset_plan(
                        alpha,
                        sh,
                        letters,
                        out,
                        m,
                    ) is Some ==> #[trigger] subset_slots(index).contains_key(m),
                forall|q: int|
                    0 <= q < k && subset_plan(alpha, sh, letters, out, #[trigger] masks@[q]) is Some
                        ==> subset_slots(index).contains_key(masks@[q]),
            decreases masks.len() - k,
        {
            let mask = masks[k];
            proof {
                assert(mask != 0) by {
                    if mask == 0 {
                        assert((1u32 << 0u32) == 1u32) by (bit_vector);
                        lemma_above(mask, 0, n as nat);
                    }
                }
                assert forall|m: u32|
                    m != 0 && #[trigger] within(m, mask) && m != mask && subset_plan(alpha, sh, letters, out, m)
                        is Some implies subset_slots(index).contains_key(m) by {
                    lemma_part_is_smaller(m, mask, n as nat);
                }
            }
            match best_split(mask, n, &index, &table, indices, output, cost_model, Ghost(sh)) {
                Some(plan) => {
                    let ghost before = index;
                    let ghost rows = table@;
                    index.insert(mask, table.len());
                    table.push(plan);
                    proof {
                        lemma_not_single(mask, n as nat);
                        assert(subset_plan(alpha, sh, letters, out, mask) == Some(table@[rows.len() as int]@));
                        assert forall|m: u32| #[trigger]
                            subset_slots(index).contains_key(m) implies subset_slots(index)[m] < table@.len()
                            && subset_plan(alpha, sh, letters, out, m) == Some(
                            table@[subset_slots(index)[m] as int]@,
                        ) by {
                            if m != mask {
                                assert(subset_slots(before).contains_key(m));
                                assert(table@[subset_slots(before)[m] as int] == rows[subset_slots(before)[m] as int]);
                            }
                        }
                    }
                },
                None => {
                    proof {
                        lemma_not_single(mask, n as nat);
                    }
                },
            }
            k += 1;
        }
        proof {
            assert forall|m: u32|
                0 < m < (1u32 << (n as u32)) && members_between(m, 0, n as nat) < size + 1 && subset_plan(
                    alpha,
                    sh,
                    letters,
                    out,
                    m,
                ) is Some implies #[trigger] subset_slots(index).contains_key(m) by {
                if members_between(m, 0, n as nat) == size {
                    assert(masks@.contains(m));
                    let q = choose|q: int| 0 <= q < masks@.len() && masks@[q] == m;
                    assert(subset_plan(alpha, sh, letters, out, masks@[q]) is Some);
                }
            }
        }
        size += 1;
    }
    proof {
        let m = n as u32;
        assert((1u32 << m) >= 1) by (bit_vector)
            requires
                m <= 12,
        ;
    }
    let full = ((1u32 << (n as u32)) - 1) as u32;
    match lookup(&index, &table, full) {
        Some(plan) => {
            let none: Vec<(usize, usize)> = Vec::new();
            let mut pairs = join_pairs(&plan.pairs, &none, (0, 0));
            pairs.pop();
            proof {
                assert(pairs@ =~= plan.pairs@);
            }
            Some(pairs)
        },
        None => {
            proof {
                let m = n as u32;
                assert(0 < full < (1u32 << m)) by (bit_vector)
                    requires
                        full == ((1u32 << m) - 1) as u32,
                        1 <= m <= 12,
                ;
                lemma_members_bound(full, 0, n as nat);
            }
            None
        },
    }
}

/// A subset that holds two operands or more is not the subset of one operand.
pub proof fn lemma_not_single(mask: u32, n: nat)
    requires
        n <= 31,
        members_between(mask, 0, n) >= 2,
    ensures
        !(least_from(mask, 0, n) < n && mask == (1u32 << (least_from(mask, 0, n) as u32))),
{
    let i = least_from(mask, 0, n);
    if i < n {
        lemma_members_single(i, 0, n);
    }
}

/// Where a tensor of a list stands after the tensors at `i` and `j` are
/// contracted and their result has gone to the position `last`.
pub open spec fn moved(p: usize, i: usize, j: usize, last: usize) -> usize {
    if p == i || p == j {
        last
    } else if p > j {
        (p - 2) as usize
    } else if p > i {
        (p - 1) as usize
    } else {
        p
    }
}

/// What the first `k` pairs give: the state that they leave, for each operand
/// the position of the tensor that holds it, and the steps. Each pair names two
/// operands, and the step contracts the two tensors that hold them. There is
/// no such thing where a pair names an operand that does not exist, or two
/// operands that one tensor holds.
pub open spec fn replayed(alpha: u64, s0: StateView, output: Seq<char>, pairs: Seq<(usize, usize)>, k: nat) -> Option<
    (StateView, Seq<usize>, Seq<StepView>),
>
    decreases k,
{
    if k == 0 {
        Some((s0, Seq::new(s0.shapes.len(), |q: int| q as usize), Seq::empty()))
    } else {
        match replayed(alpha, s0, output, pairs, (k - 1) as nat) {
            None => None,
            Some((s, position, steps)) => {
                let (left, right) = pairs[k - 1];
                if left >= position.len() || right >= position.len() || position[left as int] == position[right as int] {
                    None
                } else {
                    let a = position[left as int];
                    let b = position[right as int];
                    let (i, j) = if a < b {
                        (a, b)
                    } else {
                        (b, a)
                    };
                    let step = step_at(alpha, s, i as int, j as int, output);
                    let next = contracted_state(s, i as int, j as int, step.result);
                    Some(
                        (
                            next,
                            Seq::new(
                                position.len(),
                                |q: int| moved(position[q], i, j, (next.shapes.len() - 1) as usize),
                            ),
                            steps.push(step),
                        ),
                    )
                }
            },
        }
    }
}

/// The pairs give a path that leaves one tensor.
pub open spec fn pairs_give(alpha: u64, s0: StateView, output: Seq<char>, pairs: Seq<(usize, usize)>, steps: Seq<
    StepView,
>) -> bool {
    replayed(alpha, s0, output, pairs, pairs.len()) matches Some(t) && t.0.shapes.len() <= 1 && t.2 == steps
}

/// The path that contracts, step by step, the tensors that hold the operands
/// of each pair, with its cost. The steps have the form of the steps of the
/// greedy path: two positions of the current list, whose result goes to its
/// end. `None` where a pair names an operand that does not exist, or two
/// operands that one tensor holds already, or where the pairs leave more than
/// one tensor.
pub fn build_contraction_path(
    pairs: &[(usize, usize)],
    state: TensorState,
    output_indices: &[char],
    cost_model: &CostModel,
) -> (r: Option<(ContractionPath, ContractionCost)>)
    requires
        state.wf(),
    ensures
        match r {
            Some(p) => p.0.wf() && pairs_give(cost_model.alpha, state@, output_indices@, pairs@, p.0.spec_steps())
                && complete_path(cost_model.alpha, state@, p.0.spec_steps(), output_indices@) && p.1 == whole_cost(
                cost_model.alpha,
                state@,
                p.0.spec_steps(),
                output_indices@,
            ),
            None => forall|steps: Seq<StepView>|
                !pairs_give(cost_model.alpha, state@, output_indices@, pairs@, steps),
        },
{
    let ghost s0 = state@;
    let ghost alpha = cost_model.alpha;
    let ghost out = output_indices@;
    let n = state.len();
    let mut current = state;
    let mut position: Vec<usize> = Vec::new();
    let mut t: usize = 0;
    while t < n
        invariant
            t <= n,
            position@.len() == t,
            forall|q: int| 0 <= q < t ==> position@[q] == q,
        decreases n - t,
    {
        position.push(t);
        t += 1;
    }
    let mut path = ContractionPath::with_capacity(pairs.len());
    let mut total = ContractionCost::zero();
    let mut k: usize = 0;
    proof {
        assert(position@ =~= Seq::new(s0.shapes.len(), |q: int| q as usize));
    }
    while k < pairs.len()
        invariant
            k <= pairs.len(),
            position@.len() == n,
            current.wf(),
            s0 == state@,
            path.wf(),
            alpha == cost_model.alpha,
            out == output_indices@,
            forall|q: int| 0 <= q < n ==> (#[trigger] position@[q]) < current.shapes@.len(),
            replayed(alpha, s0, out, pairs@, k as nat) == Some((current@, position@, path.spec_steps())),
            current@ == state_after(s0, path.spec_steps(), path.spec_steps().len()),
            valid_steps(alpha, s0, path.spec_steps(), out, path.spec_steps().len()),
            total == path_cost(alpha, s0, path.spec_steps(), out, path.spec_steps().len()),
        decreases pairs.len() - k,
    {
        let (left, right) = pairs[k];
        if left >= n || right >= n {
            proof {
                assert(pairs@[k as int] == (left, right));
                assert(replayed(alpha, s0, out, pairs@, k as nat) == Some((current@, position@, path.spec_steps())));
                assert(replayed(alpha, s0, out, pairs@, (k + 1) as nat) is None);
                lemma_replay_ends(alpha, s0, out, pairs@, (k + 1) as nat, pairs@.len() as nat);
            }
            return None;
        }
        let a = position[left];
        let b = position[right];
        if a == b {
            proof {
                assert(pairs@[k as int] == (left, right));
                assert(replayed(alpha, s0, out, pairs@, k as nat) == Some((current@, position@, path.spec_steps())));
                assert(replayed(alpha, s0, out, pairs@, (k + 1) as nat) is None);
                lemma_replay_ends(alpha, s0, out, pairs@, (k + 1) as nat, pairs@.len() as nat);
            }
            return None;
        }
        let (i, j) = if a < b {
            (a, b)
        } else {
            (b, a)
        };
        let (step, cost) = evaluate_pair(&current, i, j, output_indices, cost_model);
        let new_state = current.contract(i, j, step.result_indices.as_slice());
        let last = new_state.len() - 1;
        let ghost held = position@;
        let mut q: usize = 0;
        while q < n
            invariant
                q <= n,
                position@.len() == n,
                held.len() == n,
                i < j < current.shapes@.len(),
                last + 2 == current.shapes@.len(),
                forall|x: int| 0 <= x < n ==> (#[trigger] held[x]) < current.shapes@.len(),
                forall|x: int| 0 <= x < q ==> position@[x] == moved(held[x], i, j, last),
                forall|x: int| q <= x < n ==> position@[x] == held[x],
            decreases n - q,
        {
            let p = position[q];
            let moved = if p == i || p == j {
                last
            } else if p > j {
                p - 2
            } else if p > i {
                p - 1
            } else {
                p
            };
            position.set(q, moved);
            q += 1;
        }
        let ghost before = path.spec_steps();
        let ghost sv = step@;
        path.push(step);
        proof {
            let after = path.spec_steps();
            lemma_push_drop_last(before, sv);
            lemma_prefix(alpha, s0, before, after, out, before.len());
            assert(after[before.len() as int] == sv);
            lemma_cost_step(alpha, s0, after, out, after.len());
            assert(position@ =~= Seq::new(held.len(), |x: int| moved(held[x], i, j, last)));
        }
        total = total.plus(cost);
        current = new_state;
        k += 1;
    }
    if current.len() > 1 {
        return None;
    }
    Some((path, total))
}

/// Pairs that give nothing up to some point give nothing later.
pub proof fn lemma_replay_ends(alpha: u64, s0: StateView, output: Seq<char>, pairs: Seq<(usize, usize)>, k: nat, m: nat)
    requires
        k <= m,
        replayed(alpha, s0, output, pairs, k) is None,
    ensures
        replayed(alpha, s0, output, pairs, m) is None,
    decreases m,
{
    if k < m {
        lemma_replay_ends(alpha, s0, output, pairs, k, (m - 1) as nat);
    }
}

/// The path that the table gives for the operands of a state: the plan of the
/// subset of all operands, step by step.
pub open spec fn table_path(alpha: u64, s0: StateView, output: Seq<char>, steps: Seq<StepView>) -> bool {
    &&& s0.shapes.len() >= 2
    &&& subset_plan(alpha, s0.shapes, s0.indices, output, all_operands(s0.shapes.len())) matches Some(p) && pairs_give(
        alpha,
        s0,
        output,
        p.pairs,
        steps,
    )
}

/// The steps are those of the optimal strategy: the path that the table gives,
/// or the greedy path where the table gives no path or a path of a greater
/// total.
pub open spec fn table_or_greedy(alpha: u64, s0: StateView, output: Seq<char>, steps: Seq<StepView>) -> bool {
    &&& forall|g: Seq<StepView>, d: Seq<StepView>|
        greedy_path_of(alpha, s0, g, output) && table_path(alpha, s0, output, d) ==> steps == (if whole_cost(
            alpha,
            s0,
            d,
            output,
        ).total <= whole_cost(alpha, s0, g, output).total {
            d
        } else {
            g
        })
    &&& (forall|d: Seq<StepView>| !table_path(alpha, s0, output, d)) ==> greedy_path_of(alpha, s0, steps, output)
}

/// The path of the optimal strategy, for at most `MAX_DP_TENSORS` operands: the
/// path that the table gives, or the greedy path where the table gives no path
/// or a path of a greater total. It contracts the operands down to one tensor.
pub fn optimal_path(notation: &EinsumNotation, shapes: &[&[usize]], cost_model: &CostModel) -> (r: ContractionPath)
    requires
        notation.wf(),
        shapes@.len() == notation.spec_inputs().len(),
        shapes@.len() <= MAX_DP_TENSORS,
    ensures
        r.wf(),
        table_or_greedy(
            cost_model.alpha,
            initial_state(notation.spec_inputs(), shape_views(shapes@)),
            named(notation.spec_output()),
            r.spec_steps(),
        ),
        complete_path(
            cost_model.alpha,
            initial_state(notation.spec_inputs(), shape_views(shapes@)),
            r.spec_steps(),
            named(notation.spec_output()),
        ),
        r.spec_steps().len() == (if shapes@.len() >= 1 {
            shapes@.len() - 1
        } else {
            0
        }),
        forall|g: Seq<StepView>|
            greedy_path_of(
                cost_model.alpha,
                initial_state(notation.spec_inputs(), shape_views(shapes@)),
                g,
                named(notation.spec_output()),
            ) ==> whole_cost(
                cost_model.alpha,
                initial_state(notation.spec_inputs(), shape_views(shapes@)),
                r.spec_steps(),
                named(notation.spec_output()),
            ).total <= whole_cost(
                cost_model.alpha,
                initial_state(notation.spec_inputs(), shape_views(shapes@)),
                g,
                named(notation.spec_output()),
            ).total,
{
    let ghost s0 = initial_state(notation.spec_inputs(), shape_views(shapes@));
    let ghost alpha = cost_model.alpha;
    let output = notation.output().named_indices();
    let ghost out = output@;
    let state = starting_state(notation, shapes);
    let (greedy, greedy_cost) = greedy_from(state.clone(), output.as_slice(), cost_model);
    proof {
        lemma_greedy_valid(alpha, s0, greedy.spec_steps(), out, greedy.spec_steps().len());
        assert forall|g: Seq<StepView>| greedy_path_of(alpha, s0, g, out) implies g == greedy.spec_steps() by {
            lemma_greedy_same(alpha, s0, greedy.spec_steps(), g, out);
        }
    }
    if state.len() <= 1 {
        return greedy;
    }
    let pairs = match plan_by_subsets(state.shapes.as_slice(), state.indices.as_slice(), output.as_slice(), cost_model) {
        Some(p) => p,
        None => {
            return greedy;
        },
    };
    match build_contraction_path(pairs.as_slice(), state, output.as_slice(), cost_model) {
        Some((path, cost)) => {
            proof {
                assert(table_path(alpha, s0, out, path.spec_steps()));
            }
            if cost.total <= greedy_cost.total {
                proof {
                    lemma_state_len(alpha, s0, path.spec_steps(), out, path.spec_steps().len());
                }
                path
            } else {
                greedy
            }
        },
        None => greedy,
    }
}

} // verus!
