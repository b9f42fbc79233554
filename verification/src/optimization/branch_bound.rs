//! The branch-and-bound strategy: a depth-first search over the orders of
//! contraction, seeded with the greedy path and cut where a branch cannot beat
//! the best path found.

use crate::chars::{lemma_push_drop_last, lemma_take_all};
use crate::dims::{capped, letter_seqs, shape_seqs, lemma_capped_add};
use crate::notation::notation::EinsumNotation;
use crate::notation::subscript::named;
use crate::notation::validation::shape_views;
use crate::optimization::cost::{pair_cost, remaining_bound, ContractionCost, CostModel};
use crate::optimization::greedy::{greedy_from, greedy_path_of, initial_state, lemma_greedy_valid, starting_state};
use crate::optimization::path::{step_views, ContractionPath, ContractionStep, StateView, StepView, TensorState};
use crate::optimization::search::{
    complete_path, evaluate_pair, flops_sum, lemma_cost_step, lemma_prefix, lemma_state_len, memory_sum, state_after,
    state_wf, step_at, step_cost, total_sum, valid_steps, whole_cost,
};
use vstd::prelude::*;

verus! {

/// The depth at which the search completes a path greedily.
pub const MAX_SEARCH_DEPTH: usize = 8;

/// The number of nodes after which the search stops.
pub const MAX_NODES: u64 = 100_000;

/// One possible contraction of a state.
#[derive(Debug)]
pub struct Candidate {
    /// The position of the first operand.
    pub first: usize,
    /// The position of the second operand.
    pub second: usize,
    /// The cost of the contraction.
    pub cost: ContractionCost,
    /// The step that makes it.
    pub step: ContractionStep,
}

/// The candidate is the contraction of two tensors of the state.
pub open spec fn candidate_of(c: Candidate, alpha: u64, s: StateView, output: Seq<char>) -> bool {
    &&& c.first < c.second < s.shapes.len()
    &&& c.step@ == step_at(alpha, s, c.first as int, c.second as int, output)
    &&& c.cost == step_cost(alpha, s, c.first as int, c.second as int, output)
}

/// A candidate as plain values.
pub struct CandidateView {
    pub first: usize,
    pub second: usize,
    pub cost: ContractionCost,
    pub step: StepView,
}

impl View for Candidate {
    type V = CandidateView;

    open spec fn view(&self) -> CandidateView {
        CandidateView { first: self.first, second: self.second, cost: self.cost, step: self.step@ }
    }
}

/// The views of a list of candidates.
pub open spec fn candidate_views(v: Seq<Candidate>) -> Seq<CandidateView> {
    Seq::new(v.len(), |k: int| v[k]@)
}

/// The pairs of positions below `n` that come before the pair `(i, j)`, in
/// their order: by the first position, then by the second.
pub open spec fn pairs_before(n: nat, i: nat, j: nat) -> Seq<(usize, usize)>
    decreases i, j,
{
    if j > i + 1 {
        pairs_before(n, i, (j - 1) as nat).push((i as usize, (j - 1) as usize))
    } else if i == 0 {
        Seq::empty()
    } else {
        pairs_before(n, (i - 1) as nat, n)
    }
}

/// The contraction of the tensors at the two positions of `p`.
pub open spec fn candidate_at(alpha: u64, s: StateView, output: Seq<char>, p: (usize, usize)) -> CandidateView {
    CandidateView {
        first: p.0,
        second: p.1,
        cost: step_cost(alpha, s, p.0 as int, p.1 as int, output),
        step: step_at(alpha, s, p.0 as int, p.1 as int, output),
    }
}

/// The contractions of the given pairs.
pub open spec fn candidates_at(alpha: u64, s: StateView, output: Seq<char>, pairs: Seq<(usize, usize)>) -> Seq<
    CandidateView,
> {
    Seq::new(pairs.len(), |k: int| candidate_at(alpha, s, output, pairs[k]))
}

/// All contractions of two tensors of a state, in the order of their pairs.
pub open spec fn candidates(alpha: u64, s: StateView, output: Seq<char>) -> Seq<CandidateView> {
    candidates_at(alpha, s, output, pairs_before(s.shapes.len(), s.shapes.len(), s.shapes.len() + 1))
}

/// The first position from `pos` on at which a candidate costs as much as `x`
/// or more, or the length of the list.
pub open spec fn place(sorted: Seq<CandidateView>, x: CandidateView, pos: nat) -> nat
    decreases sorted.len() - pos,
{
    if pos >= sorted.len() || sorted[pos as int].cost.total >= x.cost.total {
        pos
    } else {
        place(sorted, x, pos + 1)
    }
}

/// The candidates in the order of their total; candidates of the same total
/// keep their order.
pub open spec fn ranked(cs: Seq<CandidateView>) -> Seq<CandidateView>
    decreases cs.len(),
{
    if cs.len() == 0 {
        Seq::empty()
    } else {
        let rest = ranked(cs.drop_first());
        rest.insert(place(rest, cs.first(), 0) as int, cs.first())
    }
}

/// The best path found so far, with its cost, and the number of nodes that the
/// search has visited.
#[derive(Debug)]
pub struct Incumbent {
    pub path: ContractionPath,
    pub cost: ContractionCost,
    pub nodes_explored: u64,
}

/// The incumbent is a complete path of the state, with its cost.
pub open spec fn incumbent_of(b: Incumbent, alpha: u64, s0: StateView, output: Seq<char>) -> bool {
    &&& b.path.wf()
    &&& complete_path(alpha, s0, b.path.spec_steps(), output)
    &&& b.cost == whole_cost(alpha, s0, b.path.spec_steps(), output)
}

/// The incumbent as plain values.
pub struct SearchView {
    pub steps: Seq<StepView>,
    pub cost: ContractionCost,
    pub nodes: u64,
}

impl View for Incumbent {
    type V = SearchView;

    open spec fn view(&self) -> SearchView {
        SearchView { steps: self.path.spec_steps(), cost: self.cost, nodes: self.nodes_explored }
    }
}

/// The incumbent, or the path `steps` of the cost `cost` where its total is
/// less.
pub open spec fn better(b: SearchView, steps: Seq<StepView>, cost: ContractionCost) -> SearchView {
    if cost.total < b.cost.total {
        SearchView { steps: steps, cost: cost, nodes: b.nodes }
    } else {
        b
    }
}

/// The greedy path of a state.
pub open spec fn greedy_rest(alpha: u64, s: StateView, output: Seq<char>) -> Seq<StepView> {
    choose|g: Seq<StepView>| greedy_path_of(alpha, s, g, output)
}

/// The incumbent after the path `cur` has been completed greedily and
/// compared with it.
pub open spec fn finished(b: SearchView, alpha: u64, s0: StateView, output: Seq<char>, cur: Seq<StepView>) -> SearchView {
    let s = state_after(s0, cur, cur.len());
    let g = greedy_rest(alpha, s, output);
    better(b, cur + g, whole_cost(alpha, s0, cur, output).spec_plus(whole_cost(alpha, s, g, output)))
}

/// The incumbent after the search below the node that the path `cur` leads
/// to. The node counts as visited. The search stops where `max_nodes` nodes
/// have been visited. A complete path is compared with the incumbent; at the
/// depth `max_depth` the path is completed greedily; a node whose cost with the
/// lower bound of the rest reaches the incumbent is left; else the contractions
/// of the state are tried in the order of their cost.
pub open spec fn searched(
    b: SearchView,
    alpha: u64,
    s0: StateView,
    output: Seq<char>,
    cur: Seq<StepView>,
    depth: nat,
    max_nodes: u64,
    max_depth: nat,
) -> SearchView
    decreases max_depth - depth, 2nat, 0nat,
{
    let s = state_after(s0, cur, cur.len());
    let cost = whole_cost(alpha, s0, cur, output);
    let visited = SearchView { steps: b.steps, cost: b.cost, nodes: capped(b.nodes as nat + 1) };
    if visited.nodes >= max_nodes {
        visited
    } else if s.shapes.len() <= 1 {
        better(visited, cur, cost)
    } else if depth >= max_depth {
        finished(visited, alpha, s0, output, cur)
    } else if cost.spec_plus(remaining_bound(alpha, s.shapes)).total >= visited.cost.total {
        visited
    } else {
        tried(visited, alpha, s0, output, cur, depth, max_nodes, max_depth, ranked(candidates(alpha, s, output)), 0)
    }
}

/// The incumbent after the candidates from position `k` on have been tried,
/// one after the other. A candidate whose cost with that of the path reaches
/// the incumbent ends the trial, as the later ones cost no less; so does the
/// limit of nodes.
pub open spec fn tried(
    b: SearchView,
    alpha: u64,
    s0: StateView,
    output: Seq<char>,
    cur: Seq<StepView>,
    depth: nat,
    max_nodes: u64,
    max_depth: nat,
    cands: Seq<CandidateView>,
    k: nat,
) -> SearchView
    decreases max_depth - depth, 1nat, cands.len() - k,
{
    if depth >= max_depth || k >= cands.len() {
        b
    } else if whole_cost(alpha, s0, cur, output).spec_plus(cands[k as int].cost).total >= b.cost.total {
        b
    } else {
        let below = searched(b, alpha, s0, output, cur.push(cands[k as int].step), depth + 1, max_nodes, max_depth);
        if below.nodes >= max_nodes {
            below
        } else {
            tried(below, alpha, s0, output, cur, depth, max_nodes, max_depth, cands, k + 1)
        }
    }
}

/// The steps of the path that branch and bound finds: the greedy path, replaced
/// by what the search from the initial state finds cheaper.
pub open spec fn branch_bound_steps(alpha: u64, s0: StateView, output: Seq<char>, max_nodes: u64, max_depth: nat) -> Seq<
    StepView,
> {
    let g = greedy_rest(alpha, s0, output);
    if s0.shapes.len() <= 1 {
        g
    } else {
        searched(
            SearchView { steps: g, cost: whole_cost(alpha, s0, g, output), nodes: 0 },
            alpha,
            s0,
            output,
            Seq::empty(),
            0,
            max_nodes,
            max_depth,
        ).steps
    }
}

/// The incumbent is the one before, or it is cheaper.
pub open spec fn kept_or_cheaper(after: Incumbent, before: Incumbent) -> bool {
    (after.path.spec_steps() == before.path.spec_steps() && after.cost == before.cost) || after.cost.total
        < before.cost.total
}

/// A path followed by a path of the state that it leaves.
pub proof fn lemma_concat(alpha: u64, s0: StateView, a: Seq<StepView>, b: Seq<StepView>, output: Seq<char>, k: nat)
    requires
        k <= b.len(),
    ensures
        state_after(s0, a + b, a.len() + k) == state_after(state_after(s0, a, a.len()), b, k),
        valid_steps(alpha, s0, a + b, output, a.len() + k) == (valid_steps(alpha, s0, a, output, a.len())
            && valid_steps(alpha, state_after(s0, a, a.len()), b, output, k)),
        flops_sum(alpha, s0, a + b, output, a.len() + k) == flops_sum(alpha, s0, a, output, a.len()) + flops_sum(
            alpha,
            state_after(s0, a, a.len()),
            b,
            output,
            k,
        ),
        memory_sum(alpha, s0, a + b, output, a.len() + k) == memory_sum(alpha, s0, a, output, a.len())
            + memory_sum(alpha, state_after(s0, a, a.len()), b, output, k),
        total_sum(alpha, s0, a + b, output, a.len() + k) == total_sum(alpha, s0, a, output, a.len()) + total_sum(
            alpha,
            state_after(s0, a, a.len()),
            b,
            output,
            k,
        ),
    decreases k,
{
    if k == 0 {
        lemma_prefix(alpha, s0, a, a + b, output, a.len());
    } else {
        lemma_concat(alpha, s0, a, b, output, (k - 1) as nat);
        assert((a + b)[a.len() + k - 1] == b[k - 1]);
    }
}

/// The steps of `steps`, as a path.
pub fn path_of(steps: &[ContractionStep]) -> (r: ContractionPath)
    ensures
        r.wf(),
        r.spec_steps() == step_views(steps@),
{
    let mut path = ContractionPath::with_capacity(steps.len());
    let mut i: usize = 0;
    while i < steps.len()
        invariant
            i <= steps.len(),
            path.wf(),
            path.spec_steps() == step_views(steps@).take(i as int),
        decreases steps.len() - i,
    {
        proof {
            assert(step_views(steps@).take(i + 1) =~= step_views(steps@).take(i as int).push(steps@[i as int]@));
        }
        path.push(steps[i].clone());
        i += 1;
    }
    proof {
        lemma_take_all(step_views(steps@));
    }
    path
}

/// All contractions of two tensors of the state, in the order of their pairs.
pub fn generate_candidates(state: &TensorState, output_indices: &[char], cost_model: &CostModel) -> (r: Vec<
    Candidate,
>)
    requires
        state.wf(),
    ensures
        candidate_views(r@) == candidates(cost_model.alpha, state@, output_indices@),
        forall|k: int| 0 <= k < r@.len() ==> candidate_of(#[trigger] r@[k], cost_model.alpha, state@, output_indices@),
{
    let n = state.len();
    let ghost alpha = cost_model.alpha;
    let ghost sv = state@;
    let ghost ov = output_indices@;
    let mut out: Vec<Candidate> = Vec::new();
    let mut i: usize = 0;
    proof {
        assert(candidate_views(out@) =~= candidates_at(alpha, sv, ov, pairs_before(n as nat, 0, 1)));
    }
    while i < n
        invariant
            i <= n,
            n == state.shapes@.len(),
            state.wf(),
            alpha == cost_model.alpha,
            sv == state@,
            ov == output_indices@,
            candidate_views(out@) == candidates_at(alpha, sv, ov, pairs_before(n as nat, i as nat, (i + 1) as nat)),
            forall|k: int| 0 <= k < out@.len() ==> candidate_of(#[trigger] out@[k], alpha, sv, ov),
        decreases n - i,
    {
        let mut j: usize = i + 1;
        while j < n
            invariant
                i < j <= n,
                n == state.shapes@.len(),
                state.wf(),
                alpha == cost_model.alpha,
                sv == state@,
                ov == output_indices@,
                candidate_views(out@) == candidates_at(alpha, sv, ov, pairs_before(n as nat, i as nat, j as nat)),
                forall|k: int| 0 <= k < out@.len() ==> candidate_of(#[trigger] out@[k], alpha, sv, ov),
            decreases n - j,
        {
            let (step, cost) = evaluate_pair(state, i, j, output_indices, cost_model);
            let ghost before = out@;
            out.push(Candidate { first: i, second: j, cost, step });
            proof {
                let pairs = pairs_before(n as nat, i as nat, j as nat);
                assert(pairs_before(n as nat, i as nat, (j + 1) as nat) == pairs.push((i, j)));
                assert(candidate_views(out@) =~= candidate_views(before).push(out@[before.len() as int]@));
                assert(candidates_at(alpha, sv, ov, pairs.push((i, j))) =~= candidates_at(alpha, sv, ov, pairs).push(
                    candidate_at(alpha, sv, ov, (i, j)),
                ));
            }
            j += 1;
        }
        proof {
            assert(pairs_before(n as nat, (i + 1) as nat, (i + 2) as nat) == pairs_before(n as nat, i as nat, n as nat));
        }
        i += 1;
    }
    out
}

/// `c` stands in `v` at or after the position `m`.
pub open spec fn stands_from(v: Seq<Candidate>, m: int, c: Candidate) -> bool {
    exists|i: int| m <= i < v.len() && #[trigger] v[i] == c
}

/// `c` stands in `v` at or after the position `m`, and `d` somewhere after it.
pub open spec fn stand_in_order(v: Seq<Candidate>, m: int, c: Candidate, d: Candidate) -> bool {
    exists|i: int, j: int| m <= i < j < v.len() && #[trigger] v[i] == c && #[trigger] v[j] == d
}

/// The candidates in the order of their cost; candidates of the same cost keep
/// their order.
pub fn sort_candidates(candidates: Vec<Candidate>) -> (r: Vec<Candidate>)
    ensures
        candidate_views(r@) == ranked(candidate_views(candidates@)),
        r@.to_multiset() == candidates@.to_multiset(),
        r@.len() == candidates@.len(),
        forall|a: int, b: int| 0 <= a < b < r@.len() ==> (#[trigger] r@[a]).cost.total <= (#[trigger] r@[b]).cost.total,
        forall|a: int, b: int|
            0 <= a < b < r@.len() && (#[trigger] r@[a]).cost.total == (#[trigger] r@[b]).cost.total ==> stand_in_order(
                candidates@,
                0,
                r@[a],
                r@[b],
            ),
        forall|k: int| 0 <= k < r@.len() ==> candidates@.contains(#[trigger] r@[k]),
{
    broadcast use vstd::seq_lib::group_to_multiset_ensures;

    let ghost orig = candidates@;
    let mut rest = candidates;
    let mut out: Vec<Candidate> = Vec::new();
    assert(rest@ =~= orig.take(rest@.len() as int));
    assert(out@.to_multiset().add(rest@.to_multiset()) =~= orig.to_multiset());
    assert(candidate_views(orig).skip(orig.len() as int) =~= Seq::<CandidateView>::empty());
    assert(candidate_views(out@) =~= Seq::<CandidateView>::empty());
    while rest.len() > 0
        invariant
            candidate_views(out@) == ranked(candidate_views(orig).skip(rest@.len() as int)),
            rest@ == orig.take(rest@.len() as int),
            rest@.len() <= orig.len(),
            out@.len() + rest@.len() == orig.len(),
            out@.to_multiset().add(rest@.to_multiset()) == orig.to_multiset(),
            forall|a: int, b: int|
                0 <= a < b < out@.len() ==> (#[trigger] out@[a]).cost.total <= (#[trigger] out@[b]).cost.total,
            forall|k: int| 0 <= k < out@.len() ==> stands_from(orig, rest@.len() as int, #[trigger] out@[k]),
            forall|a: int, b: int|
                0 <= a < b < out@.len() && (#[trigger] out@[a]).cost.total == (#[trigger] out@[b]).cost.total
                    ==> stand_in_order(orig, rest@.len() as int, out@[a], out@[b]),
        decreases rest@.len(),
    {
        let ghost m = rest@.len();
        let ghost full = rest@;
        let x = match rest.pop() {
            Some(x) => x,
            None => {
                assert(false);
                return out;
            },
        };
        proof {
            assert(x == orig[m - 1]);
            assert(rest@ =~= orig.take(m - 1));
            assert(full =~= rest@.push(x));
            vstd::seq_lib::to_multiset_build(rest@, x);
            assert(full.to_multiset() =~= rest@.to_multiset().insert(x));
        }
        let mut pos: usize = 0;
        while pos < out.len() && out[pos].cost.total < x.cost.total
            invariant
                pos <= out@.len(),
                forall|k: int| 0 <= k < pos ==> (#[trigger] out@[k]).cost.total < x.cost.total,
                place(candidate_views(out@), x@, 0) == place(candidate_views(out@), x@, pos as nat),
            decreases out@.len() - pos,
        {
            proof {
                assert(candidate_views(out@)[pos as int] == out@[pos as int]@);
            }
            pos += 1;
        }
        let ghost before = out@;
        let ghost xv = x@;
        proof {
            if pos < out@.len() {
                assert(candidate_views(out@)[pos as int] == out@[pos as int]@);
            }
            assert(place(candidate_views(before), xv, 0) == pos);
        }
        out.insert(pos, x);
        proof {
            let tail = candidate_views(orig).skip(m - 1);
            assert(tail.first() == xv) by {
                assert(candidate_views(orig)[m - 1] == orig[m - 1]@);
            }
            assert(tail.drop_first() =~= candidate_views(orig).skip(m as int));
            assert(candidate_views(out@) =~= candidate_views(before).insert(pos as int, xv));
            assert(out@.remove(pos as int) =~= before);
            assert(out@[pos as int] == x);
            vstd::seq_lib::to_multiset_remove(out@, pos as int);
            assert(before.to_multiset() =~= out@.to_multiset().remove(x));
            assert(out@.contains(x));
            out@.to_multiset_ensures();
            assert(out@.to_multiset().count(x) > 0);
            assert(out@.to_multiset() =~= before.to_multiset().insert(x));
            assert(out@.to_multiset().add(rest@.to_multiset()) =~= orig.to_multiset());
            assert forall|a: int, b: int| 0 <= a < b < out@.len() implies (#[trigger] out@[a]).cost.total <= (
            #[trigger] out@[b]).cost.total by {
                if b < pos {
                    assert(out@[a] == before[a] && out@[b] == before[b]);
                } else if b == pos {
                    assert(out@[a] == before[a]);
                } else if a < pos {
                    assert(out@[a] == before[a] && out@[b] == before[b - 1]);
                    if pos < before.len() {
                        assert(before[pos as int].cost.total >= x.cost.total);
                        if b - 1 > pos {
                            assert(before[pos as int].cost.total <= before[b - 1].cost.total);
                        }
                    }
                } else if a == pos {
                    assert(out@[b] == before[b - 1]);
                    assert(before[pos as int].cost.total >= x.cost.total);
                    if b - 1 > pos {
                        assert(before[pos as int].cost.total <= before[b - 1].cost.total);
                    }
                } else {
                    assert(out@[a] == before[a - 1] && out@[b] == before[b - 1]);
                }
            }
            assert forall|k: int| 0 <= k < out@.len() implies stands_from(orig, m - 1, #[trigger] out@[k]) by {
                if k < pos {
                    assert(out@[k] == before[k]);
                    assert(stands_from(orig, m as int, before[k]));
                    let i = choose|i: int| m <= i < orig.len() && #[trigger] orig[i] == before[k];
                    assert(orig[i] == out@[k]);
                } else if k == pos {
                    assert(orig[m - 1] == x);
                } else {
                    assert(out@[k] == before[k - 1]);
                    assert(stands_from(orig, m as int, before[k - 1]));
                    let i = choose|i: int| m <= i < orig.len() && #[trigger] orig[i] == before[k - 1];
                    assert(orig[i] == out@[k]);
                }
            }
            assert forall|a: int, b: int|
                0 <= a < b < out@.len() && (#[trigger] out@[a]).cost.total == (
                #[trigger] out@[b]).cost.total implies stand_in_order(orig, m - 1, out@[a], out@[b]) by {
                let ia: int = if a < pos {
                    a
                } else {
                    a - 1
                };
                let ib: int = if b < pos {
                    b
                } else {
                    b - 1
                };
                if a == pos {
                    assert(out@[b] == before[b - 1]);
                    assert(stands_from(orig, m as int, before[b - 1]));
                    let j = choose|j: int| m <= j < orig.len() && #[trigger] orig[j] == before[b - 1];
                    assert(orig[m - 1] == out@[a] && orig[j] == out@[b]);
                } else if b == pos {
                    assert(out@[a] == before[a]);
                    assert(false);
                } else {
                    assert(out@[a] == before[ia] && out@[b] == before[ib]);
                    assert(stand_in_order(orig, m as int, before[ia], before[ib]));
                    let (i, j) = choose|i: int, j: int|
                        m <= i < j < orig.len() && #[trigger] orig[i] == before[ia] && #[trigger] orig[j]
                            == before[ib];
                    assert(orig[i] == out@[a] && orig[j] == out@[b]);
                }
            }
        }
    }
    proof {
        assert(rest@ =~= Seq::<Candidate>::empty());
        assert(candidate_views(orig).skip(0) =~= candidate_views(orig));
        assert(out@.to_multiset().add(rest@.to_multiset()) =~= out@.to_multiset());
        assert forall|k: int| 0 <= k < out@.len() implies orig.contains(#[trigger] out@[k]) by {
            assert(stands_from(orig, 0, out@[k]));
        }
    }
    out
}

/// The positions of every step lie in the state that the steps before it
/// leave.
pub open spec fn replayable(s0: StateView, steps: Seq<StepView>, k: nat) -> bool
    decreases k,
{
    k == 0 || {
        let p = state_after(s0, steps, (k - 1) as nat);
        &&& replayable(s0, steps, (k - 1) as nat)
        &&& state_wf(p)
        &&& steps[k - 1].first < steps[k - 1].second < p.shapes.len()
    }
}

/// The cost of the first `k` steps, each contracting over the indices that it
/// names.
pub open spec fn replay_sums(alpha: u64, s0: StateView, steps: Seq<StepView>, k: nat) -> (nat, nat, nat)
    decreases k,
{
    if k == 0 {
        (0, 0, 0)
    } else {
        let p = state_after(s0, steps, (k - 1) as nat);
        let st = steps[k - 1];
        let c = pair_cost(
            alpha,
            p.shapes[st.first as int],
            p.shapes[st.second as int],
            p.indices[st.first as int],
            p.indices[st.second as int],
            st.contracted,
        );
        let before = replay_sums(alpha, s0, steps, (k - 1) as nat);
        (before.0 + c.flops as nat, before.1 + c.memory as nat, before.2 + c.total as nat)
    }
}

/// The cost of a path whose steps are applied to the tensors with the given
/// shapes and indices: the sums of the costs of its steps, each capped at
/// `u64::MAX`.
pub fn compute_path_cost(
    path: &ContractionPath,
    initial_shapes: &[Vec<usize>],
    initial_indices: &[Vec<char>],
    cost_model: &CostModel,
) -> (r: ContractionCost)
    requires
        initial_shapes@.len() == initial_indices@.len(),
        replayable(
            StateView {
                shapes: shape_seqs(initial_shapes@),
                indices: letter_seqs(initial_indices@),
                original: crate::optimization::greedy::positions(initial_shapes@.len()),
            },
            path.spec_steps(),
            path.spec_steps().len(),
        ),
    ensures
        ({
            let sums = replay_sums(
                cost_model.alpha,
                StateView {
                    shapes: shape_seqs(initial_shapes@),
                    indices: letter_seqs(initial_indices@),
                    original: crate::optimization::greedy::positions(initial_shapes@.len()),
                },
                path.spec_steps(),
                path.spec_steps().len(),
            );
            r == ContractionCost { flops: capped(sums.0), memory: capped(sums.1), total: capped(sums.2) }
        }),
{
    let ghost s0 = StateView {
        shapes: shape_seqs(initial_shapes@),
        indices: letter_seqs(initial_indices@),
        original: crate::optimization::greedy::positions(initial_shapes@.len()),
    };
    let mut total = ContractionCost::zero();
    let shapes = crate::optimization::path::copy_shapes(initial_shapes);
    let indices = crate::optimization::path::copy_index_lists(initial_indices);
    proof {
        assert(shape_seqs(shapes@).len() == shapes@.len());
        assert(letter_seqs(indices@).len() == indices@.len());
        assert(shape_seqs(initial_shapes@).len() == initial_shapes@.len());
        assert(letter_seqs(initial_indices@).len() == initial_indices@.len());
    }
    let mut state = TensorState::new(shapes, indices);
    assert(state@.original =~= s0.original);
    let steps = path.steps();
    let ghost sv = path.spec_steps();
    let mut k: usize = 0;
    while k < steps.len()
        invariant
            k <= steps.len(),
            sv == step_views(steps@),
            replayable(s0, sv, sv.len()),
            state@ == state_after(s0, sv, k as nat),
            state.wf(),
            ({
                let sums = replay_sums(cost_model.alpha, s0, sv, k as nat);
                total == ContractionCost { flops: capped(sums.0), memory: capped(sums.1), total: capped(sums.2) }
            }),
        decreases steps.len() - k,
    {
        let step = &steps[k];
        proof {
            lemma_replayable_at(s0, sv, sv.len(), (k + 1) as nat);
            assert(sv[k as int] == step@);
            let sums = replay_sums(cost_model.alpha, s0, sv, k as nat);
            let p = state@;
            let c = pair_cost(
                cost_model.alpha,
                p.shapes[step.inputs.0 as int],
                p.shapes[step.inputs.1 as int],
                p.indices[step.inputs.0 as int],
                p.indices[step.inputs.1 as int],
                step.contracted_indices@,
            );
            lemma_capped_add(sums.0, c.flops as nat);
            lemma_capped_add(sums.1, c.memory as nat);
            lemma_capped_add(sums.2, c.total as nat);
        }
        let i = step.inputs.0;
        let j = step.inputs.1;
        assert(shape_seqs(state.shapes@)[i as int] == state.shapes@[i as int]@);
        assert(shape_seqs(state.shapes@)[j as int] == state.shapes@[j as int]@);
        assert(letter_seqs(state.indices@)[i as int] == state.indices@[i as int]@);
        assert(letter_seqs(state.indices@)[j as int] == state.indices@[j as int]@);
        let cost = cost_model.compute_pairwise_cost(
            state.shapes[i].as_slice(),
            state.shapes[j].as_slice(),
            state.indices[i].as_slice(),
            state.indices[j].as_slice(),
            step.contracted_indices.as_slice(),
        );
        total = total.plus(cost);
        state = state.contract(i, j, step.result_indices.as_slice());
        k += 1;
    }
    total
}

/// What holds of a whole path holds of each of its prefixes.
pub proof fn lemma_replayable_at(s0: StateView, steps: Seq<StepView>, n: nat, k: nat)
    requires
        k <= n,
        replayable(s0, steps, n),
    ensures
        replayable(s0, steps, k),
    decreases n - k,
{
    if k < n {
        lemma_replayable_at(s0, steps, (n - 1) as nat, k);
    }
}

/// The greedy steps that contract the remaining tensors.
pub fn greedy_remaining_steps(state: &TensorState, output_indices: &[char], cost_model: &CostModel) -> (r: Vec<
    ContractionStep,
>)
    requires
        state.wf(),
    ensures
        greedy_path_of(cost_model.alpha, state@, step_views(r@), output_indices@),
        step_views(r@) == greedy_rest(cost_model.alpha, state@, output_indices@),
{
    let (path, _cost) = greedy_from(state.clone(), output_indices, cost_model);
    proof {
        lemma_greedy_same(
            cost_model.alpha,
            state@,
            path.spec_steps(),
            greedy_rest(cost_model.alpha, state@, output_indices@),
            output_indices@,
        );
    }
    let steps = path.steps();
    let mut out: Vec<ContractionStep> = Vec::new();
    let mut i: usize = 0;
    while i < steps.len()
        invariant
            i <= steps.len(),
            step_views(out@) == step_views(steps@).take(i as int),
        decreases steps.len() - i,
    {
        let ghost before = step_views(out@);
        out.push(steps[i].clone());
        proof {
            assert(step_views(out@) =~= before.push(steps@[i as int]@));
            assert(step_views(steps@).take(i + 1) =~= step_views(steps@).take(i as int).push(steps@[i as int]@));
        }
        i += 1;
    }
    proof {
        lemma_take_all(step_views(steps@));
    }
    out
}

/// The cost of contracting the remaining tensors greedily.
pub fn greedy_remaining_cost(state: &TensorState, output_indices: &[char], cost_model: &CostModel) -> (r:
    ContractionCost)
    requires
        state.wf(),
    ensures
        greedy_path_of(
            cost_model.alpha,
            state@,
            greedy_rest(cost_model.alpha, state@, output_indices@),
            output_indices@,
        ),
        r == whole_cost(
            cost_model.alpha,
            state@,
            greedy_rest(cost_model.alpha, state@, output_indices@),
            output_indices@,
        ),
{
    let (path, cost) = greedy_from(state.clone(), output_indices, cost_model);
    proof {
        lemma_greedy_same(
            cost_model.alpha,
            state@,
            path.spec_steps(),
            greedy_rest(cost_model.alpha, state@, output_indices@),
            output_indices@,
        );
    }
    cost
}

/// Two greedy paths of a state are the same path.
pub proof fn lemma_greedy_same(alpha: u64, s0: StateView, a: Seq<StepView>, b: Seq<StepView>, output: Seq<char>)
    requires
        state_wf(s0),
        greedy_path_of(alpha, s0, a, output),
        greedy_path_of(alpha, s0, b, output),
    ensures
        a == b,
{
    lemma_greedy_valid(alpha, s0, a, output, a.len());
    lemma_greedy_valid(alpha, s0, b, output, b.len());
    lemma_state_len(alpha, s0, a, output, a.len());
    lemma_state_len(alpha, s0, b, output, b.len());
    if a.len() < b.len() {
        crate::optimization::greedy::lemma_greedy_at(alpha, s0, b, output, b.len(), (a.len() + 1) as nat);
        crate::optimization::greedy::lemma_greedy_at(alpha, s0, b, output, b.len(), a.len());
        crate::optimization::greedy::lemma_greedy_unique(alpha, s0, a, b, output, a.len());
        lemma_greedy_valid(alpha, s0, b, output, a.len());
        lemma_state_len(alpha, s0, b, output, a.len());
        assert(false);
    }
    if b.len() < a.len() {
        crate::optimization::greedy::lemma_greedy_at(alpha, s0, a, output, a.len(), (b.len() + 1) as nat);
        crate::optimization::greedy::lemma_greedy_at(alpha, s0, a, output, a.len(), b.len());
        crate::optimization::greedy::lemma_greedy_unique(alpha, s0, a, b, output, b.len());
        lemma_greedy_valid(alpha, s0, a, output, b.len());
        lemma_state_len(alpha, s0, a, output, b.len());
        assert(false);
    }
    crate::optimization::greedy::lemma_greedy_unique(alpha, s0, a, b, output, a.len());
    assert(a =~= b);
}

/// The best of the incumbent and the path `steps`, whose cost is `cost`.
fn keep_better(best: &mut Incumbent, steps: &[ContractionStep], cost: ContractionCost, Ghost(alpha): Ghost<u64>, Ghost(
    s0,
): Ghost<StateView>, Ghost(output): Ghost<Seq<char>>)
    requires
        incumbent_of(*old(best), alpha, s0, output),
        complete_path(alpha, s0, step_views(steps@), output),
        cost == whole_cost(alpha, s0, step_views(steps@), output),
    ensures
        incumbent_of(*final(best), alpha, s0, output),
        final(best).cost.total <= old(best).cost.total,
        kept_or_cheaper(*final(best), *old(best)),
        final(best).cost.total <= cost.total,
        final(best).nodes_explored == old(best).nodes_explored,
        final(best)@ == better(old(best)@, step_views(steps@), cost),
{
    if cost.total < best.cost.total {
        best.cost = cost;
        best.path = path_of(steps);
    }
}

/// Completes `current_path` with the greedy steps from the state that it leaves,
/// and keeps the whole path where it is cheaper than the incumbent.
fn finish_greedily(
    best: &mut Incumbent,
    tensor_state: TensorState,
    current_path: &[ContractionStep],
    current_cost: ContractionCost,
    output_indices: &[char],
    cost_model: &CostModel,
    Ghost(s0): Ghost<StateView>,
)
    requires
        state_wf(s0),
        tensor_state.wf(),
        incumbent_of(*old(best), cost_model.alpha, s0, output_indices@),
        valid_steps(cost_model.alpha, s0, step_views(current_path@), output_indices@, current_path@.len() as nat),
        tensor_state@ == state_after(s0, step_views(current_path@), current_path@.len() as nat),
        current_cost == whole_cost(cost_model.alpha, s0, step_views(current_path@), output_indices@),
    ensures
        incumbent_of(*final(best), cost_model.alpha, s0, output_indices@),
        final(best).cost.total <= old(best).cost.total,
        kept_or_cheaper(*final(best), *old(best)),
        final(best).nodes_explored == old(best).nodes_explored,
        final(best)@ == finished(old(best)@, cost_model.alpha, s0, output_indices@, step_views(current_path@)),
{
    let ghost alpha = cost_model.alpha;
    let ghost out = output_indices@;
    let ghost cur = step_views(current_path@);
    let ghost ts = tensor_state@;
    let rest_cost = greedy_remaining_cost(&tensor_state, output_indices, cost_model);
    let total_cost = current_cost.plus(rest_cost);
    if total_cost.total < best.cost.total {
        let rest = greedy_remaining_steps(&tensor_state, output_indices, cost_model);
        let mut whole: Vec<ContractionStep> = Vec::new();
        let mut i: usize = 0;
        while i < current_path.len()
            invariant
                i <= current_path@.len(),
                cur == step_views(current_path@),
                step_views(whole@) == cur.take(i as int),
            decreases current_path@.len() - i,
        {
            let ghost before = step_views(whole@);
            whole.push(current_path[i].clone());
            proof {
                assert(step_views(whole@) =~= before.push(current_path@[i as int]@));
                assert(cur.take(i + 1) =~= cur.take(i as int).push(current_path@[i as int]@));
            }
            i += 1;
        }
        let rest_steps = rest.as_slice();
        let ghost rv = step_views(rest_steps@);
        let mut k: usize = 0;
        proof {
            lemma_take_all(cur);
            assert(cur + rv.take(0) =~= cur);
        }
        while k < rest_steps.len()
            invariant
                k <= rest_steps@.len(),
                rv == step_views(rest_steps@),
                step_views(whole@) == cur + rv.take(k as int),
            decreases rest_steps@.len() - k,
        {
            let ghost before = step_views(whole@);
            whole.push(rest_steps[k].clone());
            proof {
                assert(step_views(whole@) =~= before.push(rest_steps@[k as int]@));
                assert(cur + rv.take(k + 1) =~= (cur + rv.take(k as int)).push(rest_steps@[k as int]@));
            }
            k += 1;
        }
        proof {
            lemma_take_all(rv);
            lemma_greedy_valid(alpha, ts, rv, out, rv.len());
            lemma_concat(alpha, s0, cur, rv, out, rv.len());
            lemma_capped_add(total_sum(alpha, s0, cur, out, cur.len()), total_sum(alpha, ts, rv, out, rv.len()));
            lemma_capped_add(flops_sum(alpha, s0, cur, out, cur.len()), flops_sum(alpha, ts, rv, out, rv.len()));
            lemma_capped_add(memory_sum(alpha, s0, cur, out, cur.len()), memory_sum(alpha, ts, rv, out, rv.len()));
            assert((cur + rv).len() == cur.len() + rv.len());
        }
        keep_better(best, whole.as_slice(), total_cost, Ghost(alpha), Ghost(s0), Ghost(out));
    }
}

/// The search below one node: `tensor_state` is what `current_path` leaves of the
/// initial tensors, and `current_cost` is what that path costs. The incumbent is
/// replaced wherever a complete path is cheaper.
fn branch_bound_search_with_limits(
    best: &mut Incumbent,
    tensor_state: TensorState,
    current_path: &mut Vec<ContractionStep>,
    current_cost: ContractionCost,
    depth: usize,
    max_nodes: u64,
    max_depth: usize,
    output_indices: &[char],
    cost_model: &CostModel,
    Ghost(s0): Ghost<StateView>,
)
    requires
        state_wf(s0),
        tensor_state.wf(),
        incumbent_of(*old(best), cost_model.alpha, s0, output_indices@),
        valid_steps(
            cost_model.alpha,
            s0,
            step_views(old(current_path)@),
            output_indices@,
            old(current_path)@.len() as nat,
        ),
        tensor_state@ == state_after(s0, step_views(old(current_path)@), old(current_path)@.len() as nat),
        current_cost == whole_cost(cost_model.alpha, s0, step_views(old(current_path)@), output_indices@),
    ensures
        incumbent_of(*final(best), cost_model.alpha, s0, output_indices@),
        final(best).cost.total <= old(best).cost.total,
        kept_or_cheaper(*final(best), *old(best)),
        step_views(final(current_path)@) == step_views(old(current_path)@),
        final(best)@ == searched(
            old(best)@,
            cost_model.alpha,
            s0,
            output_indices@,
            step_views(old(current_path)@),
            depth as nat,
            max_nodes,
            max_depth as nat,
        ),
    decreases tensor_state.shapes@.len(), 1nat,
{
    let ghost alpha = cost_model.alpha;
    let ghost out = output_indices@;
    best.nodes_explored = crate::dims::sat_add(best.nodes_explored, 1);
    if best.nodes_explored >= max_nodes {
        return;
    }
    if tensor_state.len() <= 1 {
        keep_better(best, current_path.as_slice(), current_cost, Ghost(alpha), Ghost(s0), Ghost(out));
        return;
    }
    if depth >= max_depth {
        finish_greedily(
            best,
            tensor_state,
            current_path.as_slice(),
            current_cost,
            output_indices,
            cost_model,
            Ghost(s0),
        );
        return;
    }
    let lower_bound = cost_model.optimistic_remaining_cost(
        tensor_state.shapes.as_slice(),
        tensor_state.indices.as_slice(),
    );
    if current_cost.plus(lower_bound).total >= best.cost.total {
        return;
    }
    let candidates = sort_candidates(generate_candidates(&tensor_state, output_indices, cost_model));
    try_candidates(
        best,
        &tensor_state,
        current_path,
        current_cost,
        depth,
        max_nodes,
        max_depth,
        output_indices,
        cost_model,
        &candidates,
        Ghost(s0),
    );
}

/// Tries the candidates of a node one after the other, each by the search
/// below the node that it leads to.
fn try_candidates(
    best: &mut Incumbent,
    tensor_state: &TensorState,
    current_path: &mut Vec<ContractionStep>,
    current_cost: ContractionCost,
    depth: usize,
    max_nodes: u64,
    max_depth: usize,
    output_indices: &[char],
    cost_model: &CostModel,
    candidates: &Vec<Candidate>,
    Ghost(s0): Ghost<StateView>,
)
    requires
        state_wf(s0),
        tensor_state.wf(),
        tensor_state.shapes@.len() > 1,
        depth < max_depth,
        incumbent_of(*old(best), cost_model.alpha, s0, output_indices@),
        valid_steps(
            cost_model.alpha,
            s0,
            step_views(old(current_path)@),
            output_indices@,
            old(current_path)@.len() as nat,
        ),
        tensor_state@ == state_after(s0, step_views(old(current_path)@), old(current_path)@.len() as nat),
        current_cost == whole_cost(cost_model.alpha, s0, step_views(old(current_path)@), output_indices@),
        forall|q: int|
            0 <= q < candidates@.len() ==> candidate_of(
                #[trigger] candidates@[q],
                cost_model.alpha,
                tensor_state@,
                output_indices@,
            ),
    ensures
        incumbent_of(*final(best), cost_model.alpha, s0, output_indices@),
        final(best).cost.total <= old(best).cost.total,
        kept_or_cheaper(*final(best), *old(best)),
        step_views(final(current_path)@) == step_views(old(current_path)@),
        final(best)@ == tried(
            old(best)@,
            cost_model.alpha,
            s0,
            output_indices@,
            step_views(old(current_path)@),
            depth as nat,
            max_nodes,
            max_depth as nat,
            candidate_views(candidates@),
            0,
        ),
    decreases tensor_state.shapes@.len(), 0nat,
{
    let ghost alpha = cost_model.alpha;
    let ghost out = output_indices@;
    let ghost cur = step_views(current_path@);
    let ghost start = best@;
    let ghost ranking = candidate_views(candidates@);
    let ghost target = tried(start, alpha, s0, out, cur, depth as nat, max_nodes, max_depth as nat, ranking, 0);
    let mut k: usize = 0;
    while k < candidates.len()
        invariant_except_break
            tried(best@, alpha, s0, out, cur, depth as nat, max_nodes, max_depth as nat, ranking, k as nat) == target,
        invariant
            k <= candidates@.len(),
            state_wf(s0),
            tensor_state.wf(),
            alpha == cost_model.alpha,
            out == output_indices@,
            tensor_state.shapes@.len() > 1,
            forall|q: int| 0 <= q < candidates@.len() ==> candidate_of(#[trigger] candidates@[q], alpha, tensor_state@, out),
            incumbent_of(*best, alpha, s0, out),
            best.cost.total <= old(best).cost.total,
            kept_or_cheaper(*best, *old(best)),
            depth < max_depth,
            cur == step_views(current_path@),
            cur == step_views(old(current_path)@),
            valid_steps(alpha, s0, cur, out, cur.len()),
            tensor_state@ == state_after(s0, cur, cur.len()),
            current_cost == whole_cost(alpha, s0, cur, out),
            ranking == candidate_views(candidates@),
        ensures
            best@ == target,
        decreases candidates@.len() - k,
    {
        let cand = &candidates[k];
        let new_cost = current_cost.plus(cand.cost);
        let ghost before = best@;
        proof {
            assert(ranking[k as int] == cand@);
        }
        if new_cost.total >= best.cost.total {
            proof {
                assert(tried(before, alpha, s0, out, cur, depth as nat, max_nodes, max_depth as nat, ranking, k as nat)
                    == before);
            }
            break;
        }
        let new_state = tensor_state.contract(cand.first, cand.second, cand.step.result_indices.as_slice());
        let ghost sv = cand.step@;
        current_path.push(cand.step.clone());
        proof {
            let next = step_views(current_path@);
            assert(next =~= cur.push(sv));
            lemma_push_drop_last(cur, sv);
            lemma_prefix(alpha, s0, cur, next, out, cur.len());
            lemma_cost_step(alpha, s0, next, out, next.len());
        }
        branch_bound_search_with_limits(
            best,
            new_state,
            current_path,
            new_cost,
            depth + 1,
            max_nodes,
            max_depth,
            output_indices,
            cost_model,
            Ghost(s0),
        );
        current_path.pop();
        proof {
            assert(step_views(current_path@) =~= cur);
            assert(tried(before, alpha, s0, out, cur, depth as nat, max_nodes, max_depth as nat, ranking, k as nat) == (
            if best@.nodes >= max_nodes {
                best@
            } else {
                tried(best@, alpha, s0, out, cur, depth as nat, max_nodes, max_depth as nat, ranking, (k + 1) as nat)
            }));
        }
        if best.nodes_explored >= max_nodes {
            break;
        }
        k += 1;
    }
}

/// The search below one node, with the standard limits.
fn branch_bound_search(
    best: &mut Incumbent,
    tensor_state: TensorState,
    current_path: &mut Vec<ContractionStep>,
    current_cost: ContractionCost,
    depth: usize,
    output_indices: &[char],
    cost_model: &CostModel,
    Ghost(s0): Ghost<StateView>,
)
    requires
        state_wf(s0),
        tensor_state.wf(),
        incumbent_of(*old(best), cost_model.alpha, s0, output_indices@),
        valid_steps(
            cost_model.alpha,
            s0,
            step_views(old(current_path)@),
            output_indices@,
            old(current_path)@.len() as nat,
        ),
        tensor_state@ == state_after(s0, step_views(old(current_path)@), old(current_path)@.len() as nat),
        current_cost == whole_cost(cost_model.alpha, s0, step_views(old(current_path)@), output_indices@),
    ensures
        incumbent_of(*final(best), cost_model.alpha, s0, output_indices@),
        final(best).cost.total <= old(best).cost.total,
        kept_or_cheaper(*final(best), *old(best)),
        step_views(final(current_path)@) == step_views(old(current_path)@),
        final(best)@ == searched(
            old(best)@,
            cost_model.alpha,
            s0,
            output_indices@,
            step_views(old(current_path)@),
            depth as nat,
            MAX_NODES,
            MAX_SEARCH_DEPTH as nat,
        ),
{
    branch_bound_search_with_limits(
        best,
        tensor_state,
        current_path,
        current_cost,
        depth,
        MAX_NODES,
        MAX_SEARCH_DEPTH,
        output_indices,
        cost_model,
        Ghost(s0),
    )
}

/// The path that branch and bound finds, with at most `max_nodes` nodes visited
/// and a greedy completion from depth `max_depth` on. The path contracts the
/// operands down to one tensor. It is the greedy path, or a path of a smaller
/// total.
pub fn branch_bound_path_with_limits(
    notation: &EinsumNotation,
    shapes: &[&[usize]],
    cost_model: &CostModel,
    max_nodes: u64,
    max_depth: usize,
) -> (r: ContractionPath)
    requires
        notation.wf(),
        shapes@.len() == notation.spec_inputs().len(),
    ensures
        r.wf(),
        r.spec_steps() == branch_bound_steps(
            cost_model.alpha,
            initial_state(notation.spec_inputs(), shape_views(shapes@)),
            named(notation.spec_output()),
            max_nodes,
            max_depth as nat,
        ),
        complete_path(
            cost_model.alpha,
            initial_state(notation.spec_inputs(), shape_views(shapes@)),
            r.spec_steps(),
            named(notation.spec_output()),
        ),
        r.spec_steps().len() == (if shapes@.len() >= 1 {
            shapes@.len() - 1
        } else {
            0
        }),
        forall|g: Seq<StepView>|
            greedy_path_of(
                cost_model.alpha,
                initial_state(notation.spec_inputs(), shape_views(shapes@)),
                g,
                named(notation.spec_output()),
            ) ==> whole_cost(
                cost_model.alpha,
                initial_state(notation.spec_inputs(), shape_views(shapes@)),
                r.spec_steps(),
                named(notation.spec_output()),
            ).total <= whole_cost(
                cost_model.alpha,
                initial_state(notation.spec_inputs(), shape_views(shapes@)),
                g,
                named(notation.spec_output()),
            ).total,
        forall|g: Seq<StepView>|
            greedy_path_of(
                cost_model.alpha,
                initial_state(notation.spec_inputs(), shape_views(shapes@)),
                g,
                named(notation.spec_output()),
            ) ==> r.spec_steps() == g || whole_cost(
                cost_model.alpha,
                initial_state(notation.spec_inputs(), shape_views(shapes@)),
                r.spec_steps(),
                named(notation.spec_output()),
            ).total < whole_cost(
                cost_model.alpha,
                initial_state(notation.spec_inputs(), shape_views(shapes@)),
                g,
                named(notation.spec_output()),
            ).total,
{
    let ghost s0 = initial_state(notation.spec_inputs(), shape_views(shapes@));
    let ghost alpha = cost_model.alpha;
    let output = notation.output().named_indices();
    let ghost out = output@;
    let state = starting_state(notation, shapes);
    let (greedy, greedy_cost) = greedy_from(state.clone(), output.as_slice(), cost_model);
    let ghost seed = greedy.spec_steps();
    proof {
        lemma_greedy_valid(alpha, s0, seed, out, seed.len());
        assert forall|g: Seq<StepView>| greedy_path_of(alpha, s0, g, out) implies g == seed by {
            lemma_greedy_same(alpha, s0, seed, g, out);
        }
        assert(greedy_rest(alpha, s0, out) == seed);
    }
    let mut best = Incumbent { path: greedy, cost: greedy_cost, nodes_explored: 0 };
    if state.len() <= 1 {
        return best.path;
    }
    let mut current_path: Vec<ContractionStep> = Vec::new();
    proof {
        assert(step_views(current_path@) =~= Seq::<StepView>::empty());
    }
    branch_bound_search_with_limits(
        &mut best,
        state,
        &mut current_path,
        ContractionCost::zero(),
        0,
        max_nodes,
        max_depth,
        output.as_slice(),
        cost_model,
        Ghost(s0),
    );
    proof {
        lemma_state_len(alpha, s0, best.path.spec_steps(), out, best.path.spec_steps().len());
    }
    best.path
}

/// The path that branch and bound finds within the standard limits. The path
/// contracts the operands down to one tensor. It is the greedy path, or a path
/// of a smaller total.
pub fn branch_bound_path(notation: &EinsumNotation, shapes: &[&[usize]], cost_model: &CostModel) -> (r:
    ContractionPath)
    requires
        notation.wf(),
        shapes@.len() == notation.spec_inputs().len(),
    ensures
        r.wf(),
        r.spec_steps() == branch_bound_steps(
            cost_model.alpha,
            initial_state(notation.spec_inputs(), shape_views(shapes@)),
            named(notation.spec_output()),
            MAX_NODES,
            MAX_SEARCH_DEPTH as nat,
        ),
        complete_path(
            cost_model.alpha,
            initial_state(notation.spec_inputs(), shape_views(shapes@)),
            r.spec_steps(),
            named(notation.spec_output()),
        ),
        r.spec_steps().len() == (if shapes@.len() >= 1 {
            shapes@.len() - 1
        } else {
            0
        }),
        forall|g: Seq<StepView>|
            greedy_path_of(
                cost_model.alpha,
                initial_state(notation.spec_inputs(), shape_views(shapes@)),
                g,
                named(notation.spec_output()),
            ) ==> whole_cost(
                cost_model.alpha,
                initial_state(notation.spec_inputs(), shape_views(shapes@)),
                r.spec_steps(),
                named(notation.spec_output()),
            ).total <= whole_cost(
                cost_model.alpha,
                initial_state(notation.spec_inputs(), shape_views(shapes@)),
                g,
                named(notation.spec_output()),
            ).total,
        forall|g: Seq<StepView>|
            greedy_path_of(
                cost_model.alpha,
                initial_state(notation.spec_inputs(), shape_views(shapes@)),
                g,
                named(notation.spec_output()),
            ) ==> r.spec_steps() == g || whole_cost(
                cost_model.alpha,
                initial_state(notation.spec_inputs(), shape_views(shapes@)),
                r.spec_steps(),
                named(notation.spec_output()),
            ).total < whole_cost(
                cost_model.alpha,
                initial_state(notation.spec_inputs(), shape_views(shapes@)),
                g,
                named(notation.spec_output()),
            ).total,
{
    let ghost s0 = initial_state(notation.spec_inputs(), shape_views(shapes@));
    let ghost alpha = cost_model.alpha;
    let output = notation.output().named_indices();
    let ghost out = output@;
    let state = starting_state(notation, shapes);
    let (greedy, greedy_cost) = greedy_from(state.clone(), output.as_slice(), cost_model);
    let ghost seed = greedy.spec_steps();
    proof {
        lemma_greedy_valid(alpha, s0, seed, out, seed.len());
        assert forall|g: Seq<StepView>| greedy_path_of(alpha, s0, g, out) implies g == seed by {
            lemma_greedy_same(alpha, s0, seed, g, out);
        }
        assert(greedy_rest(alpha, s0, out) == seed);
    }
    let mut best = Incumbent { path: greedy, cost: greedy_cost, nodes_explored: 0 };
    if state.len() <= 1 {
        return best.path;
    }
    let mut current_path: Vec<ContractionStep> = Vec::new();
    proof {
        assert(step_views(current_path@) =~= Seq::<StepView>::empty());
    }
    branch_bound_search(
        &mut best,
        state,
        &mut current_path,
        ContractionCost::zero(),
        0,
        output.as_slice(),
        cost_model,
        Ghost(s0),
    );
    proof {
        lemma_state_len(alpha, s0, best.path.spec_steps(), out, best.path.spec_steps().len());
    }
    best.path
}

} // verus!
