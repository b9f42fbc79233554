//! The bookkeeping of temporary tensors: which allocation serves a request, and
//! which tensors are free after a step.

use crate::chars::{lemma_take_all, lemma_take_step};
use crate::dims::{bound_sizes, capped, element_count, lemma_capped_add, lemma_capped_mul, product, sat_add, sat_mul, bind_into};
use crate::error::EinsumError;
use crate::notation::validation::{first_unbound, lookup_all};
use crate::optimization::cost::pair_bindings;
use crate::tables::{tensors_of, DimMap, TensorSet};
use std::collections::BTreeMap;
use vstd::prelude::*;
use vstd::string::StringExecFns;

verus! {

/// One temporary tensor: its shape and the size of an element in bytes.
#[derive(Debug)]
pub struct TensorInfo {
    pub shape: Vec<usize>,
    pub elem_size: usize,
    pub size_bytes: u64,
}

/// A tensor as plain values.
pub struct InfoView {
    pub shape: Seq<usize>,
    pub elem_size: usize,
}

/// The size of a tensor in bytes, capped at `u64::MAX`.
pub open spec fn bytes_of(shape: Seq<usize>, elem_size: usize) -> u64 {
    capped(product(shape) * elem_size as nat)
}

/// The bytes of all tensors together.
pub open spec fn bytes_sum(v: Seq<InfoView>) -> nat
    decreases v.len(),
{
    if v.len() == 0 {
        0
    } else {
        bytes_sum(v.drop_last()) + bytes_of(v.last().shape, v.last().elem_size) as nat
    }
}

/// Can a request for `target` be served by memory of the shape `existing`? The
/// ranks and the numbers of elements must be the same; element counts are
/// compared as far as `u64` holds them.
pub open spec fn reusable(existing: Seq<usize>, target: Seq<usize>) -> bool {
    existing.len() == target.len() && capped(product(existing)) == capped(product(target))
}

/// Can a request for `target` be served by memory of the shape `existing`?
pub fn can_reuse_shape(existing: &[usize], target: &[usize]) -> (r: bool)
    ensures
        r == reusable(existing@, target@),
{
    if existing.len() != target.len() {
        return false;
    }
    element_count(existing) == element_count(target)
}

/// The size of a tensor in bytes, capped at `u64::MAX`.
pub fn compute_tensor_size(shape: &[usize], elem_size: usize) -> (r: u64)
    ensures
        r == bytes_of(shape@, elem_size),
{
    proof {
        lemma_capped_mul(product(shape@), elem_size as nat);
    }
    sat_mul(element_count(shape), elem_size as u64)
}

/// What serves an allocation.
#[derive(Debug, Clone, Copy, PartialEq, Eq, Structural)]
pub enum Allocation {
    /// The tensor at position `from` is free and serves the request.
    Reused { from: usize },
    /// A new tensor is made and put at the end of the list.
    Fresh,
}

/// The temporary tensors of one einsum call.
pub struct Workspace {
    tensors: Vec<TensorInfo>,
    usage: BTreeMap<usize, TensorSet>,
    max_size: usize,
}

/// Is the tensor `t` used at `step` or at a later step?
pub open spec fn used_from(usage: Set<(usize, usize)>, t: usize, step: usize) -> bool {
    exists|s: usize| s >= step && #[trigger] usage.contains((s, t))
}

/// Can the tensor at position `i` serve a request of `min_size` bytes for the
/// shape `target` at the step `step`? It must be large enough and of a fitting
/// shape, and no use of it may be recorded at that step or a later one.
pub open spec fn serves(
    v: Seq<InfoView>,
    usage: Set<(usize, usize)>,
    i: int,
    min_size: u64,
    target: Seq<usize>,
    step: usize,
) -> bool {
    &&& bytes_of(v[i].shape, v[i].elem_size) >= min_size
    &&& reusable(v[i].shape, target)
    &&& !used_from(usage, i as usize, step)
}

/// The first tensor that can serve a request of `min_size` bytes for the shape
/// `target` at the step `step`, or `v.len()`.
pub open spec fn first_reusable(
    v: Seq<InfoView>,
    usage: Set<(usize, usize)>,
    min_size: u64,
    target: Seq<usize>,
    step: usize,
) -> int
    decreases v.len(),
{
    if v.len() == 0 {
        0
    } else {
        let p = first_reusable(v.drop_last(), usage, min_size, target, step);
        if p < v.len() - 1 {
            p
        } else if serves(v, usage, v.len() - 1, min_size, target, step) {
            v.len() - 1
        } else {
            v.len() as int
        }
    }
}

proof fn lemma_first_reusable_stays(
    v: Seq<InfoView>,
    usage: Set<(usize, usize)>,
    min_size: u64,
    target: Seq<usize>,
    step: usize,
    n: int,
)
    requires
        0 <= n <= v.len(),
        first_reusable(v.take(n), usage, min_size, target, step) < n,
    ensures
        first_reusable(v, usage, min_size, target, step) == first_reusable(v.take(n), usage, min_size, target, step),
    decreases v.len() - n,
{
    if n < v.len() {
        lemma_take_step(v, n);
        lemma_first_reusable_stays(v, usage, min_size, target, step, n + 1);
    } else {
        lemma_take_all(v);
    }
}

/// The first tensor that serves a request is one that serves it, and none
/// before it does.
pub proof fn lemma_first_reusable(v: Seq<InfoView>, usage: Set<(usize, usize)>, min_size: u64, target: Seq<usize>, step: usize)
    ensures
        0 <= first_reusable(v, usage, min_size, target, step) <= v.len(),
        first_reusable(v, usage, min_size, target, step) < v.len() ==> serves(
            v,
            usage,
            first_reusable(v, usage, min_size, target, step),
            min_size,
            target,
            step,
        ),
        forall|i: int|
            0 <= i < first_reusable(v, usage, min_size, target, step) ==> !serves(v, usage, i, min_size, target, step),
    decreases v.len(),
{
    if v.len() > 0 {
        let w = v.drop_last();
        lemma_first_reusable(w, usage, min_size, target, step);
        assert forall|i: int| 0 <= i < w.len() implies serves(v, usage, i, min_size, target, step) == serves(
            w,
            usage,
            i,
            min_size,
            target,
            step,
        ) by {
            assert(w[i] == v[i]);
        }
    }
}

/// Is the tensor `t` used at a step after `step`?
pub open spec fn used_after(usage: Set<(usize, usize)>, t: usize, step: usize) -> bool {
    exists|s: usize| s > step && #[trigger] usage.contains((s, t))
}

/// Is the tensor `t` used at `step` or before?
pub open spec fn used_by(usage: Set<(usize, usize)>, t: usize, step: usize) -> bool {
    exists|s: usize| s <= step && #[trigger] usage.contains((s, t))
}

/// Does the list hold a use of the tensor `t` at a step after `step`?
pub open spec fn listed_after(pairs: Seq<(usize, usize)>, t: usize, step: usize) -> bool {
    exists|k: int| 0 <= k < pairs.len() && (#[trigger] pairs[k]).0 > step && pairs[k].1 == t
}

/// Does the list hold a use of the tensor `t` at `step` or before?
pub open spec fn listed_by(pairs: Seq<(usize, usize)>, t: usize, step: usize) -> bool {
    exists|k: int| 0 <= k < pairs.len() && (#[trigger] pairs[k]).0 <= step && pairs[k].1 == t
}

/// A list of the recorded uses holds a use of a tensor exactly where one is
/// recorded.
pub proof fn lemma_listed(pairs: Seq<(usize, usize)>, usage: Set<(usize, usize)>, t: usize, step: usize)
    requires
        forall|p: (usize, usize)| #[trigger] pairs.contains(p) <==> usage.contains(p),
    ensures
        listed_by(pairs, t, step) == used_by(usage, t, step),
        listed_after(pairs, t, step) == used_after(usage, t, step),
{
    if listed_by(pairs, t, step) {
        let k = choose|k: int| 0 <= k < pairs.len() && (#[trigger] pairs[k]).0 <= step && pairs[k].1 == t;
        assert(pairs.contains((pairs[k].0, t)));
        assert(usage.contains((pairs[k].0, t)));
    }
    if used_by(usage, t, step) {
        let s = choose|s: usize| s <= step && #[trigger] usage.contains((s, t));
        assert(pairs.contains((s, t)));
        let k = choose|k: int| 0 <= k < pairs.len() && pairs[k] == (s, t);
        assert(pairs[k].0 <= step);
    }
    if listed_after(pairs, t, step) {
        let k = choose|k: int| 0 <= k < pairs.len() && (#[trigger] pairs[k]).0 > step && pairs[k].1 == t;
        assert(pairs.contains((pairs[k].0, t)));
        assert(usage.contains((pairs[k].0, t)));
    }
    if used_after(usage, t, step) {
        let s = choose|s: usize| s > step && #[trigger] usage.contains((s, t));
        assert(pairs.contains((s, t)));
        let k = choose|k: int| 0 <= k < pairs.len() && pairs[k] == (s, t);
        assert(pairs[k].0 > step);
    }
}

impl Workspace {
    /// The tensors in order.
    pub closed spec fn spec_tensors(&self) -> Seq<InfoView> {
        Seq::new(self.tensors@.len(), |i: int| InfoView { shape: self.tensors@[i].shape@, elem_size: self.tensors@[i].elem_size })
    }

    /// The uses that were recorded: pairs of a step and a tensor.
    pub closed spec fn spec_usage(&self) -> Set<(usize, usize)> {
        Set::new(|p: (usize, usize)| self.usage@.contains_key(p.0) && tensors_of(self.usage@[p.0]).contains(p.1))
    }

    /// The limit in bytes; 0 for none.
    pub closed spec fn spec_max_size(&self) -> usize {
        self.max_size
    }

    /// Each tensor carries its size in bytes.
    pub closed spec fn wf(&self) -> bool {
        forall|i: int|
            0 <= i < self.tensors@.len() ==> (#[trigger] self.tensors@[i]).size_bytes == bytes_of(
                self.tensors@[i].shape@,
                self.tensors@[i].elem_size,
            )
    }

    /// An empty workspace with the given limit in bytes; 0 is no limit.
    pub fn new(max_size: usize) -> (r: Self)
        ensures
            r.wf(),
            r.spec_tensors() == Seq::<InfoView>::empty(),
            r.spec_usage() == Set::<(usize, usize)>::empty(),
            r.spec_max_size() == max_size,
    {
        let r = Workspace { tensors: Vec::new(), usage: BTreeMap::new(), max_size };
        assert(r.spec_tensors() =~= Seq::<InfoView>::empty());
        assert(r.spec_usage() =~= Set::<(usize, usize)>::empty());
        r
    }

    /// Records the inputs `0..num_inputs` as used at step 0, in place of what was
    /// recorded for step 0 before.
    pub fn register_inputs(&mut self, num_inputs: usize)
        requires
            old(self).wf(),
        ensures
            final(self).wf(),
            final(self).spec_tensors() == old(self).spec_tensors(),
            final(self).spec_max_size() == old(self).spec_max_size(),
            forall|s: usize, t: usize| #[trigger]
                final(self).spec_usage().contains((s, t)) <==> ((s != 0 && old(self).spec_usage().contains((s, t)))
                    || (s == 0 && t < num_inputs)),
    {
        broadcast use vstd::std_specs::btree::group_btree_axioms;

        let mut inputs = TensorSet::new();
        let mut t: usize = 0;
        while t < num_inputs
            invariant
                t <= num_inputs,
                forall|u: usize| tensors_of(inputs).contains(u) <==> u < t,
            decreases num_inputs - t,
        {
            inputs.insert(t);
            t += 1;
        }
        self.usage.insert(0, inputs);
    }

    /// Records that the tensor `tensor_idx` is used at the step `step_idx`.
    pub fn mark_used(&mut self, tensor_idx: usize, step_idx: usize)
        requires
            old(self).wf(),
        ensures
            final(self).wf(),
            final(self).spec_tensors() == old(self).spec_tensors(),
            final(self).spec_max_size() == old(self).spec_max_size(),
            final(self).spec_usage() == old(self).spec_usage().insert((step_idx, tensor_idx)),
    {
        broadcast use vstd::std_specs::btree::group_btree_axioms;

        let ghost before = self.usage@;
        let mut users = match self.usage.remove(&step_idx) {
            Some(s) => s,
            None => TensorSet::new(),
        };
        users.insert(tensor_idx);
        self.usage.insert(step_idx, users);
        proof {
            assert(self.spec_usage() =~= old(self).spec_usage().insert((step_idx, tensor_idx)));
        }
    }

    /// The steps at which a use is recorded, each once.
    fn steps(&self) -> (r: Vec<usize>)
        ensures
            forall|s: usize| r@.contains(s) <==> self.usage@.contains_key(s),
    {
        broadcast use vstd::std_specs::btree::group_btree_axioms;

        let mut out: Vec<usize> = Vec::new();
        let ghost keys = vstd::std_specs::iter::IteratorSpec::remaining(&self.usage.keys());
        for k in it: self.usage.keys()
            invariant
                it.seq() == keys,
                out@.len() == it.index(),
                forall|j: int| 0 <= j < it.index() ==> out@[j] == *it.seq()[j],
        {
            out.push(*k);
        }
        proof {
            assert(keys.unref().to_set() == self.usage@.dom());
            assert(out@ =~= keys.unref());
            assert forall|s: usize| out@.contains(s) <==> self.usage@.contains_key(s) by {
                assert(out@.to_set().contains(s) <==> out@.contains(s));
            }
        }
        out
    }

    /// The tensors that are recorded as used at the step `s`.
    fn users_at(&self, s: usize) -> (r: Option<&TensorSet>)
        ensures
            match r {
                Some(u) => self.usage@.contains_key(s) && self.usage@[s] == *u,
                None => !self.usage@.contains_key(s),
            },
    {
        broadcast use vstd::std_specs::btree::group_btree_axioms;

        self.usage.get(&s)
    }

    /// The recorded uses as a list of pairs of a step and a tensor.
    fn pairs(&self) -> (r: Vec<(usize, usize)>)
        ensures
            forall|p: (usize, usize)| #[trigger] r@.contains(p) <==> self.spec_usage().contains(p),
    {
        let steps = self.steps();
        let ghost usage = self.spec_usage();
        let mut out: Vec<(usize, usize)> = Vec::new();
        let mut i: usize = 0;
        while i < steps.len()
            invariant
                i <= steps@.len(),
                usage == self.spec_usage(),
                forall|s: usize| steps@.contains(s) <==> self.usage@.contains_key(s),
                forall|p: (usize, usize)| #[trigger]
                    out@.contains(p) <==> (steps@.take(i as int).contains(p.0) && usage.contains(p)),
            decreases steps@.len() - i,
        {
            let s = steps[i];
            let ghost done = out@;
            let ghost earlier = steps@.take(i as int);
            proof {
                assert(steps@.contains(s));
            }
            match self.users_at(s) {
                Some(users) => {
                    let items = users.items();
                    let mut q: usize = 0;
                    while q < items.len()
                        invariant
                            q <= items@.len(),
                            forall|p: (usize, usize)| #[trigger]
                                out@.contains(p) <==> (done.contains(p) || (p.0 == s && items@.take(q as int).contains(
                                    p.1,
                                ))),
                        decreases items@.len() - q,
                    {
                        let ghost before = out@;
                        out.push((s, items[q]));
                        proof {
                            assert(items@.take(q + 1) =~= items@.take(q as int).push(items@[q as int]));
                            assert forall|p: (usize, usize)| #[trigger]
                                out@.contains(p) <==> (done.contains(p) || (p.0 == s && items@.take(q + 1).contains(
                                    p.1,
                                ))) by {
                                crate::chars::lemma_contains_push(before, (s, items@[q as int]), p);
                                crate::chars::lemma_contains_push(items@.take(q as int), items@[q as int], p.1);
                            }
                        }
                        q += 1;
                    }
                    proof {
                        lemma_take_all(items@);
                        assert(steps@.take(i + 1) =~= earlier.push(s));
                        assert(self.usage@.contains_key(s) && self.usage@[s] == *users);
                        assert forall|p: (usize, usize)| #[trigger]
                            out@.contains(p) <==> (steps@.take(i + 1).contains(p.0) && usage.contains(p)) by {
                            crate::chars::lemma_contains_push(earlier, s, p.0);
                            assert(done.contains(p) <==> (earlier.contains(p.0) && usage.contains(p)));
                            assert(items@.contains(p.1) <==> tensors_of(*users).contains(p.1));
                            if p.0 == s {
                                assert(usage.contains(p) <==> tensors_of(*users).contains(p.1));
                            }
                        }
                    }
                },
                None => {
                    assert(false);
                },
            }
            i += 1;
        }
        proof {
            lemma_take_all(steps@);
            assert forall|p: (usize, usize)| #[trigger] out@.contains(p) <==> usage.contains(p) by {
                if usage.contains(p) {
                    assert(self.usage@.contains_key(p.0));
                    assert(steps@.contains(p.0));
                }
            }
        }
        out
    }

    /// The bytes of all tensors, capped at `u64::MAX`.
    pub fn current_memory_usage(&self) -> (r: u64)
        requires
            self.wf(),
        ensures
            r == capped(bytes_sum(self.spec_tensors())),
    {
        let ghost v = self.spec_tensors();
        let mut total: u64 = 0;
        let mut i: usize = 0;
        while i < self.tensors.len()
            invariant
                i <= self.tensors@.len(),
                self.wf(),
                v == self.spec_tensors(),
                total == capped(bytes_sum(v.take(i as int))),
            decreases self.tensors@.len() - i,
        {
            proof {
                lemma_take_step(v, i as int);
                lemma_capped_add(bytes_sum(v.take(i as int)), bytes_of(v[i as int].shape, v[i as int].elem_size) as nat);
            }
            total = sat_add(total, self.tensors[i].size_bytes);
            i += 1;
        }
        proof {
            lemma_take_all(v);
        }
        total
    }

    /// Is a use of the tensor `t` recorded at the step `step` or a later one?
    fn is_used_from(&self, t: usize, step: usize) -> (r: bool)
        ensures
            r == used_from(self.spec_usage(), t, step),
    {
        let pairs = self.pairs();
        let mut k: usize = 0;
        while k < pairs.len()
            invariant
                k <= pairs@.len(),
                forall|p: (usize, usize)| #[trigger] pairs@.contains(p) <==> self.spec_usage().contains(p),
                forall|q: int| 0 <= q < k ==> !((#[trigger] pairs@[q]).0 >= step && pairs@[q].1 == t),
            decreases pairs@.len() - k,
        {
            let entry = pairs[k];
            if entry.0 >= step && entry.1 == t {
                proof {
                    assert(pairs@.contains((entry.0, t)));
                    assert(self.spec_usage().contains((entry.0, t)));
                }
                return true;
            }
            k += 1;
        }
        proof {
            if used_from(self.spec_usage(), t, step) {
                let s = choose|s: usize| s >= step && #[trigger] self.spec_usage().contains((s, t));
                assert(pairs@.contains((s, t)));
                let q = choose|q: int| 0 <= q < pairs@.len() && pairs@[q] == (s, t);
                assert(pairs@[q].0 >= step);
            }
        }
        false
    }

    /// The first tensor that can serve a request of `min_size` bytes for the shape
    /// `target_shape` at the step `step_idx`.
    fn find_reusable_allocation(&self, min_size: u64, target_shape: &[usize], step_idx: usize) -> (r: Option<usize>)
        requires
            self.wf(),
        ensures
            match r {
                Some(i) => i == first_reusable(
                    self.spec_tensors(),
                    self.spec_usage(),
                    min_size,
                    target_shape@,
                    step_idx,
                ) && i < self.spec_tensors().len(),
                None => first_reusable(self.spec_tensors(), self.spec_usage(), min_size, target_shape@, step_idx)
                    == self.spec_tensors().len(),
            },
    {
        let ghost v = self.spec_tensors();
        let ghost usage = self.spec_usage();
        let mut i: usize = 0;
        while i < self.tensors.len()
            invariant
                i <= self.tensors@.len(),
                self.wf(),
                v == self.spec_tensors(),
                usage == self.spec_usage(),
                first_reusable(v.take(i as int), usage, min_size, target_shape@, step_idx) == i,
            decreases self.tensors@.len() - i,
        {
            proof {
                lemma_take_step(v, i as int);
            }
            let t = &self.tensors[i];
            if t.size_bytes >= min_size && can_reuse_shape(t.shape.as_slice(), target_shape) && !self.is_used_from(
                i,
                step_idx,
            ) {
                proof {
                    lemma_first_reusable_stays(v, usage, min_size, target_shape@, step_idx, i as int + 1);
                }
                return Some(i);
            }
            i += 1;
        }
        proof {
            lemma_take_all(v);
        }
        None
    }

    /// Serves a request for a tensor of the given shape at the step `step_idx`.
    /// Where a limit is set and the request would exceed it, the request fails.
    /// Else the first tensor serves the request that is large enough, of a
    /// fitting shape and free: no use of it is recorded at this step or a later
    /// one. Where there is none, a new tensor is added at the end. Either way
    /// the use at this step is recorded, so that the tensor is not handed out
    /// again while it is in use.
    pub fn allocate(&mut self, shape: Vec<usize>, elem_size: usize, step_idx: usize) -> (res: Result<
        (usize, Allocation),
        EinsumError,
    >)
        requires
            old(self).wf(),
        ensures
            final(self).wf(),
            final(self).spec_max_size() == old(self).spec_max_size(),
            ({
                let before = old(self).spec_tensors();
                let usage = old(self).spec_usage();
                let limit = old(self).spec_max_size();
                let after = final(self).spec_tensors();
                let uses = final(self).spec_usage();
                let size = bytes_of(shape@, elem_size);
                let over = limit > 0 && capped(bytes_sum(before)) as nat + size as nat > limit;
                let found = first_reusable(before, usage, size, shape@, step_idx);
                match res {
                    Err(e) => over && e is MemoryError && after == before && uses == usage,
                    Ok((idx, Allocation::Reused { from })) => !over && from == found && found < before.len()
                        && serves(before, usage, found, size, shape@, step_idx) && !used_from(usage, from, step_idx)
                        && !used_after(usage, from, step_idx) && after == before && idx == from && uses
                        == usage.insert((step_idx, idx)),
                    Ok((idx, Allocation::Fresh)) => !over && found == before.len() && (forall|i: int|
                        0 <= i < before.len() ==> !serves(before, usage, i, size, shape@, step_idx)) && after
                        == before.push(InfoView { shape: shape@, elem_size: elem_size }) && idx == before.len()
                        && uses == usage.insert((step_idx, idx)),
                }
            }),
    {
        let size_bytes = compute_tensor_size(shape.as_slice(), elem_size);
        let ghost before = self.spec_tensors();
        let ghost usage = self.spec_usage();
        if self.max_size > 0 {
            let current = self.current_memory_usage();
            let fits = match current.checked_add(size_bytes) {
                Some(v) => v <= self.max_size as u64,
                None => false,
            };
            if !fits {
                let mut message = String::from_str("workspace limit exceeded: ");
                message.append(current.to_string().as_str());
                message.append(" + ");
                message.append(size_bytes.to_string().as_str());
                message.append(" > ");
                message.append(self.max_size.to_string().as_str());
                return Err(EinsumError::MemoryError { message });
            }
        }
        proof {
            lemma_first_reusable(before, usage, size_bytes, shape@, step_idx);
        }
        match self.find_reusable_allocation(size_bytes, shape.as_slice(), step_idx) {
            Some(i) => {
                self.mark_used(i, step_idx);
                proof {
                    assert(!used_from(usage, i, step_idx));
                    assert(!used_after(usage, i, step_idx)) by {
                        if used_after(usage, i, step_idx) {
                            let s = choose|s: usize| s > step_idx && #[trigger] usage.contains((s, i));
                            assert(s >= step_idx);
                        }
                    }
                }
                Ok((i, Allocation::Reused { from: i }))
            },
            None => {
                let idx = self.tensors.len();
                self.mark_used(idx, step_idx);
                self.tensors.push(TensorInfo { shape, elem_size, size_bytes });
                proof {
                    assert(self.spec_tensors() =~= before.push(InfoView { shape: shape@, elem_size: elem_size }));
                }
                Ok((idx, Allocation::Fresh))
            },
        }
    }

    /// The tensor at position `idx`.
    pub fn get(&self, idx: usize) -> (r: Option<&TensorInfo>)
        ensures
            r is Some <==> idx < self.spec_tensors().len(),
            r matches Some(t) ==> t.shape@ == self.spec_tensors()[idx as int].shape && t.elem_size
                == self.spec_tensors()[idx as int].elem_size,
    {
        if idx < self.tensors.len() {
            Some(&self.tensors[idx])
        } else {
            None
        }
    }

    /// The tensors that were used at `step_idx` or before and are not used at a
    /// later step, in increasing order.
    pub fn find_freed_after_step(&self, step_idx: usize) -> (r: Vec<usize>)
        ensures
            forall|a: int, b: int| 0 <= a < b < r@.len() ==> r@[a] < r@[b],
            forall|t: usize|
                r@.contains(t) <==> (used_by(self.spec_usage(), t, step_idx) && !used_after(
                    self.spec_usage(),
                    t,
                    step_idx,
                )),
    {
        let pairs = self.pairs();
        let ghost usage = self.spec_usage();
        let mut freed: Vec<usize> = Vec::new();
        let mut i: usize = 0;
        while i < pairs.len()
            invariant
                i <= pairs@.len(),
                forall|a: int, b: int| 0 <= a < b < freed@.len() ==> freed@[a] < freed@[b],
                forall|t: usize|
                    freed@.contains(t) <==> (listed_by(pairs@.take(i as int), t, step_idx) && !listed_after(
                        pairs@,
                        t,
                        step_idx,
                    )),
            decreases pairs@.len() - i,
        {
            let (s, t) = pairs[i];
            let ghost before = freed@;
            let ghost seen = pairs@.take(i as int);
            if s <= step_idx {
                let mut still_used = false;
                let mut k: usize = 0;
                while k < pairs.len()
                    invariant
                        k <= pairs@.len(),
                        still_used <==> exists|q: int|
                            0 <= q < k && (#[trigger] pairs@[q]).0 > step_idx && pairs@[q].1 == t,
                    decreases pairs@.len() - k,
                {
                    if pairs[k].0 > step_idx && pairs[k].1 == t {
                        still_used = true;
                    }
                    k += 1;
                }
                if !still_used {
                    insert_ordered(&mut freed, t);
                }
            }
            proof {
                lemma_take_step(pairs@, i as int);
                let next = pairs@.take(i + 1);
                assert forall|u: usize|
                    freed@.contains(u) <==> (listed_by(next, u, step_idx) && !listed_after(pairs@, u, step_idx)) by {
                    assert(before.contains(u) <==> (listed_by(seen, u, step_idx) && !listed_after(
                        pairs@,
                        u,
                        step_idx,
                    )));
                    if listed_by(seen, u, step_idx) {
                        let q = choose|q: int| 0 <= q < seen.len() && (#[trigger] seen[q]).0 <= step_idx && seen[q].1 == u;
                        assert(next[q] == seen[q]);
                    }
                    if listed_by(next, u, step_idx) {
                        let q = choose|q: int| 0 <= q < next.len() && (#[trigger] next[q]).0 <= step_idx && next[q].1 == u;
                        if q < i {
                            assert(seen[q] == next[q]);
                        }
                    }
                    if s <= step_idx && u == t {
                        assert(next[i as int] == (s, t));
                    }
                }
            }
            i += 1;
        }
        proof {
            lemma_take_all(pairs@);
            assert forall|t: usize|
                freed@.contains(t) <==> (used_by(usage, t, step_idx) && !used_after(usage, t, step_idx)) by {
                lemma_listed(pairs@, usage, t, step_idx);
            }
        }
        freed
    }

    /// The number of tensors.
    pub fn len(&self) -> (r: usize)
        ensures
            r == self.spec_tensors().len(),
    {
        self.tensors.len()
    }

    pub fn is_empty(&self) -> (r: bool)
        ensures
            r == (self.spec_tensors().len() == 0),
    {
        self.tensors.len() == 0
    }

    /// Forgets all tensors and all uses.
    pub fn clear(&mut self)
        ensures
            final(self).wf(),
            final(self).spec_tensors() == Seq::<InfoView>::empty(),
            final(self).spec_usage() == Set::<(usize, usize)>::empty(),
            final(self).spec_max_size() == old(self).spec_max_size(),
    {
        self.tensors = Vec::new();
        self.usage = BTreeMap::new();
        assert(self.spec_tensors() =~= Seq::<InfoView>::empty());
        assert(self.spec_usage() =~= Set::<(usize, usize)>::empty());
    }
}

impl Default for Workspace {
    fn default() -> (r: Self)
        ensures
            r.wf(),
            r.spec_tensors() == Seq::<InfoView>::empty(),
            r.spec_max_size() == 0,
    {
        Workspace::new(0)
    }
}

/// Puts `x` at its place in the increasing list `v`, unless `v` holds it.
pub fn insert_ordered(v: &mut Vec<usize>, x: usize)
    requires
        forall|a: int, b: int| 0 <= a < b < old(v)@.len() ==> old(v)@[a] < old(v)@[b],
    ensures
        forall|a: int, b: int| 0 <= a < b < final(v)@.len() ==> final(v)@[a] < final(v)@[b],
        forall|y: usize| #[trigger] final(v)@.contains(y) <==> (old(v)@.contains(y) || y == x),
{
    let mut i: usize = 0;
    while i < v.len() && v[i] < x
        invariant
            i <= v@.len(),
            v@ == old(v)@,
            forall|k: int| 0 <= k < i ==> v@[k] < x,
        decreases v@.len() - i,
    {
        i += 1;
    }
    if i < v.len() && v[i] == x {
        proof {
            assert forall|y: usize| #[trigger] v@.contains(y) <==> (old(v)@.contains(y) || y == x) by {
                if y == x {
                    assert(v@[i as int] == y);
                }
            }
        }
        return;
    }
    let ghost before = v@;
    v.insert(i, x);
    proof {
        assert forall|a: int, b: int| 0 <= a < b < v@.len() implies v@[a] < v@[b] by {
            if b < i {
                assert(v@[a] == before[a] && v@[b] == before[b]);
            } else if b == i {
                assert(v@[a] == before[a]);
            } else if a < i {
                assert(v@[a] == before[a] && v@[b] == before[b - 1]);
                if b - 1 > i {
                    assert(before[i as int] < before[b - 1]);
                }
            } else if a == i {
                assert(v@[b] == before[b - 1]);
                if b - 1 > i {
                    assert(before[i as int] < before[b - 1]);
                }
            } else {
                assert(v@[a] == before[a - 1] && v@[b] == before[b - 1]);
            }
        }
        assert(before == old(v)@);
        assert forall|y: usize| #[trigger] v@.contains(y) <==> (before.contains(y) || y == x) by {
            if before.contains(y) {
                let k = choose|k: int| 0 <= k < before.len() && before[k] == y;
                if k < i {
                    assert(v@[k] == y);
                } else {
                    assert(v@[k + 1] == y);
                }
            }
            if y == x {
                assert(v@[i as int] == y);
            }
            if v@.contains(y) {
                let k = choose|k: int| 0 <= k < v@.len() && v@[k] == y;
                if k < i {
                    assert(before[k] == y);
                } else if k > i {
                    assert(before[k - 1] == y);
                }
            }
        }
    }
}

/// The shape of the result of a contraction: the sizes of its indices, as the
/// operands bind them. It is an error where an index is bound by neither.
pub fn compute_contraction_output_shape(
    lhs_shape: &[usize],
    rhs_shape: &[usize],
    lhs_indices: &[char],
    rhs_indices: &[char],
    result_indices: &[char],
) -> (res: Result<Vec<usize>, EinsumError>)
    ensures
        ({
            let m = pair_bindings(lhs_shape@, rhs_shape@, lhs_indices@, rhs_indices@);
            match res {
                Ok(v) => first_unbound(m, result_indices@) == result_indices@.len() && v@ == bound_sizes(
                    m,
                    result_indices@,
                ),
                Err(e) => first_unbound(m, result_indices@) < result_indices@.len() && (e
                    matches EinsumError::ShapeError { message } && message@ == "missing dimension for index '"@
                    + seq![result_indices@[first_unbound(m, result_indices@)]] + "'"@),
            }
        }),
{
    let mut dim_map = DimMap::new();
    bind_into(&mut dim_map, lhs_indices, lhs_shape);
    bind_into(&mut dim_map, rhs_indices, rhs_shape);
    match lookup_all(&dim_map, result_indices) {
        Ok(v) => Ok(v),
        Err(c) => {
            let mut message = String::from_str("missing dimension for index '");
            let one = vec![c];
            message.append(crate::chars::string_of(one.as_slice()).as_str());
            message.append("'");
            proof {
                assert(one@ =~= seq![c]);
            }
            Err(EinsumError::ShapeError { message })
        },
    }
}

} // verus!
