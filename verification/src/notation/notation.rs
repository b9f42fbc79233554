//! A parsed einsum notation: input subscripts, the output subscript, and the
//! index classes derived from them.

use crate::chars::{
    contains_char, count_of, distinct, keep_not_in, lemma_contains_push, lemma_take_all, lemma_take_step,
};
use crate::index_set::IndexSet;
use crate::notation::subscript::{has_dots, named, spell, Index, Subscript};
use crate::chars::string_of;
use vstd::prelude::*;

verus! {

/// The views of a list of subscripts.
pub open spec fn views(v: Seq<Subscript>) -> Seq<Seq<Index>> {
    Seq::new(v.len(), |i: int| v[i]@)
}

/// All subscripts of the list are well formed.
pub open spec fn all_wf(v: Seq<Subscript>) -> bool {
    forall|i: int| 0 <= i < v.len() ==> (#[trigger] v[i]).wf()
}

/// The letters of all inputs, one input after the other.
pub open spec fn flat_letters(inputs: Seq<Seq<Index>>) -> Seq<char>
    decreases inputs.len(),
{
    if inputs.len() == 0 {
        Seq::empty()
    } else {
        flat_letters(inputs.drop_last()) + named(inputs.last())
    }
}

/// Some input has the letter `c`.
pub open spec fn in_some_input(inputs: Seq<Seq<Index>>, c: char) -> bool {
    exists|i: int| 0 <= i < inputs.len() && named(#[trigger] inputs[i]).contains(c)
}

/// Every input has the letter `c`.
pub open spec fn in_every_input(inputs: Seq<Seq<Index>>, c: char) -> bool {
    forall|i: int| 0 <= i < inputs.len() ==> named(#[trigger] inputs[i]).contains(c)
}

/// The contracted indices: letters of the inputs that the output lacks.
pub open spec fn contracted_set(inputs: Seq<Seq<Index>>, output: Seq<Index>) -> Set<char> {
    Set::new(|c: char| in_some_input(inputs, c) && !named(output).contains(c))
}

/// The batch indices: letters of the output that every input has.
pub open spec fn batch_set(inputs: Seq<Seq<Index>>, output: Seq<Index>) -> Set<char> {
    Set::new(|c: char| named(output).contains(c) && in_every_input(inputs, c))
}

/// Some subscript has an ellipsis.
pub open spec fn any_dots(inputs: Seq<Seq<Index>>, output: Seq<Index>) -> bool {
    has_dots(output) || exists|i: int| 0 <= i < inputs.len() && has_dots(#[trigger] inputs[i])
}

/// The input subscripts as they are written, separated by commas.
pub open spec fn spell_inputs(inputs: Seq<Seq<Index>>) -> Seq<char>
    decreases inputs.len(),
{
    if inputs.len() == 0 {
        Seq::empty()
    } else if inputs.len() == 1 {
        spell(inputs[0])
    } else {
        spell_inputs(inputs.drop_last()) + seq![','] + spell(inputs.last())
    }
}

/// The notation as it is written: inputs, `->`, output.
pub open spec fn spell_notation(inputs: Seq<Seq<Index>>, output: Seq<Index>) -> Seq<char> {
    spell_inputs(inputs) + seq!['-', '>'] + spell(output)
}

/// A letter is among the flat letters exactly if some input has it.
pub proof fn lemma_flat_letters(inputs: Seq<Seq<Index>>, c: char)
    ensures
        flat_letters(inputs).contains(c) <==> in_some_input(inputs, c),
    decreases inputs.len(),
{
    if inputs.len() > 0 {
        let t = inputs.drop_last();
        lemma_flat_letters(t, c);
        let a = flat_letters(t);
        let b = named(inputs.last());
        if (a + b).contains(c) {
            let k = choose|k: int| 0 <= k < (a + b).len() && (a + b)[k] == c;
            if k < a.len() {
                assert(a[k] == c);
                let i = choose|i: int| 0 <= i < t.len() && named(#[trigger] t[i]).contains(c);
                assert(inputs[i] == t[i]);
            } else {
                assert(b[k - a.len()] == c);
                assert(named(inputs[inputs.len() - 1]).contains(c));
            }
        }
        if in_some_input(inputs, c) {
            let i = choose|i: int| 0 <= i < inputs.len() && named(#[trigger] inputs[i]).contains(c);
            if i < t.len() {
                assert(t[i] == inputs[i]);
                assert(in_some_input(t, c));
                let k = choose|k: int| 0 <= k < a.len() && a[k] == c;
                assert((a + b)[k] == c);
            } else {
                let k = choose|k: int| 0 <= k < b.len() && b[k] == c;
                assert((a + b)[a.len() + k] == c);
            }
        }
    }
}

/// The letters of the output of the pairwise contraction of the inputs `a` and
/// `b`.
pub open spec fn pairwise_output(ins: Seq<Seq<Index>>, out: Seq<Index>, a: int, b: int) -> Seq<char> {
    let kept = crate::optimization::search::kept_letters(
        crate::optimization::greedy::input_letters(ins),
        a,
        b,
        named(out),
    );
    let internal = keep_not_in(crate::chars::keep_in(named(ins[a]), named(ins[b]).to_set()), kept.to_set());
    distinct(keep_not_in(named(ins[a]) + named(ins[b]), internal.to_set()))
}

/// The first `n` letters bound to the sizes at their positions, or to 1 where
/// the shape has no such position; a later binding replaces an earlier one.
pub open spec fn bind_padded(m: Map<char, usize>, letters: Seq<char>, shape: Seq<usize>, n: nat) -> Map<char, usize>
    decreases n,
{
    if n == 0 {
        m
    } else {
        bind_padded(m, letters, shape, (n - 1) as nat).insert(
            letters[n - 1],
            if n - 1 < shape.len() {
                shape[n - 1]
            } else {
                1usize
            },
        )
    }
}

/// The bindings that the first `k` inputs make, each with all of its letters.
pub open spec fn bind_padded_inputs(ins: Seq<Seq<Index>>, shapes: Seq<Seq<usize>>, batch: Seq<char>, k: nat) -> Map<
    char,
    usize,
>
    decreases k,
{
    if k == 0 {
        Map::empty()
    } else {
        let letters = crate::notation::subscript::expanded_letters(ins[k - 1], batch);
        bind_padded(bind_padded_inputs(ins, shapes, batch, (k - 1) as nat), letters, shapes[k - 1], letters.len())
    }
}

/// A parsed einsum notation.
#[derive(Debug)]
pub struct EinsumNotation {
    inputs: Vec<Subscript>,
    output: Subscript,
    contraction_indices: IndexSet,
    batch_indices: IndexSet,
    output_indices: Vec<char>,
    has_ellipsis: bool,
    original: Option<String>,
}

impl EinsumNotation {
    /// The input subscripts.
    pub closed spec fn spec_inputs(&self) -> Seq<Seq<Index>> {
        views(self.inputs@)
    }

    /// The output subscript.
    pub closed spec fn spec_output(&self) -> Seq<Index> {
        self.output@
    }

    /// The string that the notation was parsed from, if it is known.
    pub closed spec fn spec_original(&self) -> Option<Seq<char>> {
        match self.original {
            Some(s) => Some(s@),
            None => None,
        }
    }

    /// The derived index classes agree with the subscripts.
    pub closed spec fn wf(&self) -> bool {
        &&& all_wf(self.inputs@)
        &&& self.output.wf()
        &&& self.contraction_indices.wf()
        &&& self.batch_indices.wf()
        &&& self.contraction_indices@ == contracted_set(views(self.inputs@), self.output@)
        &&& self.batch_indices@ == batch_set(views(self.inputs@), self.output@)
        &&& self.output_indices@ == named(self.output@)
        &&& self.has_ellipsis == any_dots(views(self.inputs@), self.output@)
    }

    /// The notation with the given subscripts.
    pub fn new(inputs: Vec<Subscript>, output: Subscript) -> (r: Self)
        requires
            all_wf(inputs@),
            output.wf(),
        ensures
            r.wf(),
            r.spec_inputs() == views(inputs@),
            r.spec_output() == output@,
            r.spec_original() is None,
    {
        let ghost ins = views(inputs@);
        let output_indices = output.named_indices();
        let mut has_ellipsis = output.has_ellipsis();
        let mut contraction = IndexSet::new();
        let mut i: usize = 0;
        while i < inputs.len()
            invariant
                i <= inputs.len(),
                all_wf(inputs@),
                ins == views(inputs@),
                output_indices@ == named(output@),
                contraction.wf(),
                has_ellipsis == any_dots(ins.take(i as int), output@),
                forall|c: char| #[trigger]
                    contraction@.contains(c) <==> (in_some_input(ins.take(i as int), c) && !named(
                        output@,
                    ).contains(c)),
            decreases inputs.len() - i,
        {
            let sub = &inputs[i];
            assert(sub.wf());
            let letters = sub.named_indices();
            let ghost before = contraction@;
            let mut k: usize = 0;
            while k < letters.len()
                invariant
                    k <= letters.len(),
                    contraction.wf(),
                    output_indices@ == named(output@),
                    forall|c: char| #[trigger]
                        contraction@.contains(c) <==> (before.contains(c) || (letters@.take(
                            k as int,
                        ).contains(c) && !named(output@).contains(c))),
                decreases letters.len() - k,
            {
                let c = letters[k];
                let ghost prior = contraction@;
                if !contains_char(output_indices.as_slice(), c) {
                    contraction.insert(c);
                }
                proof {
                    lemma_take_step(letters@, k as int);
                    assert forall|x: char| #[trigger]
                        contraction@.contains(x) <==> (before.contains(x) || (letters@.take(k + 1).contains(x)
                            && !named(output@).contains(x))) by {
                        lemma_contains_push(letters@.take(k as int), c, x);
                        assert(prior.contains(x) <==> (before.contains(x) || (letters@.take(k as int).contains(x)
                            && !named(output@).contains(x))));
                    }
                }
                k += 1;
            }
            proof {
                lemma_take_all(letters@);
                lemma_take_step(ins, i as int);
                let prev = ins.take(i as int);
                let next = ins.take(i + 1);
                assert(ins[i as int] == inputs@[i as int]@);
                assert forall|c: char| in_some_input(next, c) <==> (in_some_input(prev, c) || letters@.contains(c)) by {
                    if in_some_input(next, c) {
                        let j = choose|j: int| 0 <= j < next.len() && named(#[trigger] next[j]).contains(c);
                        if j < i {
                            assert(prev[j] == next[j]);
                        }
                    }
                    if in_some_input(prev, c) {
                        let j = choose|j: int| 0 <= j < prev.len() && named(#[trigger] prev[j]).contains(c);
                        assert(prev[j] == next[j]);
                    }
                    if letters@.contains(c) {
                        assert(named(next[i as int]).contains(c));
                    }
                }
                assert(any_dots(next, output@) <==> (any_dots(prev, output@) || has_dots(ins[i as int]))) by {
                    if any_dots(next, output@) && !has_dots(output@) {
                        let j = choose|j: int| 0 <= j < next.len() && has_dots(#[trigger] next[j]);
                        if j < i {
                            assert(prev[j] == next[j]);
                        }
                    }
                    if any_dots(prev, output@) && !has_dots(output@) {
                        let j = choose|j: int| 0 <= j < prev.len() && has_dots(#[trigger] prev[j]);
                        assert(prev[j] == next[j]);
                    }
                    if has_dots(ins[i as int]) {
                        assert(has_dots(next[i as int]));
                    }
                }
                assert forall|c: char| #[trigger]
                    contraction@.contains(c) <==> (in_some_input(next, c) && !named(output@).contains(c)) by {
                    assert(before.contains(c) <==> (in_some_input(prev, c) && !named(output@).contains(c)));
                    assert(in_some_input(next, c) <==> (in_some_input(prev, c) || letters@.contains(c)));
                }
            }
            if sub.has_ellipsis() {
                has_ellipsis = true;
            }
            i += 1;
        }
        let mut batch = IndexSet::new();
        let mut k: usize = 0;
        while k < output_indices.len()
            invariant
                k <= output_indices.len(),
                all_wf(inputs@),
                ins == views(inputs@),
                output_indices@ == named(output@),
                batch.wf(),
                forall|c: char| #[trigger]
                    batch@.contains(c) <==> (output_indices@.take(k as int).contains(c) && in_every_input(
                        ins,
                        c,
                    )),
            decreases output_indices.len() - k,
        {
            let c = output_indices[k];
            let mut everywhere = true;
            let mut j: usize = 0;
            while j < inputs.len()
                invariant
                    j <= inputs.len(),
                    ins == views(inputs@),
                    everywhere <==> forall|q: int| 0 <= q < j ==> named(#[trigger] ins[q]).contains(c),
                decreases inputs.len() - j,
            {
                assert(ins[j as int] == inputs@[j as int]@);
                if !inputs[j].contains(c) {
                    everywhere = false;
                }
                j += 1;
            }
            let ghost prior = batch@;
            if everywhere {
                batch.insert(c);
            }
            proof {
                lemma_take_step(output_indices@, k as int);
                assert(everywhere <==> in_every_input(ins, c));
                assert forall|x: char| #[trigger]
                    batch@.contains(x) <==> (output_indices@.take(k + 1).contains(x) && in_every_input(ins, x)) by {
                    lemma_contains_push(output_indices@.take(k as int), c, x);
                    assert(prior.contains(x) <==> (output_indices@.take(k as int).contains(x) && in_every_input(
                        ins,
                        x,
                    )));
                }
            }
            k += 1;
        }
        proof {
            lemma_take_all(ins);
            lemma_take_all(output_indices@);
            assert(contraction@ =~= contracted_set(ins, output@));
            assert(batch@ =~= batch_set(ins, output@));
        }
        EinsumNotation {
            inputs,
            output,
            contraction_indices: contraction,
            batch_indices: batch,
            output_indices,
            has_ellipsis,
            original: None,
        }
    }

    /// Records the string that the notation was parsed from.
    pub fn with_original(self, original: &str) -> (r: Self)
        requires
            self.wf(),
        ensures
            r.wf(),
            r.spec_inputs() == self.spec_inputs(),
            r.spec_output() == self.spec_output(),
            r.spec_original() == Some(original@),
    {
        let mut r = self;
        r.original = Some(original.to_owned());
        r
    }

    /// The input subscripts.
    pub fn inputs(&self) -> (r: &[Subscript])
        requires
            self.wf(),
        ensures
            views(r@) == self.spec_inputs(),
            all_wf(r@),
    {
        self.inputs.as_slice()
    }

    /// The output subscript.
    pub fn output(&self) -> (r: &Subscript)
        requires
            self.wf(),
        ensures
            r@ == self.spec_output(),
            r.wf(),
    {
        &self.output
    }

    /// The number of inputs.
    pub fn num_inputs(&self) -> (r: usize)
        ensures
            r == self.spec_inputs().len(),
    {
        self.inputs.len()
    }

    /// The indices that are summed over.
    pub fn contraction_indices(&self) -> (r: &IndexSet)
        requires
            self.wf(),
        ensures
            r.wf(),
            r@ == contracted_set(self.spec_inputs(), self.spec_output()),
    {
        &self.contraction_indices
    }

    /// The indices that every input and the output have.
    pub fn batch_indices(&self) -> (r: &IndexSet)
        requires
            self.wf(),
        ensures
            r.wf(),
            r@ == batch_set(self.spec_inputs(), self.spec_output()),
    {
        &self.batch_indices
    }

    /// The letters of the output, in order.
    pub fn output_indices(&self) -> (r: &[char])
        requires
            self.wf(),
        ensures
            r@ == named(self.spec_output()),
    {
        self.output_indices.as_slice()
    }

    pub fn has_ellipsis(&self) -> (r: bool)
        requires
            self.wf(),
        ensures
            r == any_dots(self.spec_inputs(), self.spec_output()),
    {
        self.has_ellipsis
    }

    /// Is there exactly one input?
    pub fn is_unary(&self) -> (r: bool)
        ensures
            r == (self.spec_inputs().len() == 1),
    {
        self.inputs.len() == 1
    }

    /// Are there exactly two inputs?
    pub fn is_binary(&self) -> (r: bool)
        ensures
            r == (self.spec_inputs().len() == 2),
    {
        self.inputs.len() == 2
    }

    /// Is nothing summed over?
    pub fn is_permutation_only(&self) -> (r: bool)
        requires
            self.wf(),
        ensures
            r == (contracted_set(self.spec_inputs(), self.spec_output()) == Set::<char>::empty()),
            r == (forall|c: char| in_some_input(self.spec_inputs(), c) ==> named(self.spec_output()).contains(c)),
    {
        proof {
            let s = contracted_set(self.spec_inputs(), self.spec_output());
            if s == Set::<char>::empty() {
                assert forall|c: char| in_some_input(self.spec_inputs(), c) implies named(
                    self.spec_output(),
                ).contains(c) by {
                    assert(!s.contains(c));
                }
            } else {
                if forall|c: char| in_some_input(self.spec_inputs(), c) ==> named(self.spec_output()).contains(c) {
                    assert(s =~= Set::<char>::empty());
                }
            }
        }
        self.contraction_indices.is_empty()
    }

    /// Is the output a scalar: an empty subscript, or an ellipsis alone?
    pub fn is_scalar_output(&self) -> (r: bool)
        requires
            self.wf(),
        ensures
            r == (self.spec_output().len() == 0 || (self.spec_output().len() == 1 && has_dots(
                self.spec_output(),
            ))),
    {
        self.output.is_empty() || (self.output.len() == 1 && self.output.has_ellipsis())
    }

    /// All letters of the inputs and of the output.
    pub fn all_indices(&self) -> (r: IndexSet)
        requires
            self.wf(),
        ensures
            r.wf(),
            forall|c: char|
                r@.contains(c) <==> (in_some_input(self.spec_inputs(), c) || named(self.spec_output()).contains(
                    c,
                )),
    {
        let mut all = IndexSet::from_chars(self.output_indices.as_slice());
        let ghost ins = views(self.inputs@);
        let mut i: usize = 0;
        while i < self.inputs.len()
            invariant
                i <= self.inputs.len(),
                ins == views(self.inputs@),
                all.wf(),
                forall|c: char| #[trigger]
                    all@.contains(c) <==> ((exists|q: int|
                        0 <= q < i && named(#[trigger] ins[q]).contains(c)) || self.output_indices@.contains(c)),
            decreases self.inputs.len() - i,
        {
            let letters = self.inputs[i].named_indices();
            assert(ins[i as int] == self.inputs@[i as int]@);
            let ghost before = all@;
            let mut k: usize = 0;
            while k < letters.len()
                invariant
                    k <= letters.len(),
                    all.wf(),
                    forall|c: char| #[trigger]
                        all@.contains(c) <==> (before.contains(c) || letters@.take(k as int).contains(c)),
                decreases letters.len() - k,
            {
                let ghost prior = all@;
                all.insert(letters[k]);
                proof {
                    lemma_take_step(letters@, k as int);
                    assert forall|x: char| #[trigger]
                        all@.contains(x) <==> (before.contains(x) || letters@.take(k + 1).contains(x)) by {
                        lemma_contains_push(letters@.take(k as int), letters@[k as int], x);
                        assert(prior.contains(x) <==> (before.contains(x) || letters@.take(k as int).contains(x)));
                    }
                }
                k += 1;
            }
            proof {
                lemma_take_all(letters@);
                assert forall|c: char| #[trigger]
                    all@.contains(c) <==> ((exists|q: int|
                        0 <= q < i + 1 && named(#[trigger] ins[q]).contains(c)) || self.output_indices@.contains(
                        c,
                    )) by {
                    assert(before.contains(c) <==> ((exists|q: int|
                        0 <= q < i && named(#[trigger] ins[q]).contains(c)) || self.output_indices@.contains(c)));
                    if letters@.contains(c) {
                        assert(named(ins[i as int]).contains(c));
                    }
                    if exists|q: int| 0 <= q < i + 1 && named(#[trigger] ins[q]).contains(c) {
                        let q = choose|q: int| 0 <= q < i + 1 && named(#[trigger] ins[q]).contains(c);
                        if q == i {
                            assert(letters@.contains(c));
                        }
                    }
                }
            }
            i += 1;
        }
        all
    }

    /// How often `c` occurs in the inputs; `usize::MAX` where the count is
    /// larger than that.
    pub fn count_in_inputs(&self, c: char) -> (r: usize)
        ensures
            r == (if count_of(flat_letters(self.spec_inputs()), c) > usize::MAX {
                usize::MAX as nat
            } else {
                count_of(flat_letters(self.spec_inputs()), c)
            }),
    {
        let ghost ins = views(self.inputs@);
        let mut total: usize = 0;
        let mut i: usize = 0;
        while i < self.inputs.len()
            invariant
                i <= self.inputs.len(),
                ins == views(self.inputs@),
                total == (if count_of(flat_letters(ins.take(i as int)), c) > usize::MAX {
                    usize::MAX as nat
                } else {
                    count_of(flat_letters(ins.take(i as int)), c)
                }),
            decreases self.inputs.len() - i,
        {
            proof {
                lemma_take_step(ins, i as int);
                crate::chars::lemma_count_of_add(flat_letters(ins.take(i as int)), named(ins[i as int]), c);
                assert(ins[i as int] == self.inputs@[i as int]@);
            }
            let n = self.inputs[i].count(c);
            total = match total.checked_add(n) {
                Some(v) => v,
                None => usize::MAX,
            };
            i += 1;
        }
        proof {
            lemma_take_all(ins);
        }
        total
    }

    /// The positions of the inputs that have the letter `c`, ascending.
    pub fn inputs_containing(&self, c: char) -> (r: Vec<usize>)
        ensures
            forall|k: int| 0 <= k < r@.len() ==> r@[k] < self.spec_inputs().len() && named(
                self.spec_inputs()[r@[k] as int],
            ).contains(c),
            forall|a: int, b: int| 0 <= a < b < r@.len() ==> r@[a] < r@[b],
            forall|i: int|
                0 <= i < self.spec_inputs().len() && named(#[trigger] self.spec_inputs()[i]).contains(c)
                    ==> r@.contains(i as usize),
    {
        let ghost ins = views(self.inputs@);
        let mut out: Vec<usize> = Vec::new();
        let mut i: usize = 0;
        while i < self.inputs.len()
            invariant
                i <= self.inputs.len(),
                ins == views(self.inputs@),
                forall|k: int| 0 <= k < out@.len() ==> out@[k] < i && named(ins[out@[k] as int]).contains(c),
                forall|a: int, b: int| 0 <= a < b < out@.len() ==> out@[a] < out@[b],
                forall|q: int| 0 <= q < i && named(#[trigger] ins[q]).contains(c) ==> out@.contains(q as usize),
            decreases self.inputs.len() - i,
        {
            assert(ins[i as int] == self.inputs@[i as int]@);
            if self.inputs[i].contains(c) {
                let ghost before = out@;
                out.push(i);
                proof {
                    assert forall|q: int| 0 <= q < i + 1 && named(#[trigger] ins[q]).contains(c) implies out@.contains(
                        q as usize,
                    ) by {
                        lemma_contains_push(before, i, q as usize);
                    }
                }
            }
            i += 1;
        }
        out
    }

    /// Is `c` summed over?
    pub fn is_contracted(&self, c: char) -> (r: bool)
        requires
            self.wf(),
        ensures
            r == (in_some_input(self.spec_inputs(), c) && !named(self.spec_output()).contains(c)),
    {
        self.contraction_indices.contains(&c)
    }

    /// Is `c` a batch index?
    pub fn is_batch(&self, c: char) -> (r: bool)
        requires
            self.wf(),
        ensures
            r == (named(self.spec_output()).contains(c) && in_every_input(self.spec_inputs(), c)),
    {
        self.batch_indices.contains(&c)
    }

    /// The notation of the contraction of two of the inputs. Its output has the
    /// letters of both, in their order and each once, without those that both
    /// have and that neither the output nor another input needs.
    pub fn pairwise(&self, input_a: usize, input_b: usize) -> (r: EinsumNotation)
        requires
            self.wf(),
            input_a < self.spec_inputs().len(),
            input_b < self.spec_inputs().len(),
        ensures
            r.wf(),
            r.spec_inputs() == seq![self.spec_inputs()[input_a as int], self.spec_inputs()[input_b as int]],
            !has_dots(r.spec_output()),
            named(r.spec_output()) == pairwise_output(
                self.spec_inputs(),
                self.spec_output(),
                input_a as int,
                input_b as int,
            ),
    {
        let ghost ins = self.spec_inputs();
        assert(self.inputs@[input_a as int].wf() && self.inputs@[input_b as int].wf());
        assert(ins[input_a as int] == self.inputs@[input_a as int]@);
        assert(ins[input_b as int] == self.inputs@[input_b as int]@);
        let sub_a = self.inputs[input_a].clone();
        let sub_b = self.inputs[input_b].clone();
        let a = sub_a.named_indices();
        let b = sub_b.named_indices();
        let all = crate::optimization::greedy::owned_indices(self);
        let kept = crate::optimization::search::letters_kept(
            all.as_slice(),
            input_a,
            input_b,
            self.output_indices.as_slice(),
        );
        let common = crate::chars::keep_letters_in(a.as_slice(), b.as_slice());
        let internal = crate::chars::keep_letters_not_in(common.as_slice(), kept.as_slice());
        let output_chars = crate::chars::merge_letters(a.as_slice(), b.as_slice(), internal.as_slice());
        let pairwise_out = Subscript::from_chars(output_chars.as_slice());
        let mut inputs: Vec<Subscript> = Vec::new();
        inputs.push(sub_a);
        inputs.push(sub_b);
        proof {
            assert(views(inputs@) =~= seq![ins[input_a as int], ins[input_b as int]]);
        }
        EinsumNotation::new(inputs, pairwise_out)
    }

    /// The shape of the output for operands of the given shapes, where the
    /// ellipsis stands for `ellipsis_dims` axes. As many operands are looked at as
    /// there are shapes.
    pub fn compute_output_shape(&self, input_shapes: &[&[usize]], ellipsis_dims: usize) -> (res: Result<
        Vec<usize>,
        crate::error::EinsumError,
    >)
        requires
            self.wf(),
            ellipsis_dims <= MAX_ELLIPSIS_DIMS,
        ensures
            ({
                let ins = self.spec_inputs();
                let batch = batch_letters(ellipsis_dims as nat);
                let count = crate::optimization::cost::shorter(ins.len(), input_shapes@.len());
                let bound = crate::notation::validation::bind_inputs(
                    ins,
                    crate::notation::validation::shape_views(input_shapes@),
                    batch,
                    count,
                );
                let letters = crate::notation::subscript::expanded_letters(self.spec_output(), batch);
                match res {
                    Ok(v) => bound matches Ok(m) && crate::notation::validation::first_unbound(m, letters)
                        == letters.len() && v@ == crate::dims::bound_sizes(m, letters),
                    Err(e) => match bound {
                        Err(f) => crate::notation::validation::reports_fault(e, f, ins),
                        Ok(m) => crate::notation::validation::first_unbound(m, letters) < letters.len() && (e
                            matches crate::error::EinsumError::OutputIndexNotInInputs { index } && index
                            == letters[crate::notation::validation::first_unbound(m, letters)]),
                    },
                }
            }),
    {
        let batch = generate_batch_indices(ellipsis_dims);
        let count = if self.inputs.len() <= input_shapes.len() {
            self.inputs.len()
        } else {
            input_shapes.len()
        };
        let dim_map = match crate::notation::validation::build_dimension_map(
            self,
            input_shapes,
            batch.as_slice(),
            count,
        ) {
            Ok(m) => m,
            Err(e) => {
                return Err(e);
            },
        };
        let expanded = self.output.expand_ellipsis(batch.as_slice());
        let letters = expanded.named_indices();
        match crate::notation::validation::lookup_all(&dim_map, letters.as_slice()) {
            Ok(v) => Ok(v),
            Err(c) => Err(crate::error::EinsumError::OutputIndexNotInInputs { index: c }),
        }
    }

    /// The operations of the whole operation: two for every element of the
    /// output and every combination of contracted indices, capped at `u64::MAX`.
    /// An index takes the size of the last axis that it names; an axis that a
    /// shape lacks counts as 1.
    pub fn compute_flops(&self, input_shapes: &[&[usize]], ellipsis_dims: usize) -> (r: u64)
        requires
            self.wf(),
            ellipsis_dims <= MAX_ELLIPSIS_DIMS,
        ensures
            ({
                let ins = self.spec_inputs();
                let batch = batch_letters(ellipsis_dims as nat);
                let count = crate::optimization::cost::shorter(ins.len(), input_shapes@.len());
                let m = bind_padded_inputs(ins, crate::notation::validation::shape_views(input_shapes@), batch, count);
                let letters = crate::notation::subscript::expanded_letters(self.spec_output(), batch);
                r == crate::dims::capped(
                    crate::dims::product(crate::dims::bound_sizes(m, letters)) * crate::dims::product(
                        crate::dims::bound_sizes(
                            m,
                            crate::index_set::ordered(
                                crate::notation::validation::keep_contracted(ins, self.spec_output()),
                            ),
                        ),
                    ) * 2,
                )
            }),
    {
        let ghost ins = self.spec_inputs();
        let ghost sv = crate::notation::validation::shape_views(input_shapes@);
        let batch = generate_batch_indices(ellipsis_dims);
        let mut dim_map = crate::tables::DimMap::new();
        let mut i: usize = 0;
        while i < self.inputs.len() && i < input_shapes.len()
            invariant
                i <= self.inputs@.len(),
                i <= input_shapes@.len(),
                self.wf(),
                ins == views(self.inputs@),
                sv == crate::notation::validation::shape_views(input_shapes@),
                crate::tables::dim_bindings(dim_map) == bind_padded_inputs(ins, sv, batch@, i as nat),
            decreases self.inputs@.len() - i,
        {
            assert(self.inputs@[i as int].wf());
            assert(ins[i as int] == self.inputs@[i as int]@);
            assert(sv[i as int] == input_shapes@[i as int]@);
            let expanded = self.inputs[i].expand_ellipsis(batch.as_slice());
            let letters = expanded.named_indices();
            let shape = input_shapes[i];
            let ghost start = crate::tables::dim_bindings(dim_map);
            let mut k: usize = 0;
            while k < letters.len()
                invariant
                    k <= letters@.len(),
                    crate::tables::dim_bindings(dim_map) == bind_padded(start, letters@, shape@, k as nat),
                decreases letters@.len() - k,
            {
                let d = if k < shape.len() {
                    shape[k]
                } else {
                    1
                };
                dim_map.insert(letters[k], d);
                k += 1;
            }
            i += 1;
        }
        let expanded_output = self.output.expand_ellipsis(batch.as_slice());
        let out_letters = expanded_output.named_indices();
        let out_sizes = crate::dims::lookup_bound(&dim_map, out_letters.as_slice());
        let contracted = self.contraction_indices.to_vec();
        proof {
            let out = self.spec_output();
            crate::chars::lemma_keep_not_in(flat_letters(ins), named(out).to_set());
            assert forall|c: char|
                contracted_set(ins, out).contains(c) <==> crate::notation::validation::keep_contracted(
                    ins,
                    out,
                ).contains(c) by {
                lemma_flat_letters(ins, c);
            }
            self.contraction_indices.lemma_elements_of(crate::notation::validation::keep_contracted(ins, out));
        }
        let contracted_sizes = crate::dims::lookup_bound(&dim_map, contracted.as_slice());
        let a = crate::dims::element_count(out_sizes.as_slice());
        let b = crate::dims::element_count(contracted_sizes.as_slice());
        proof {
            let x = crate::dims::product(out_sizes@);
            let y = crate::dims::product(contracted_sizes@);
            crate::dims::lemma_capped_mul(x, y);
            crate::dims::lemma_capped_mul(x * y, 2);
        }
        crate::dims::sat_mul(crate::dims::sat_mul(a, b), 2)
    }

    /// The notation as it is written, with `,` between the inputs and `->` before
    /// the output.
    pub fn to_string(&self) -> (r: String)
        ensures
            r@ == spell_notation(self.spec_inputs(), self.spec_output()),
    {
        let ghost ins = views(self.inputs@);
        let mut text: Vec<char> = Vec::new();
        let mut i: usize = 0;
        while i < self.inputs.len()
            invariant
                i <= self.inputs.len(),
                ins == views(self.inputs@),
                text@ == spell_inputs(ins.take(i as int)),
            decreases self.inputs.len() - i,
        {
            proof {
                lemma_take_step(ins, i as int);
                assert(ins[i as int] == self.inputs@[i as int]@);
                if i == 1 {
                    assert(ins.take(1)[0] == ins[0]);
                }
            }
            if i > 0 {
                text.push(',');
            }
            let letters = self.inputs[i].to_string();
            let ghost before = text@;
            append_text(&mut text, letters.as_str());
            proof {
                if i > 0 {
                    assert(before =~= spell_inputs(ins.take(i as int)) + seq![',']);
                } else {
                    assert(text@ =~= spell(ins[0]));
                    assert(ins.take(1)[0] == ins[0]);
                }
            }
            i += 1;
        }
        proof {
            lemma_take_all(ins);
        }
        let ghost before = text@;
        text.push('-');
        text.push('>');
        assert(text@ =~= before + seq!['-', '>']);
        let out = self.output.to_string();
        append_text(&mut text, out.as_str());
        string_of(text.as_slice())
    }
}

/// The largest number of axes that an ellipsis can stand for: the letters that
/// name them lie between `U+2460` and the surrogates.
pub const MAX_ELLIPSIS_DIMS: usize = 0xB3A0;

/// The letter that names the `i`-th axis of an ellipsis. These letters start at
/// `U+2460`, outside the letters that a notation can hold.
pub open spec fn batch_letter(i: int) -> char {
    (0x2460 + i) as char
}

/// The letters that name `n` axes of an ellipsis.
pub open spec fn batch_letters(n: nat) -> Seq<char> {
    Seq::new(n, |i: int| batch_letter(i))
}

/// The letters that name `count` axes of an ellipsis.
pub fn generate_batch_indices(count: usize) -> (r: Vec<char>)
    requires
        count <= MAX_ELLIPSIS_DIMS,
    ensures
        r@ == batch_letters(count as nat),
{
    let mut out: Vec<char> = Vec::new();
    let mut i: usize = 0;
    while i < count
        invariant
            i <= count <= MAX_ELLIPSIS_DIMS,
            out@.len() == i,
            forall|k: int| 0 <= k < i ==> out@[k] == batch_letter(k),
        decreases count - i,
    {
        let n: u32 = 0x2460 + i as u32;
        match crate::tables::char_at(n) {
            Some(c) => {
                out.push(c);
            },
            None => {
                assert(false);
            },
        }
        i += 1;
    }
    assert(out@ =~= batch_letters(count as nat));
    out
}

/// Appends the characters of `s` to `text`.
pub fn append_text(text: &mut Vec<char>, s: &str)
    ensures
        final(text)@ == old(text)@ + s@,
{
    let ghost start = text@;
    assert(start + s@.take(0) =~= start);
    for c in it: s.chars()
        invariant
            text@ == start + it.seq().take(it.index() as int),
            it.seq() == s@,
    {
        proof {
            lemma_take_step(s@, it.index() as int);
            assert((start + s@.take(it.index() as int)).push(s@[it.index() as int]) =~= start + s@.take(
                it.index() + 1,
            ));
        }
        text.push(c);
    }
    proof {
        lemma_take_all(s@);
    }
}

/// The characters of `s`.
pub fn text_of(s: &str) -> (r: Vec<char>)
    ensures
        r@ == s@,
{
    let mut v: Vec<char> = Vec::new();
    append_text(&mut v, s);
    assert(Seq::<char>::empty() + s@ =~= s@);
    v
}

} // verus!
