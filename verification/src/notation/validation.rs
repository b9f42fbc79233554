//! Validation of a notation, and of operand shapes against a notation.

use crate::chars::{count_of, lemma_take_all, lemma_take_step};
use crate::dims::{bound_sizes, capped, element_count, lemma_capped_add, lemma_capped_mul, lookup_bound, product, sat_add, sat_mul, total_elements};
use crate::error::EinsumError;
use crate::notation::notation::{
    all_wf, any_dots, batch_letters, contracted_set, flat_letters, generate_batch_indices, lemma_flat_letters, views,
    EinsumNotation, MAX_ELLIPSIS_DIMS,
};
use crate::notation::parser::count_cap;
use crate::notation::subscript::{expanded_letters, has_dots, named, spell, Index};
use crate::index_set::ordered;
use crate::tables::{dim_bindings, DimMap};
use vstd::prelude::*;
use vstd::string::StringExecFns;

verus! {

/// The kinds of fault that validation finds.
pub enum FaultKind {
    /// The output has a letter that no input has.
    MissingOutput,
    /// A letter occurs more than three times in all.
    TooOften,
    /// Some input has an ellipsis and another has none.
    InputsDiffer,
    /// The inputs have ellipses and the output has none.
    OutputLacks,
    /// The number of shapes is not the number of inputs.
    Arity,
    /// An operand's rank does not fit its subscript.
    Rank,
    /// Two ellipses stand for different numbers of axes.
    Width,
    /// An ellipsis stands for more axes than there are names for them.
    TooWide,
    /// A letter is bound to two sizes.
    Size,
}

/// A fault: its kind, the letter it concerns, the input it was found at, and the
/// expected and the found number. Parts that a kind does not use are `' '` and 0.
pub type Fault = (FaultKind, char, int, int, int);

/// The position of the first letter of `s` that fails `ok`, or `s.len()`.
pub open spec fn first_not_in(s: Seq<char>, keep: Seq<char>) -> int
    decreases s.len(),
{
    if s.len() == 0 {
        0
    } else {
        let p = first_not_in(s.drop_last(), keep);
        if p < s.len() - 1 {
            p
        } else if !keep.contains(s.last()) {
            s.len() - 1
        } else {
            s.len() as int
        }
    }
}

/// The position of the first letter of `s` that occurs more than three times in
/// `whole`, or `s.len()`.
pub open spec fn first_too_often(s: Seq<char>, whole: Seq<char>) -> int
    decreases s.len(),
{
    if s.len() == 0 {
        0
    } else {
        let p = first_too_often(s.drop_last(), whole);
        if p < s.len() - 1 {
            p
        } else if count_of(whole, s.last()) > 3 {
            s.len() - 1
        } else {
            s.len() as int
        }
    }
}

/// Every input has an ellipsis.
pub open spec fn all_inputs_dotted(ins: Seq<Seq<Index>>) -> bool {
    forall|i: int| 0 <= i < ins.len() ==> has_dots(#[trigger] ins[i])
}

/// The first fault of a notation, if it has one: an output letter that no
/// input has; else a letter that occurs more than three times in inputs and
/// output together; else an ellipsis that some subscript has and another lacks.
pub open spec fn notation_fault(ins: Seq<Seq<Index>>, out: Seq<Index>) -> Option<Fault> {
    let flat = flat_letters(ins);
    let all = flat + named(out);
    let missing = first_not_in(named(out), flat);
    let often = first_too_often(all, all);
    if missing < named(out).len() {
        Some((FaultKind::MissingOutput, named(out)[missing], 0int, 0int, 0int))
    } else if often < all.len() {
        Some((FaultKind::TooOften, all[often], 0int, 3int, count_cap(count_of(all, all[often])) as int))
    } else if any_dots(ins, out) && !all_inputs_dotted(ins) {
        Some((FaultKind::InputsDiffer, ' ', 0int, 0int, 0int))
    } else if any_dots(ins, out) && !has_dots(out) {
        Some((FaultKind::OutputLacks, ' ', 0int, 0int, 0int))
    } else {
        None
    }
}

/// The error that reports a fault.
pub open spec fn reports_fault(e: EinsumError, f: Fault, ins: Seq<Seq<Index>>) -> bool {
    match f.0 {
        FaultKind::MissingOutput => e matches EinsumError::OutputIndexNotInInputs { index } && index == f.1,
        FaultKind::TooOften => e matches EinsumError::IndexAppearsMoreThanTwice { index, count } && index
            == f.1 && count == f.4,
        FaultKind::InputsDiffer => e matches EinsumError::InconsistentEllipsis { message } && message@
            == "if any input has ellipsis, all inputs should have ellipsis"@,
        FaultKind::OutputLacks => e matches EinsumError::InconsistentEllipsis { message } && message@
            == "output must have ellipsis when inputs do"@,
        FaultKind::Arity => e matches EinsumError::ParseError { message } && message@ == "expected "@
            + crate::chars::decimal(f.3 as nat) + " input shapes, got "@ + crate::chars::decimal(f.4 as nat),
        FaultKind::Rank => e matches EinsumError::DimensionMismatch { subscript, expected, got }
            && 0 <= f.2 < ins.len() && subscript@ == spell(ins[f.2]) && expected == f.3 && got == f.4,
        FaultKind::Width => e matches EinsumError::EllipsisDimensionMismatch { expected, got } && expected
            == f.3 && got == f.4,
        FaultKind::TooWide => e matches EinsumError::Unsupported { message } && message@
            == "an ellipsis stands for too many axes"@,
        FaultKind::Size => e matches EinsumError::ShapeMismatch { index, expected, got } && index == f.1
            && expected == f.3 && got == f.4,
    }
}

/// The first position at which `letters` has a letter outside `keep`.
fn find_not_in(letters: &[char], keep: &[char]) -> (r: usize)
    ensures
        r == first_not_in(letters@, keep@),
        r <= letters@.len(),
{
    let mut i: usize = 0;
    while i < letters.len()
        invariant
            i <= letters.len(),
            first_not_in(letters@.take(i as int), keep@) == i,
        decreases letters.len() - i,
    {
        proof {
            lemma_take_step(letters@, i as int);
        }
        if !crate::chars::contains_char(keep, letters[i]) {
            proof {
                lemma_first_not_in_stays(letters@, keep@, i as int + 1);
            }
            return i;
        }
        i += 1;
    }
    proof {
        lemma_take_all(letters@);
    }
    i
}

/// Once found, the first position stays the first.
proof fn lemma_first_not_in_stays(s: Seq<char>, keep: Seq<char>, n: int)
    requires
        0 <= n <= s.len(),
        first_not_in(s.take(n), keep) < n,
    ensures
        first_not_in(s, keep) == first_not_in(s.take(n), keep),
    decreases s.len() - n,
{
    if n < s.len() {
        lemma_take_step(s, n);
        lemma_first_not_in_stays(s, keep, n + 1);
    } else {
        lemma_take_all(s);
    }
}

/// Once found, the first position stays the first.
proof fn lemma_first_too_often_stays(s: Seq<char>, whole: Seq<char>, n: int)
    requires
        0 <= n <= s.len(),
        first_too_often(s.take(n), whole) < n,
    ensures
        first_too_often(s, whole) == first_too_often(s.take(n), whole),
    decreases s.len() - n,
{
    if n < s.len() {
        lemma_take_step(s, n);
        lemma_first_too_often_stays(s, whole, n + 1);
    } else {
        lemma_take_all(s);
    }
}

/// Checks a notation: every output index occurs in an input, no index occurs
/// more than three times, and either all subscripts have an ellipsis or none.
#[verifier::loop_isolation(false)]
pub fn validate_notation(notation: &EinsumNotation) -> (res: Result<(), EinsumError>)
    requires
        notation.wf(),
    ensures
        match res {
            Ok(_) => notation_fault(notation.spec_inputs(), notation.spec_output()) is None,
            Err(e) => notation_fault(notation.spec_inputs(), notation.spec_output()) matches Some(f)
                && reports_fault(e, f, notation.spec_inputs()),
        },
{
    let inputs = notation.inputs();
    let output = notation.output();
    let ghost ins = notation.spec_inputs();
    let ghost out = notation.spec_output();
    let out_letters = output.named_indices();
    // All letters of the inputs, one input after the other.
    let mut flat: Vec<char> = Vec::new();
    let mut all_dotted = true;
    let mut i: usize = 0;
    while i < inputs.len()
        invariant
            i <= inputs.len(),
            all_wf(inputs@),
            ins == views(inputs@),
            flat@ == flat_letters(ins.take(i as int)),
            all_dotted <==> all_inputs_dotted(ins.take(i as int)),
        decreases inputs.len() - i,
    {
        proof {
            lemma_take_step(ins, i as int);
            assert(ins[i as int] == inputs@[i as int]@);
            assert(inputs@[i as int].wf());
            let prev = ins.take(i as int);
            let next = ins.take(i + 1);
            assert(all_inputs_dotted(next) <==> (all_inputs_dotted(prev) && has_dots(ins[i as int]))) by {
                if all_inputs_dotted(next) {
                    assert(has_dots(next[i as int]));
                    assert forall|q: int| 0 <= q < prev.len() implies has_dots(#[trigger] prev[q]) by {
                        assert(prev[q] == next[q]);
                    }
                }
                if all_inputs_dotted(prev) && has_dots(ins[i as int]) {
                    assert forall|q: int| 0 <= q < next.len() implies has_dots(#[trigger] next[q]) by {
                        if q < i {
                            assert(prev[q] == next[q]);
                        }
                    }
                }
            }
        }
        let letters = inputs[i].named_indices();
        let ghost before = flat@;
        let mut k: usize = 0;
        assert(before + letters@.take(0) =~= before);
        while k < letters.len()
            invariant
                k <= letters.len(),
                flat@ == before + letters@.take(k as int),
            decreases letters.len() - k,
        {
            proof {
                lemma_take_step(letters@, k as int);
                assert((before + letters@.take(k as int)).push(letters@[k as int]) =~= before + letters@.take(
                    k + 1,
                ));
            }
            flat.push(letters[k]);
            k += 1;
        }
        proof {
            lemma_take_all(letters@);
        }
        if !inputs[i].has_ellipsis() {
            all_dotted = false;
        }
        i += 1;
    }
    proof {
        lemma_take_all(ins);
    }
    let missing = find_not_in(out_letters.as_slice(), flat.as_slice());
    if missing < out_letters.len() {
        return Err(EinsumError::OutputIndexNotInInputs { index: out_letters[missing] });
    }
    let ghost inputs_only = flat@;
    let mut k: usize = 0;
    assert(inputs_only + out_letters@.take(0) =~= inputs_only);
    while k < out_letters.len()
        invariant
            k <= out_letters.len(),
            flat@ == inputs_only + out_letters@.take(k as int),
        decreases out_letters.len() - k,
    {
        proof {
            lemma_take_step(out_letters@, k as int);
            assert((inputs_only + out_letters@.take(k as int)).push(out_letters@[k as int]) =~= inputs_only
                + out_letters@.take(k + 1));
        }
        flat.push(out_letters[k]);
        k += 1;
    }
    proof {
        lemma_take_all(out_letters@);
    }
    let mut counts = DimMap::new();
    tally(&mut counts, flat.as_slice());
    let mut j: usize = 0;
    while j < flat.len()
        invariant
            j <= flat.len(),
            first_too_often(flat@.take(j as int), flat@) == j,
            forall|c: char| #[trigger] dim_bindings(counts).contains_key(c) <==> flat@.contains(c),
            forall|c: char| #[trigger]
                dim_bindings(counts).contains_key(c) ==> dim_bindings(counts)[c] == count_cap(count_of(flat@, c)),
        decreases flat.len() - j,
    {
        let c = flat[j];
        assert(flat@.contains(c));
        proof {
            lemma_take_step(flat@, j as int);
        }
        let n = match counts.get(c) {
            Some(n) => n,
            None => 0,
        };
        if n > 3 {
            proof {
                lemma_first_too_often_stays(flat@, flat@, j as int + 1);
            }
            return Err(EinsumError::IndexAppearsMoreThanTwice { index: c, count: n });
        }
        j += 1;
    }
    proof {
        lemma_take_all(flat@);
    }
    if notation.has_ellipsis() {
        if !all_dotted {
            return Err(
                EinsumError::InconsistentEllipsis {
                    message: String::from_str("if any input has ellipsis, all inputs should have ellipsis"),
                },
            );
        }
        if !output.has_ellipsis() {
            return Err(
                EinsumError::InconsistentEllipsis {
                    message: String::from_str("output must have ellipsis when inputs do"),
                },
            );
        }
    }
    Ok(())
}

/// Counts the letters of `letters` into the empty table `counts`; a count stops
/// at `usize::MAX`.
fn tally(counts: &mut DimMap, letters: &[char])
    requires
        dim_bindings(*old(counts)) == (Map::<char, usize>::empty()),
    ensures
        forall|c: char| #[trigger] dim_bindings(*final(counts)).contains_key(c) <==> letters@.contains(c),
        forall|c: char| #[trigger]
            dim_bindings(*final(counts)).contains_key(c) ==> dim_bindings(*final(counts))[c] == count_cap(
                count_of(letters@, c),
            ),
{
    let mut k: usize = 0;
    while k < letters.len()
        invariant
            k <= letters.len(),
            forall|c: char| #[trigger]
                dim_bindings(*counts).contains_key(c) <==> letters@.take(k as int).contains(c),
            forall|c: char| #[trigger]
                dim_bindings(*counts).contains_key(c) ==> dim_bindings(*counts)[c] == count_cap(
                    count_of(letters@.take(k as int), c),
                ),
        decreases letters.len() - k,
    {
        let c = letters[k];
        let ghost seen = letters@.take(k as int);
        let ghost prior = dim_bindings(*counts);
        let n = match counts.get(c) {
            Some(n) => if n < usize::MAX {
                n + 1
            } else {
                n
            },
            None => 1,
        };
        counts.insert(c, n);
        proof {
            lemma_take_step(letters@, k as int);
            crate::chars::lemma_push_drop_last(seen, c);
            crate::chars::lemma_count_of_zero(seen, c);
            assert forall|x: char| #[trigger]
                dim_bindings(*counts).contains_key(x) <==> letters@.take(k + 1).contains(x) by {
                crate::chars::lemma_contains_push(seen, c, x);
                assert(prior.contains_key(x) <==> seen.contains(x));
            }
            assert forall|x: char| #[trigger]
                dim_bindings(*counts).contains_key(x) implies dim_bindings(*counts)[x] == count_cap(
                count_of(letters@.take(k + 1), x),
            ) by {
                if x != c {
                    assert(prior.contains_key(x));
                }
            }
        }
        k += 1;
    }
    proof {
        lemma_take_all(letters@);
    }
}

/// The shapes as sequences.
pub open spec fn shape_views(shapes: Seq<&[usize]>) -> Seq<Seq<usize>> {
    Seq::new(shapes.len(), |i: int| shapes[i]@)
}

/// The width of the ellipsis as the first `k` inputs determine it: `None` while
/// no input with an ellipsis was seen, or the first fault.
pub open spec fn width_first(ins: Seq<Seq<Index>>, shapes: Seq<Seq<usize>>, k: nat) -> Result<
    Option<int>,
    Fault,
>
    decreases k,
{
    if k == 0 {
        Ok(None)
    } else {
        match width_first(ins, shapes, (k - 1) as nat) {
            Err(f) => Err(f),
            Ok(w) => {
                let i = k - 1;
                if !has_dots(ins[i]) {
                    Ok(w)
                } else if shapes[i].len() < named(ins[i]).len() {
                    Err((FaultKind::Rank, ' ', i, named(ins[i]).len() as int, shapes[i].len() as int))
                } else {
                    let mine = shapes[i].len() - named(ins[i]).len();
                    match w {
                        None => Ok(Some(mine)),
                        Some(prev) => if prev != mine {
                            Err((FaultKind::Width, ' ', i, prev, mine))
                        } else {
                            Ok(w)
                        },
                    }
                }
            },
        }
    }
}

/// The number of axes that the ellipsis stands for: 0 where no subscript has
/// one, else what the inputs with an ellipsis agree on.
pub open spec fn ellipsis_width(ins: Seq<Seq<Index>>, out: Seq<Index>, shapes: Seq<Seq<usize>>) -> Result<
    int,
    Fault,
> {
    if !any_dots(ins, out) {
        Ok(0)
    } else {
        match width_first(ins, shapes, ins.len()) {
            Err(f) => Err(f),
            Ok(None) => Ok(0),
            Ok(Some(w)) => if w > MAX_ELLIPSIS_DIMS {
                Err((FaultKind::TooWide, ' ', 0int, MAX_ELLIPSIS_DIMS as int, w))
            } else {
                Ok(w)
            },
        }
    }
}

/// The first `n` letters bound to the first `n` sizes, where a letter that is
/// bound already must have the same size: the bindings, or the first letter
/// that has two sizes, with both.
pub open spec fn bind_checked(m: Map<char, usize>, letters: Seq<char>, shape: Seq<usize>, n: nat) -> Result<
    Map<char, usize>,
    (char, usize, usize),
>
    decreases n,
{
    if n == 0 {
        Ok(m)
    } else {
        match bind_checked(m, letters, shape, (n - 1) as nat) {
            Err(f) => Err(f),
            Ok(b) => {
                let c = letters[n - 1];
                if b.contains_key(c) {
                    if b[c] != shape[n - 1] {
                        Err((c, b[c], shape[n - 1]))
                    } else {
                        Ok(b)
                    }
                } else {
                    Ok(b.insert(c, shape[n - 1]))
                }
            },
        }
    }
}

/// The bindings that the first `k` inputs make, or the first fault.
pub open spec fn bind_inputs(ins: Seq<Seq<Index>>, shapes: Seq<Seq<usize>>, batch: Seq<char>, k: nat) -> Result<
    Map<char, usize>,
    Fault,
>
    decreases k,
{
    if k == 0 {
        Ok(Map::empty())
    } else {
        match bind_inputs(ins, shapes, batch, (k - 1) as nat) {
            Err(f) => Err(f),
            Ok(m) => {
                let i = k - 1;
                let letters = expanded_letters(ins[i], batch);
                if letters.len() != shapes[i].len() {
                    Err((FaultKind::Rank, ' ', i, letters.len() as int, shapes[i].len() as int))
                } else {
                    match bind_checked(m, letters, shapes[i], letters.len()) {
                        Err(f) => Err((FaultKind::Size, f.0, i, f.1 as int, f.2 as int)),
                        Ok(b) => Ok(b),
                    }
                }
            },
        }
    }
}

/// The position of the first letter that `m` does not bind, or `letters.len()`.
pub open spec fn first_unbound(m: Map<char, usize>, letters: Seq<char>) -> int
    decreases letters.len(),
{
    if letters.len() == 0 {
        0
    } else {
        let p = first_unbound(m, letters.drop_last());
        if p < letters.len() - 1 {
            p
        } else if !m.contains_key(letters.last()) {
            letters.len() - 1
        } else {
            letters.len() as int
        }
    }
}

/// What the validation of shapes finds.
pub struct Validated {
    pub width: int,
    pub bindings: Map<char, usize>,
    pub output_shape: Seq<usize>,
    pub contracted_shape: Seq<usize>,
}

/// What shapes mean for a notation: the width of the ellipsis, the size of
/// each index, the shape of the output and the sizes of the contracted indices in
/// increasing order of their letters; or the first fault.
pub open spec fn shapes_spec(ins: Seq<Seq<Index>>, out: Seq<Index>, shapes: Seq<Seq<usize>>) -> Result<
    Validated,
    Fault,
> {
    if shapes.len() != ins.len() {
        Err((FaultKind::Arity, ' ', 0int, ins.len() as int, shapes.len() as int))
    } else {
        match ellipsis_width(ins, out, shapes) {
            Err(f) => Err(f),
            Ok(w) => {
                let batch = batch_letters(w as nat);
                match bind_inputs(ins, shapes, batch, ins.len()) {
                    Err(f) => Err(f),
                    Ok(m) => {
                        let letters = expanded_letters(out, batch);
                        let missing = first_unbound(m, letters);
                        if missing < letters.len() {
                            Err((FaultKind::MissingOutput, letters[missing], 0int, 0int, 0int))
                        } else {
                            Ok(
                                Validated {
                                    width: w,
                                    bindings: m,
                                    output_shape: bound_sizes(m, letters),
                                    contracted_shape: bound_sizes(m, ordered(keep_contracted(ins, out))),
                                },
                            )
                        }
                    },
                }
            },
        }
    }
}

/// The letters of the inputs that the output lacks.
pub open spec fn keep_contracted(ins: Seq<Seq<Index>>, out: Seq<Index>) -> Seq<char> {
    crate::chars::keep_not_in(flat_letters(ins), named(out).to_set())
}

/// What the validation of shapes returns.
pub struct ValidationResult {
    /// The number of axes that the ellipsis stands for.
    pub ellipsis_dims: usize,
    /// The size of each index.
    pub dim_map: DimMap,
    /// The shape of the output.
    pub output_shape: Vec<usize>,
    /// The sizes of the contracted indices.
    pub contracted_shape: Vec<usize>,
}

impl ValidationResult {
    /// The result as plain values.
    pub open spec fn spec_view(&self) -> Validated {
        Validated {
            width: self.ellipsis_dims as int,
            bindings: dim_bindings(self.dim_map),
            output_shape: self.output_shape@,
            contracted_shape: self.contracted_shape@,
        }
    }

    /// The size that the validation bound to the index `c`.
    pub fn dim_of(&self, c: char) -> (r: Option<usize>)
        ensures
            r == (if dim_bindings(self.dim_map).contains_key(c) {
                Some(dim_bindings(self.dim_map)[c])
            } else {
                None::<usize>
            }),
    {
        self.dim_map.get(c)
    }

    /// Two operations for every element of the output and every combination of
    /// contracted indices, capped at `u64::MAX`.
    pub fn compute_flops(&self) -> (r: u64)
        ensures
            r == capped(product(self.output_shape@) * product(self.contracted_shape@) * 2),
    {
        let a = element_count(self.output_shape.as_slice());
        let b = element_count(self.contracted_shape.as_slice());
        proof {
            let x = product(self.output_shape@);
            let y = product(self.contracted_shape@);
            lemma_capped_mul(x, y);
            lemma_capped_mul(x * y, 2);
        }
        sat_mul(sat_mul(a, b), 2)
    }

    /// The elements of all inputs and of the output, capped at `u64::MAX`.
    pub fn compute_memory_elements(&self, input_shapes: &[&[usize]]) -> (r: u64)
        ensures
            r == capped(total_elements(shape_views(input_shapes@)) + product(self.output_shape@)),
    {
        let ghost sv = shape_views(input_shapes@);
        let mut total: u64 = 0;
        let mut i: usize = 0;
        while i < input_shapes.len()
            invariant
                i <= input_shapes.len(),
                sv == shape_views(input_shapes@),
                total == capped(total_elements(sv.take(i as int))),
            decreases input_shapes.len() - i,
        {
            proof {
                lemma_take_step(sv, i as int);
                lemma_capped_add(total_elements(sv.take(i as int)), product(sv[i as int]));
            }
            total = sat_add(total, element_count(input_shapes[i]));
            i += 1;
        }
        proof {
            lemma_take_all(sv);
            lemma_capped_add(total_elements(sv), product(self.output_shape@));
        }
        sat_add(total, element_count(self.output_shape.as_slice()))
    }
}

/// A fault among the first `k` inputs is the fault of any longer prefix.
proof fn lemma_width_error(ins: Seq<Seq<Index>>, shapes: Seq<Seq<usize>>, k: nat, n: nat)
    requires
        k <= n,
        width_first(ins, shapes, k) is Err,
    ensures
        width_first(ins, shapes, n) == width_first(ins, shapes, k),
    decreases n - k,
{
    if k < n {
        lemma_width_error(ins, shapes, k, (n - 1) as nat);
    }
}

proof fn lemma_bind_inputs_error(ins: Seq<Seq<Index>>, shapes: Seq<Seq<usize>>, batch: Seq<char>, k: nat, n: nat)
    requires
        k <= n,
        bind_inputs(ins, shapes, batch, k) is Err,
    ensures
        bind_inputs(ins, shapes, batch, n) == bind_inputs(ins, shapes, batch, k),
    decreases n - k,
{
    if k < n {
        lemma_bind_inputs_error(ins, shapes, batch, k, (n - 1) as nat);
    }
}

proof fn lemma_bind_checked_error(m: Map<char, usize>, letters: Seq<char>, shape: Seq<usize>, k: nat, n: nat)
    requires
        k <= n,
        bind_checked(m, letters, shape, k) is Err,
    ensures
        bind_checked(m, letters, shape, n) == bind_checked(m, letters, shape, k),
    decreases n - k,
{
    if k < n {
        lemma_bind_checked_error(m, letters, shape, k, (n - 1) as nat);
    }
}

proof fn lemma_first_unbound_stays(m: Map<char, usize>, s: Seq<char>, n: int)
    requires
        0 <= n <= s.len(),
        first_unbound(m, s.take(n)) < n,
    ensures
        first_unbound(m, s) == first_unbound(m, s.take(n)),
    decreases s.len() - n,
{
    if n < s.len() {
        lemma_take_step(s, n);
        lemma_first_unbound_stays(m, s, n + 1);
    } else {
        lemma_take_all(s);
    }
}

/// The width of the ellipsis that the shapes determine.
#[verifier::loop_isolation(false)]
fn compute_ellipsis_dims(notation: &EinsumNotation, shapes: &[&[usize]]) -> (res: Result<usize, EinsumError>)
    requires
        notation.wf(),
        shapes@.len() == notation.spec_inputs().len(),
    ensures
        match res {
            Ok(w) => ellipsis_width(notation.spec_inputs(), notation.spec_output(), shape_views(shapes@)) == Ok::<
                int,
                Fault,
            >(w as int) && w <= MAX_ELLIPSIS_DIMS,
            Err(e) => ellipsis_width(notation.spec_inputs(), notation.spec_output(), shape_views(shapes@))
                matches Err(f) && reports_fault(e, f, notation.spec_inputs()),
        },
{
    if !notation.has_ellipsis() {
        return Ok(0);
    }
    let inputs = notation.inputs();
    let ghost ins = notation.spec_inputs();
    let ghost sv = shape_views(shapes@);
    let mut width: Option<usize> = None;
    let mut i: usize = 0;
    while i < inputs.len()
        invariant
            i <= inputs.len(),
            width_first(ins, sv, i as nat) == Ok::<Option<int>, Fault>(
                match width {
                    Some(w) => Some(w as int),
                    None => None,
                },
            ),
        decreases inputs.len() - i,
    {
        let input = &inputs[i];
        assert(input.wf());
        assert(ins[i as int] == input@);
        assert(sv[i as int] == shapes@[i as int]@);
        if input.has_ellipsis() {
            let explicit = input.explicit_count();
            let total = shapes[i].len();
            if total < explicit {
                proof {
                    assert(width_first(ins, sv, (i + 1) as nat) is Err);
                    lemma_width_error(ins, sv, (i + 1) as nat, ins.len());
                }
                return Err(
                    EinsumError::DimensionMismatch { subscript: input.to_string(), expected: explicit, got: total },
                );
            }
            let mine = total - explicit;
            match width {
                Some(prev) => {
                    if prev != mine {
                        proof {
                            assert(width_first(ins, sv, (i + 1) as nat) is Err);
                            lemma_width_error(ins, sv, (i + 1) as nat, ins.len());
                        }
                        return Err(EinsumError::EllipsisDimensionMismatch { expected: prev, got: mine });
                    }
                },
                None => {
                    width = Some(mine);
                },
            }
        }
        i += 1;
    }
    match width {
        Some(w) => {
            if w > MAX_ELLIPSIS_DIMS {
                return Err(EinsumError::unsupported("an ellipsis stands for too many axes"));
            }
            Ok(w)
        },
        None => Ok(0),
    }
}

/// The bindings of all indices to their sizes.
#[verifier::loop_isolation(false)]
pub(crate) fn build_dimension_map(notation: &EinsumNotation, shapes: &[&[usize]], batch: &[char], count: usize) -> (res:
    Result<DimMap, EinsumError>)
    requires
        notation.wf(),
        count <= shapes@.len(),
        count <= notation.spec_inputs().len(),
    ensures
        match res {
            Ok(m) => bind_inputs(notation.spec_inputs(), shape_views(shapes@), batch@, count as nat) == Ok::<
                Map<char, usize>,
                Fault,
            >(dim_bindings(m)),
            Err(e) => bind_inputs(notation.spec_inputs(), shape_views(shapes@), batch@, count as nat)
                matches Err(f) && reports_fault(e, f, notation.spec_inputs()),
        },
{
    let inputs = notation.inputs();
    let ghost ins = notation.spec_inputs();
    let ghost sv = shape_views(shapes@);
    let mut dim_map = DimMap::new();
    let mut i: usize = 0;
    while i < count
        invariant
            i <= count,
            bind_inputs(ins, sv, batch@, i as nat) == Ok::<Map<char, usize>, Fault>(dim_bindings(dim_map)),
        decreases count - i,
    {
        let input = &inputs[i];
        assert(input.wf());
        assert(ins[i as int] == input@);
        assert(sv[i as int] == shapes@[i as int]@);
        let shape = shapes[i];
        let expanded = input.expand_ellipsis(batch);
        let letters = expanded.named_indices();
        if letters.len() != shape.len() {
            proof {
                assert(bind_inputs(ins, sv, batch@, (i + 1) as nat) is Err);
                lemma_bind_inputs_error(ins, sv, batch@, (i + 1) as nat, count as nat);
            }
            return Err(
                EinsumError::DimensionMismatch {
                    subscript: input.to_string(),
                    expected: letters.len(),
                    got: shape.len(),
                },
            );
        }
        let ghost start = dim_bindings(dim_map);
        let mut k: usize = 0;
        while k < letters.len()
            invariant
                k <= letters.len(),
                letters@.len() == shape@.len(),
                bind_checked(start, letters@, shape@, k as nat) == Ok::<Map<char, usize>, (char, usize, usize)>(
                    dim_bindings(dim_map),
                ),
            decreases letters.len() - k,
        {
            let c = letters[k];
            let dim = shape[k];
            match dim_map.get(c) {
                Some(existing) => {
                    if existing != dim {
                        proof {
                            assert(bind_checked(start, letters@, shape@, (k + 1) as nat) is Err);
                            lemma_bind_checked_error(start, letters@, shape@, (k + 1) as nat, letters@.len());
                            assert(bind_inputs(ins, sv, batch@, (i + 1) as nat) is Err);
                            lemma_bind_inputs_error(ins, sv, batch@, (i + 1) as nat, count as nat);
                        }
                        return Err(EinsumError::ShapeMismatch { index: c, expected: existing, got: dim });
                    }
                },
                None => {
                    dim_map.insert(c, dim);
                },
            }
            k += 1;
        }
        i += 1;
    }
    Ok(dim_map)
}

/// The sizes of `letters` in `m`, or the first letter that `m` does not bind.
pub(crate) fn lookup_all(m: &DimMap, letters: &[char]) -> (res: Result<Vec<usize>, char>)
    ensures
        match res {
            Ok(v) => first_unbound(dim_bindings(*m), letters@) == letters@.len() && v@ == bound_sizes(
                dim_bindings(*m),
                letters@,
            ),
            Err(c) => first_unbound(dim_bindings(*m), letters@) < letters@.len() && c == letters@[first_unbound(
                dim_bindings(*m),
                letters@,
            )],
        },
{
    let mut out: Vec<usize> = Vec::new();
    let mut i: usize = 0;
    while i < letters.len()
        invariant
            i <= letters.len(),
            first_unbound(dim_bindings(*m), letters@.take(i as int)) == i,
            out@ == bound_sizes(dim_bindings(*m), letters@.take(i as int)),
        decreases letters.len() - i,
    {
        proof {
            lemma_take_step(letters@, i as int);
        }
        match m.get(letters[i]) {
            Some(d) => {
                out.push(d);
            },
            None => {
                proof {
                    lemma_first_unbound_stays(dim_bindings(*m), letters@, i as int + 1);
                }
                return Err(letters[i]);
            },
        }
        i += 1;
    }
    proof {
        lemma_take_all(letters@);
    }
    Ok(out)
}

/// Checks operand shapes against a notation and derives the shape of the
/// output.
pub fn validate_shapes(notation: &EinsumNotation, shapes: &[&[usize]]) -> (res: Result<
    ValidationResult,
    EinsumError,
>)
    requires
        notation.wf(),
    ensures
        match res {
            Ok(v) => shapes_spec(notation.spec_inputs(), notation.spec_output(), shape_views(shapes@)) == Ok::<
                Validated,
                Fault,
            >(v.spec_view()),
            Err(e) => shapes_spec(notation.spec_inputs(), notation.spec_output(), shape_views(shapes@))
                matches Err(f) && reports_fault(e, f, notation.spec_inputs()),
        },
{
    if shapes.len() != notation.num_inputs() {
        let mut text: Vec<char> = Vec::new();
        crate::notation::notation::append_text(&mut text, "expected ");
        crate::chars::push_decimal(&mut text, notation.num_inputs());
        crate::notation::notation::append_text(&mut text, " input shapes, got ");
        crate::chars::push_decimal(&mut text, shapes.len());
        return Err(EinsumError::ParseError { message: crate::chars::string_of(text.as_slice()) });
    }
    let ellipsis_dims = match compute_ellipsis_dims(notation, shapes) {
        Ok(w) => w,
        Err(e) => {
            return Err(e);
        },
    };
    let batch = generate_batch_indices(ellipsis_dims);
    let dim_map = match build_dimension_map(notation, shapes, batch.as_slice(), shapes.len()) {
        Ok(m) => m,
        Err(e) => {
            return Err(e);
        },
    };
    let expanded = notation.output().expand_ellipsis(batch.as_slice());
    let out_letters = expanded.named_indices();
    let output_shape = match lookup_all(&dim_map, out_letters.as_slice()) {
        Ok(v) => v,
        Err(c) => {
            return Err(EinsumError::OutputIndexNotInInputs { index: c });
        },
    };
    let contraction = notation.contraction_indices();
    let contracted = contraction.to_vec();
    proof {
        let ins = notation.spec_inputs();
        let out = notation.spec_output();
        crate::chars::lemma_keep_not_in(flat_letters(ins), named(out).to_set());
        assert forall|c: char| contracted_set(ins, out).contains(c) <==> keep_contracted(ins, out).contains(c) by {
            lemma_flat_letters(ins, c);
        }
        contraction.lemma_elements_of(keep_contracted(ins, out));
    }
    let contracted_shape = lookup_bound(&dim_map, contracted.as_slice());
    Ok(ValidationResult { ellipsis_dims, dim_map, output_shape, contracted_shape })
}

/// Validation is a function of the notation and the shapes: two results for
/// the same subscripts and shapes are both accepted, with the same width,
/// bindings and shapes, or both rejected, with the same error.
pub proof fn validation_is_determined(
    ins: Seq<Seq<Index>>,
    out: Seq<Index>,
    shapes: Seq<Seq<usize>>,
    a: Result<ValidationResult, EinsumError>,
    b: Result<ValidationResult, EinsumError>,
)
    requires
        accepted_as(ins, out, shapes, a),
        accepted_as(ins, out, shapes, b),
    ensures
        a is Ok <==> b is Ok,
        a is Ok ==> a->Ok_0.spec_view() == b->Ok_0.spec_view(),
        a is Err ==> crate::error::same_error(a->Err_0, b->Err_0),
{
}

/// What `validate_shapes` promises of its result.
pub open spec fn accepted_as(
    ins: Seq<Seq<Index>>,
    out: Seq<Index>,
    shapes: Seq<Seq<usize>>,
    res: Result<ValidationResult, EinsumError>,
) -> bool {
    match res {
        Ok(v) => shapes_spec(ins, out, shapes) == Ok::<Validated, Fault>(v.spec_view()),
        Err(e) => shapes_spec(ins, out, shapes) matches Err(f) && reports_fault(e, f, ins),
    }
}

} // verus!
