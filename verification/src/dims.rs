//! Sizes: capped arithmetic, element counts, and the binding of index letters to
//! sizes.

use crate::chars::{lemma_take_all, lemma_take_step};
use crate::tables::{dim_bindings, DimMap};
use vstd::prelude::*;

verus! {

/// `n`, or `u64::MAX` where `n` is larger.
pub open spec fn capped(n: nat) -> u64 {
    if n > u64::MAX {
        u64::MAX
    } else {
        n as u64
    }
}

/// The product of the sizes in `s`; 1 for the empty sequence.
pub open spec fn product(s: Seq<usize>) -> nat
    decreases s.len(),
{
    if s.len() == 0 {
        1
    } else {
        product(s.drop_last()) * (s.last() as nat)
    }
}

/// The sum of the element counts of the shapes in `s`.
pub open spec fn total_elements(s: Seq<Seq<usize>>) -> nat
    decreases s.len(),
{
    if s.len() == 0 {
        0
    } else {
        total_elements(s.drop_last()) + product(s.last())
    }
}

/// Capping once more after a product changes nothing.
pub proof fn lemma_capped_mul(a: nat, b: nat)
    ensures
        capped(capped(a) as nat * b) == capped(a * b),
        capped(a * capped(b) as nat) == capped(a * b),
        capped(capped(a) as nat * capped(b) as nat) == capped(a * b),
{
    let m = u64::MAX as nat;
    assert(a * b == b * a) by (nonlinear_arith);
    if a > m {
        if b == 0 {
            assert(a * b == 0) by (nonlinear_arith)
                requires
                    b == 0,
            ;
            assert(m * b == 0) by (nonlinear_arith)
                requires
                    b == 0,
            ;
        } else {
            assert(a * b >= a) by (nonlinear_arith)
                requires
                    b >= 1,
            ;
            assert(m * b >= m) by (nonlinear_arith)
                requires
                    b >= 1,
            ;
            if b > m {
                assert(m * m >= m) by (nonlinear_arith)
                    requires
                        m >= 1,
                ;
            }
        }
    }
    if b > m {
        if a == 0 {
            assert(a * b == 0) by (nonlinear_arith)
                requires
                    a == 0,
            ;
            assert(a * m == 0) by (nonlinear_arith)
                requires
                    a == 0,
            ;
        } else {
            assert(a * b >= b) by (nonlinear_arith)
                requires
                    a >= 1,
            ;
            assert(a * m >= m) by (nonlinear_arith)
                requires
                    a >= 1,
            ;
        }
    }
}

/// Capping once more after a sum changes nothing.
pub proof fn lemma_capped_add(a: nat, b: nat)
    ensures
        capped(capped(a) as nat + b) == capped(a + b),
        capped(a + capped(b) as nat) == capped(a + b),
        capped(capped(a) as nat + capped(b) as nat) == capped(a + b),
{
}

/// The product of two sizes, capped at `u64::MAX`.
pub fn sat_mul(a: u64, b: u64) -> (r: u64)
    ensures
        r == capped(a as nat * b as nat),
{
    match a.checked_mul(b) {
        Some(v) => v,
        None => u64::MAX,
    }
}

/// The sum of two sizes, capped at `u64::MAX`.
pub fn sat_add(a: u64, b: u64) -> (r: u64)
    ensures
        r == capped(a as nat + b as nat),
{
    match a.checked_add(b) {
        Some(v) => v,
        None => u64::MAX,
    }
}

/// The number of elements of a tensor of this shape, capped at `u64::MAX`.
pub fn element_count(shape: &[usize]) -> (r: u64)
    ensures
        r == capped(product(shape@)),
{
    let mut acc: u64 = 1;
    let mut i: usize = 0;
    while i < shape.len()
        invariant
            i <= shape.len(),
            acc == capped(product(shape@.take(i as int))),
        decreases shape.len() - i,
    {
        proof {
            lemma_take_step(shape@, i as int);
            lemma_capped_mul(product(shape@.take(i as int)), shape@[i as int] as nat);
        }
        acc = sat_mul(acc, shape[i] as u64);
        i += 1;
    }
    proof {
        lemma_take_all(shape@);
    }
    acc
}

/// The shapes of a list of tensors.
pub open spec fn shape_seqs(v: Seq<Vec<usize>>) -> Seq<Seq<usize>> {
    Seq::new(v.len(), |i: int| v[i]@)
}

/// The index lists of a list of tensors.
pub open spec fn letter_seqs(v: Seq<Vec<char>>) -> Seq<Seq<char>> {
    Seq::new(v.len(), |i: int| v[i]@)
}

/// The first `n` letters bound to the first `n` sizes, one after the other; a
/// later binding of a letter replaces an earlier one.
pub open spec fn bind_first(m: Map<char, usize>, letters: Seq<char>, shape: Seq<usize>, n: nat) -> Map<
    char,
    usize,
>
    decreases n,
{
    if n == 0 {
        m
    } else {
        bind_first(m, letters, shape, (n - 1) as nat).insert(letters[n - 1], shape[n - 1])
    }
}

/// The letters bound to the sizes at the same positions, as far as both reach.
pub open spec fn bind(m: Map<char, usize>, letters: Seq<char>, shape: Seq<usize>) -> Map<char, usize> {
    bind_first(
        m,
        letters,
        shape,
        if letters.len() <= shape.len() {
            letters.len()
        } else {
            shape.len()
        },
    )
}

/// The size bound to `c`, or `default` where `c` is unbound.
pub open spec fn size_or(m: Map<char, usize>, c: char, default: usize) -> usize {
    if m.contains_key(c) {
        m[c]
    } else {
        default
    }
}

/// The sizes of the letters, taking `1` for an unbound letter.
pub open spec fn sizes_or_one(m: Map<char, usize>, letters: Seq<char>) -> Seq<usize>
    decreases letters.len(),
{
    if letters.len() == 0 {
        Seq::empty()
    } else {
        sizes_or_one(m, letters.drop_last()).push(size_or(m, letters.last(), 1))
    }
}

/// The sizes of those letters that are bound, in the order of the letters.
pub open spec fn bound_sizes(m: Map<char, usize>, letters: Seq<char>) -> Seq<usize>
    decreases letters.len(),
{
    if letters.len() == 0 {
        Seq::empty()
    } else if m.contains_key(letters.last()) {
        bound_sizes(m, letters.drop_last()).push(m[letters.last()])
    } else {
        bound_sizes(m, letters.drop_last())
    }
}

/// Binds `letters` to `shape` in `m`, position by position.
pub(crate) fn bind_into(m: &mut DimMap, letters: &[char], shape: &[usize])
    ensures
        dim_bindings(*final(m)) == bind(dim_bindings(*old(m)), letters@, shape@),
{
    let mut i: usize = 0;
    while i < letters.len() && i < shape.len()
        invariant
            i <= letters.len(),
            i <= shape.len(),
            dim_bindings(*m) == bind_first(dim_bindings(*old(m)), letters@, shape@, i as nat),
        decreases letters.len() - i,
    {
        m.insert(letters[i], shape[i]);
        i += 1;
    }
}

/// The sizes of `letters` in `m`, taking `1` for an unbound letter.
pub(crate) fn lookup_or_one(m: &DimMap, letters: &[char]) -> (r: Vec<usize>)
    ensures
        r@ == sizes_or_one(dim_bindings(*m), letters@),
{
    let mut out: Vec<usize> = Vec::new();
    let mut i: usize = 0;
    while i < letters.len()
        invariant
            i <= letters.len(),
            out@ == sizes_or_one(dim_bindings(*m), letters@.take(i as int)),
        decreases letters.len() - i,
    {
        proof {
            lemma_take_step(letters@, i as int);
        }
        let d = match m.get(letters[i]) {
            Some(d) => d,
            None => 1,
        };
        out.push(d);
        i += 1;
    }
    proof {
        lemma_take_all(letters@);
    }
    out
}

/// The sizes of the bound letters among `letters`.
pub(crate) fn lookup_bound(m: &DimMap, letters: &[char]) -> (r: Vec<usize>)
    ensures
        r@ == bound_sizes(dim_bindings(*m), letters@),
{
    let mut out: Vec<usize> = Vec::new();
    let mut i: usize = 0;
    while i < letters.len()
        invariant
            i <= letters.len(),
            out@ == bound_sizes(dim_bindings(*m), letters@.take(i as int)),
        decreases letters.len() - i,
    {
        proof {
            lemma_take_step(letters@, i as int);
        }
        match m.get(letters[i]) {
            Some(d) => {
                out.push(d);
            },
            None => {},
        }
        i += 1;
    }
    proof {
        lemma_take_all(letters@);
    }
    out
}

} // verus!
