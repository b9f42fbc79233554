//! The layout of a tensor: its shape and its strides, in elements.

use crate::chars::{lemma_take_all, lemma_take_step};
use crate::dims::product;
use crate::error::EinsumError;
use vstd::prelude::*;

verus! {

/// Shape and strides of a view of a buffer. A stride of 0 broadcasts an axis.
#[derive(Debug, PartialEq, Eq)]
pub struct TensorLayout {
    pub shape: Vec<usize>,
    pub strides: Vec<usize>,
}

/// A layout as plain values.
pub struct LayoutView {
    pub shape: Seq<usize>,
    pub strides: Seq<usize>,
}

impl View for TensorLayout {
    type V = LayoutView;

    open spec fn view(&self) -> LayoutView {
        LayoutView { shape: self.shape@, strides: self.strides@ }
    }
}

impl Clone for TensorLayout {
    fn clone(&self) -> (r: Self)
        ensures
            r@ == self@,
    {
        TensorLayout {
            shape: crate::chars::copy_sizes(self.shape.as_slice()),
            strides: crate::chars::copy_sizes(self.strides.as_slice()),
        }
    }
}

impl TensorLayout {
    /// There is one stride for each axis.
    pub open spec fn wf(&self) -> bool {
        self.shape@.len() == self.strides@.len()
    }

    /// The layout with the given shape and strides.
    pub fn new(shape: Vec<usize>, strides: Vec<usize>) -> (r: Self)
        ensures
            r.shape == shape,
            r.strides == strides,
    {
        TensorLayout { shape, strides }
    }
}

/// The number of elements that lie between two neighbours along axis `i` of a
/// contiguous tensor in row-major order: the product of the sizes of the later
/// axes.
pub open spec fn stride_of(shape: Seq<usize>, i: int) -> nat {
    product(shape.skip(i + 1))
}

/// The strides of a contiguous tensor in row-major order.
pub open spec fn contiguous(shape: Seq<usize>) -> Seq<usize> {
    Seq::new(shape.len(), |i: int| stride_of(shape, i) as usize)
}

/// Every stride of the contiguous tensor fits in `usize`.
pub open spec fn strides_fit(shape: Seq<usize>) -> bool {
    forall|i: int| 0 <= i < shape.len() ==> #[trigger] stride_of(shape, i) <= usize::MAX
}

/// The product of a sequence is the first size times the product of the rest.
pub proof fn lemma_product_front(s: Seq<usize>)
    requires
        s.len() > 0,
    ensures
        product(s) == (s[0] as nat) * product(s.skip(1)),
    decreases s.len(),
{
    if s.len() == 1 {
        assert(s.drop_last() =~= Seq::<usize>::empty());
        assert(s.skip(1) =~= Seq::<usize>::empty());
        assert(product(s.drop_last()) == 1);
    } else {
        let t = s.drop_last();
        lemma_product_front(t);
        assert(t.skip(1) =~= s.skip(1).drop_last());
        assert(s.skip(1).last() == s.last());
        assert(t[0] == s[0]);
        let a = s[0] as nat;
        let b = product(t.skip(1));
        let c = s.last() as nat;
        assert((a * b) * c == a * (b * c)) by (nonlinear_arith);
    }
}

/// The strides of a contiguous tensor of the given shape in row-major order. It
/// is an error where a stride does not fit in `usize`.
pub fn compute_strides(shape: &[usize]) -> (res: Result<Vec<usize>, EinsumError>)
    ensures
        match res {
            Ok(v) => strides_fit(shape@) && v@ == contiguous(shape@),
            Err(e) => !strides_fit(shape@) && e is ShapeError,
        },
{
    let n = shape.len();
    let mut rev: Vec<usize> = Vec::new();
    let mut acc: usize = 1;
    let mut k: usize = 0;
    // `rev` holds the strides of the last `k` axes, the last axis first.
    while k < n
        invariant
            k <= n,
            n == shape@.len(),
            rev@.len() == k,
            k < n ==> acc == stride_of(shape@, n - 1 - k),
            forall|q: int| 0 <= q < k ==> (#[trigger] rev@[q]) == stride_of(shape@, n - 1 - q),
            forall|q: int| 0 <= q < k ==> #[trigger] stride_of(shape@, n - 1 - q) <= usize::MAX,
        decreases n - k,
    {
        if k == 0 {
            proof {
                assert(shape@.skip(n as int) =~= Seq::<usize>::empty());
            }
        }
        rev.push(acc);
        if k + 1 < n {
            let i = n - 1 - k;
            proof {
                let s = shape@.skip(i as int);
                lemma_product_front(s);
                assert(s.skip(1) =~= shape@.skip(i + 1));
                assert(s[0] == shape@[i as int]);
            }
            match acc.checked_mul(shape[i]) {
                Some(v) => {
                    proof {
                        assert(acc as nat * shape@[i as int] as nat == shape@[i as int] as nat * acc as nat)
                            by (nonlinear_arith);
                    }
                    acc = v;
                },
                None => {
                    proof {
                        assert(acc as nat * shape@[i as int] as nat == shape@[i as int] as nat * acc as nat)
                            by (nonlinear_arith);
                        assert(stride_of(shape@, i - 1) > usize::MAX);
                    }
                    return Err(EinsumError::shape("a stride does not fit"));
                },
            }
        }
        k += 1;
    }
    let mut out: Vec<usize> = Vec::new();
    let mut i: usize = 0;
    while i < n
        invariant
            i <= n,
            rev@.len() == n,
            out@.len() == i,
            forall|q: int| 0 <= q < i ==> (#[trigger] out@[q]) == rev@[n - 1 - q],
        decreases n - i,
    {
        out.push(rev[n - 1 - i]);
        i += 1;
    }
    proof {
        assert forall|q: int| 0 <= q < shape@.len() implies #[trigger] stride_of(shape@, q) <= usize::MAX by {
            assert(stride_of(shape@, n - 1 - (n - 1 - q)) <= usize::MAX);
        }
        assert(out@ =~= contiguous(shape@)) by {
            assert forall|q: int| 0 <= q < n implies out@[q] == contiguous(shape@)[q] by {
                assert(rev@[n - 1 - q] == stride_of(shape@, n - 1 - (n - 1 - q)));
            }
        }
    }
    Ok(out)
}

/// Every position lies in a sequence of length `n`.
pub open spec fn all_below(at: Seq<usize>, n: nat) -> bool {
    forall|k: int| 0 <= k < at.len() ==> (#[trigger] at[k]) < n
}

/// The elements of `s` at the positions `at`, in the order of the positions.
pub open spec fn gather(s: Seq<usize>, at: Seq<usize>) -> Seq<usize> {
    Seq::new(at.len(), |k: int| s[at[k] as int])
}

/// The elements of `s` at the positions `at`, where all positions lie in `s`.
pub fn gather_sizes(s: &[usize], at: &[usize]) -> (r: Option<Vec<usize>>)
    ensures
        match r {
            Some(v) => all_below(at@, s@.len()) && v@ == gather(s@, at@),
            None => !all_below(at@, s@.len()),
        },
{
    let mut out: Vec<usize> = Vec::new();
    let mut k: usize = 0;
    while k < at.len()
        invariant
            k <= at.len(),
            out@.len() == k,
            forall|q: int| 0 <= q < k ==> (#[trigger] at@[q]) < s@.len(),
            forall|q: int| 0 <= q < k ==> (#[trigger] out@[q]) == s@[at@[q] as int],
        decreases at.len() - k,
    {
        if at[k] >= s.len() {
            return None;
        }
        out.push(s[at[k]]);
        k += 1;
    }
    assert(out@ =~= gather(s@, at@));
    Some(out)
}

/// The letters of `s` at the positions `at`.
pub open spec fn gather_letters(s: Seq<char>, at: Seq<usize>) -> Seq<char> {
    Seq::new(at.len(), |k: int| s[at[k] as int])
}

/// The letters of `s` at the positions `at`, where all positions lie in `s`.
pub fn gather_chars(s: &[char], at: &[usize]) -> (r: Option<Vec<char>>)
    ensures
        match r {
            Some(v) => all_below(at@, s@.len()) && v@ == gather_letters(s@, at@),
            None => !all_below(at@, s@.len()),
        },
{
    let mut out: Vec<char> = Vec::new();
    let mut k: usize = 0;
    while k < at.len()
        invariant
            k <= at.len(),
            out@.len() == k,
            forall|q: int| 0 <= q < k ==> (#[trigger] at@[q]) < s@.len(),
            forall|q: int| 0 <= q < k ==> (#[trigger] out@[q]) == s@[at@[q] as int],
        decreases at.len() - k,
    {
        if at[k] >= s.len() {
            return None;
        }
        out.push(s[at[k]]);
        k += 1;
    }
    assert(out@ =~= gather_letters(s@, at@));
    Some(out)
}

/// The product of the sizes, where it fits in `usize`.
pub fn checked_product(v: &[usize]) -> (r: Option<usize>)
    ensures
        match r {
            Some(p) => p == product(v@),
            None => product(v@) > usize::MAX,
        },
{
    let mut z: usize = 0;
    while z < v.len()
        invariant
            z <= v.len(),
            forall|q: int| 0 <= q < z ==> v@[q] != 0,
        decreases v.len() - z,
    {
        if v[z] == 0 {
            proof {
                lemma_product_zero(v@, z as int);
            }
            return Some(0);
        }
        z += 1;
    }
    let mut acc: usize = 1;
    let mut i: usize = 0;
    while i < v.len()
        invariant
            i <= v.len(),
            forall|q: int| 0 <= q < v@.len() ==> v@[q] != 0,
            acc == product(v@.take(i as int)),
            acc >= 1,
        decreases v.len() - i,
    {
        proof {
            lemma_take_step(v@, i as int);
        }
        match acc.checked_mul(v[i]) {
            Some(p) => {
                proof {
                    assert(acc as nat * v@[i as int] as nat >= 1) by (nonlinear_arith)
                        requires
                            acc >= 1,
                            v@[i as int] >= 1,
                    ;
                }
                acc = p;
            },
            None => {
                proof {
                    lemma_product_grows(v@, i as int + 1);
                }
                return None;
            },
        }
        i += 1;
    }
    proof {
        lemma_take_all(v@);
    }
    Some(acc)
}

/// A product with a factor of zero is zero.
pub proof fn lemma_product_zero(s: Seq<usize>, z: int)
    requires
        0 <= z < s.len(),
        s[z] == 0,
    ensures
        product(s) == 0,
    decreases s.len(),
{
    if z == s.len() - 1 {
        assert(product(s.drop_last()) * 0 == 0) by (nonlinear_arith);
    } else {
        lemma_product_zero(s.drop_last(), z);
        assert(0 * (s.last() as nat) == 0) by (nonlinear_arith);
    }
}

/// Without a factor of zero, the product of a prefix is at most the product of
/// the whole.
pub proof fn lemma_product_grows(s: Seq<usize>, n: int)
    requires
        0 <= n <= s.len(),
        forall|q: int| 0 <= q < s.len() ==> s[q] != 0,
    ensures
        product(s.take(n)) <= product(s),
        product(s) >= 1,
    decreases s.len() - n,
{
    if n < s.len() {
        lemma_product_grows(s, n + 1);
        lemma_take_step(s, n);
        let a = product(s.take(n));
        let b = s[n] as nat;
        assert(a <= a * b) by (nonlinear_arith)
            requires
                b >= 1,
        ;
        lemma_product_ge_one(s.take(n));
    } else {
        lemma_take_all(s);
        lemma_product_ge_one(s);
    }
}

/// Without a factor of zero, a product is at least 1.
pub proof fn lemma_product_ge_one(s: Seq<usize>)
    requires
        forall|q: int| 0 <= q < s.len() ==> s[q] != 0,
    ensures
        product(s) >= 1,
    decreases s.len(),
{
    if s.len() > 0 {
        lemma_product_ge_one(s.drop_last());
        let a = product(s.drop_last());
        let b = s.last() as nat;
        assert(a * b >= 1) by (nonlinear_arith)
            requires
                a >= 1,
                b >= 1,
        ;
    }
}

/// The layout with its last two axes exchanged; a layout of fewer than two
/// axes stays as it is.
pub open spec fn last_two_swapped(l: LayoutView) -> LayoutView {
    if l.shape.len() < 2 {
        l
    } else {
        let n = l.shape.len() as int;
        LayoutView {
            shape: l.shape.update(n - 2, l.shape[n - 1]).update(n - 1, l.shape[n - 2]),
            strides: l.strides.update(n - 2, l.strides[n - 1]).update(n - 1, l.strides[n - 2]),
        }
    }
}

/// The view of a matrix operand: with its last two axes exchanged where
/// `transpose` is set.
pub fn transposed(layout: &TensorLayout, transpose: bool) -> (r: TensorLayout)
    requires
        layout.wf(),
    ensures
        r.wf(),
        r@ == (if transpose {
            last_two_swapped(layout@)
        } else {
            layout@
        }),
{
    let mut r = layout.clone();
    let n = r.shape.len();
    if transpose && n >= 2 {
        let a = r.shape[n - 2];
        let b = r.shape[n - 1];
        r.shape.set(n - 2, b);
        r.shape.set(n - 1, a);
        let c = r.strides[n - 2];
        let d = r.strides[n - 1];
        r.strides.set(n - 2, d);
        r.strides.set(n - 1, c);
    }
    r
}

} // verus!
