//! The subscript of one operand: an ordered list of indices.

use crate::chars::{count_of, lemma_push_drop_last, lemma_take_all, lemma_take_step};
use crate::chars::string_of;
use vstd::prelude::*;

verus! {

/// One entry of a subscript.
#[derive(Debug, Clone, Copy, PartialEq, Eq, Hash, Structural)]
pub enum Index {
    /// A letter that names one axis.
    Named(char),
    /// `...`: zero or more batch axes.
    Ellipsis,
}

impl Index {
    pub fn is_ellipsis(&self) -> (r: bool)
        ensures
            r == (*self == Index::Ellipsis),
    {
        match self {
            Index::Ellipsis => true,
            Index::Named(_) => false,
        }
    }

    pub fn as_char(&self) -> (r: Option<char>)
        ensures
            r == (match *self {
                Index::Named(c) => Some(c),
                Index::Ellipsis => None::<char>,
            }),
    {
        match self {
            Index::Named(c) => Some(*c),
            Index::Ellipsis => None,
        }
    }
}

/// The letters of a subscript, in order, without its ellipses.
pub open spec fn named(s: Seq<Index>) -> Seq<char>
    decreases s.len(),
{
    if s.len() == 0 {
        Seq::empty()
    } else {
        match s.last() {
            Index::Named(c) => named(s.drop_last()).push(c),
            Index::Ellipsis => named(s.drop_last()),
        }
    }
}

/// The position of the first ellipsis, or `s.len()` where there is none.
pub open spec fn first_ellipsis(s: Seq<Index>) -> int
    decreases s.len(),
{
    if s.len() == 0 {
        0
    } else {
        let p = first_ellipsis(s.drop_last());
        if p < s.len() - 1 {
            p
        } else if s.last() == Index::Ellipsis {
            s.len() - 1
        } else {
            s.len() as int
        }
    }
}

/// Does the subscript hold an ellipsis?
pub open spec fn has_dots(s: Seq<Index>) -> bool {
    first_ellipsis(s) < s.len()
}

/// The subscript as it is written: each letter, and `...` for an ellipsis.
pub open spec fn spell(s: Seq<Index>) -> Seq<char>
    decreases s.len(),
{
    if s.len() == 0 {
        Seq::empty()
    } else {
        match s.last() {
            Index::Named(c) => spell(s.drop_last()).push(c),
            Index::Ellipsis => spell(s.drop_last()) + seq!['.', '.', '.'],
        }
    }
}

/// The letters of `s` after every ellipsis is replaced by the letters `batch`.
pub open spec fn letters_with(s: Seq<Index>, batch: Seq<char>) -> Seq<char>
    decreases s.len(),
{
    if s.len() == 0 {
        Seq::empty()
    } else {
        match s.last() {
            Index::Named(c) => letters_with(s.drop_last(), batch).push(c),
            Index::Ellipsis => letters_with(s.drop_last(), batch) + batch,
        }
    }
}

/// The letters of a subscript whose ellipsis, if it has one, stands for `batch`.
pub open spec fn expanded_letters(s: Seq<Index>, batch: Seq<char>) -> Seq<char> {
    if has_dots(s) {
        letters_with(s, batch)
    } else {
        named(s)
    }
}

/// What `first_ellipsis` returns: the least position of an ellipsis.
pub proof fn lemma_first_ellipsis(s: Seq<Index>)
    ensures
        0 <= first_ellipsis(s) <= s.len(),
        first_ellipsis(s) < s.len() ==> s[first_ellipsis(s)] == Index::Ellipsis,
        forall|j: int| 0 <= j < first_ellipsis(s) ==> s[j] != Index::Ellipsis,
        has_dots(s) <==> s.contains(Index::Ellipsis),
    decreases s.len(),
{
    if s.len() > 0 {
        lemma_first_ellipsis(s.drop_last());
        let p = first_ellipsis(s.drop_last());
        let q = first_ellipsis(s);
        assert forall|j: int| 0 <= j < q implies s[j] != Index::Ellipsis by {
            if j < s.len() - 1 {
                assert(s.drop_last()[j] == s[j]);
            }
        }
        if q < s.len() && p < s.len() - 1 {
            assert(s.drop_last()[p] == s[p]);
        }
        if s.contains(Index::Ellipsis) {
            let k = choose|k: int| 0 <= k < s.len() && s[k] == Index::Ellipsis;
            if q >= s.len() {
                assert(s[k] != Index::Ellipsis);
            }
        }
    }
}

/// The letters of a subscript are at most as many as its entries; without an
/// ellipsis they are the entries, and spell the subscript.
pub proof fn lemma_named_len(s: Seq<Index>)
    ensures
        named(s).len() <= s.len(),
        !has_dots(s) ==> named(s).len() == s.len(),
        !has_dots(s) ==> forall|i: int| 0 <= i < s.len() ==> s[i] == Index::Named(#[trigger] named(s)[i]),
        !has_dots(s) ==> spell(s) == named(s),
        !has_dots(s) ==> letters_with(s, Seq::<char>::empty()) == named(s),
    decreases s.len(),
{
    if s.len() > 0 {
        let t = s.drop_last();
        lemma_named_len(t);
        lemma_first_ellipsis(s);
        lemma_first_ellipsis(t);
        if !has_dots(s) {
            assert(!has_dots(t));
            assert forall|i: int| 0 <= i < s.len() implies s[i] == Index::Named(#[trigger] named(s)[i]) by {
                if i < t.len() {
                    assert(t[i] == s[i]);
                    assert(named(s)[i] == named(t)[i]);
                }
            }
        }
    }
}

/// The indices of one operand or of the output.
#[derive(Debug, PartialEq, Eq)]
pub struct Subscript {
    indices: Vec<Index>,
    ellipsis_pos: Option<usize>,
    explicit_count: usize,
}

impl View for Subscript {
    type V = Seq<Index>;

    closed spec fn view(&self) -> Seq<Index> {
        self.indices@
    }
}

impl Clone for Subscript {
    fn clone(&self) -> (r: Self)
        ensures
            r@ == self@,
            self.wf() ==> r.wf(),
    {
        let mut v: Vec<Index> = Vec::new();
        let mut i: usize = 0;
        while i < self.indices.len()
            invariant
                i <= self.indices.len(),
                v@ == self.indices@.take(i as int),
            decreases self.indices.len() - i,
        {
            proof {
                lemma_take_step(self.indices@, i as int);
            }
            v.push(self.indices[i]);
            i += 1;
        }
        proof {
            lemma_take_all(self.indices@);
        }
        Subscript { indices: v, ellipsis_pos: self.ellipsis_pos, explicit_count: self.explicit_count }
    }
}

impl Subscript {
    /// The cached position of the ellipsis and the cached count of letters agree
    /// with the indices.
    pub closed spec fn wf(&self) -> bool {
        &&& self.explicit_count == named(self.indices@).len()
        &&& self.ellipsis_pos == (if has_dots(self.indices@) {
            Some(first_ellipsis(self.indices@) as usize)
        } else {
            None::<usize>
        })
    }

    /// The empty subscript.
    pub fn new() -> (r: Self)
        ensures
            r.wf(),
            r@ == Seq::<Index>::empty(),
    {
        Subscript { indices: Vec::new(), ellipsis_pos: None, explicit_count: 0 }
    }

    /// The subscript with the given indices.
    pub fn from_indices(indices: Vec<Index>) -> (r: Self)
        ensures
            r.wf(),
            r@ == indices@,
    {
        let mut ellipsis_pos: Option<usize> = None;
        let mut explicit_count: usize = 0;
        let mut i: usize = 0;
        while i < indices.len()
            invariant
                i <= indices.len(),
                explicit_count == named(indices@.take(i as int)).len(),
                explicit_count <= i,
                ellipsis_pos == (if has_dots(indices@.take(i as int)) {
                    Some(first_ellipsis(indices@.take(i as int)) as usize)
                } else {
                    None::<usize>
                }),
            decreases indices.len() - i,
        {
            proof {
                lemma_take_step(indices@, i as int);
                lemma_first_ellipsis(indices@.take(i as int));
            }
            match indices[i] {
                Index::Ellipsis => {
                    if ellipsis_pos.is_none() {
                        ellipsis_pos = Some(i);
                    }
                },
                Index::Named(_) => {
                    explicit_count += 1;
                },
            }
            i += 1;
        }
        proof {
            lemma_take_all(indices@);
        }
        Subscript { indices, ellipsis_pos, explicit_count }
    }

    /// The subscript whose indices are the given letters.
    pub fn from_chars(chars: &[char]) -> (r: Self)
        ensures
            r.wf(),
            !has_dots(r@),
            named(r@) == chars@,
    {
        let mut indices: Vec<Index> = Vec::new();
        let mut i: usize = 0;
        while i < chars.len()
            invariant
                i <= chars.len(),
                named(indices@) == chars@.take(i as int),
                !has_dots(indices@),
            decreases chars.len() - i,
        {
            proof {
                lemma_take_step(chars@, i as int);
                lemma_push_drop_last(indices@, Index::Named(chars@[i as int]));
                lemma_first_ellipsis(indices@);
            }
            indices.push(Index::Named(chars[i]));
            i += 1;
        }
        proof {
            lemma_take_all(chars@);
        }
        Subscript::from_indices(indices)
    }

    /// Appends the letter `c`.
    pub fn push_named(&mut self, c: char)
        requires
            old(self).wf(),
        ensures
            final(self).wf(),
            final(self)@ == old(self)@.push(Index::Named(c)),
    {
        proof {
            lemma_first_ellipsis(self.indices@);
            lemma_push_drop_last(self.indices@, Index::Named(c));
        }
        let ghost before = self.indices@;
        self.indices.push(Index::Named(c));
        let n = self.indices.len();
        proof {
            lemma_named_len(before);
            assert(n == before.len() + 1);
        }
        self.explicit_count = self.explicit_count + 1;
    }

    /// Appends an ellipsis, unless the subscript has one already.
    pub fn push_ellipsis(&mut self)
        requires
            old(self).wf(),
        ensures
            final(self).wf(),
            final(self)@ == (if has_dots(old(self)@) {
                old(self)@
            } else {
                old(self)@.push(Index::Ellipsis)
            }),
    {
        if self.ellipsis_pos.is_none() {
            proof {
                lemma_first_ellipsis(self.indices@);
                lemma_push_drop_last(self.indices@, Index::Ellipsis);
            }
            self.ellipsis_pos = Some(self.indices.len());
            self.indices.push(Index::Ellipsis);
        }
    }

    pub fn has_ellipsis(&self) -> (r: bool)
        requires
            self.wf(),
        ensures
            r == has_dots(self@),
    {
        self.ellipsis_pos.is_some()
    }

    /// The position of the first ellipsis.
    pub fn ellipsis_position(&self) -> (r: Option<usize>)
        requires
            self.wf(),
        ensures
            r == (if has_dots(self@) {
                Some(first_ellipsis(self@) as usize)
            } else {
                None::<usize>
            }),
    {
        self.ellipsis_pos
    }

    /// The number of letters.
    pub fn explicit_count(&self) -> (r: usize)
        requires
            self.wf(),
        ensures
            r == named(self@).len(),
    {
        self.explicit_count
    }

    /// The number of entries; an ellipsis counts as one.
    pub fn len(&self) -> (r: usize)
        ensures
            r == self@.len(),
    {
        self.indices.len()
    }

    pub fn is_empty(&self) -> (r: bool)
        ensures
            r == (self@.len() == 0),
    {
        self.indices.len() == 0
    }

    /// The entries in order.
    pub fn iter(&self) -> (r: Vec<Index>)
        ensures
            r@ == self@,
    {
        let c = self.clone();
        c.indices
    }

    /// The letters in order.
    pub fn named_indices(&self) -> (r: Vec<char>)
        ensures
            r@ == named(self@),
    {
        let mut v: Vec<char> = Vec::new();
        let mut i: usize = 0;
        while i < self.indices.len()
            invariant
                i <= self.indices.len(),
                v@ == named(self.indices@.take(i as int)),
            decreases self.indices.len() - i,
        {
            proof {
                lemma_take_step(self.indices@, i as int);
            }
            match self.indices[i] {
                Index::Named(c) => {
                    v.push(c);
                },
                Index::Ellipsis => {},
            }
            i += 1;
        }
        proof {
            lemma_take_all(self.indices@);
        }
        v
    }

    pub fn as_slice(&self) -> (r: &[Index])
        ensures
            r@ == self@,
    {
        self.indices.as_slice()
    }

    /// Is `c` one of the letters?
    pub fn contains(&self, c: char) -> (r: bool)
        ensures
            r == self@.contains(Index::Named(c)),
            r == named(self@).contains(c),
    {
        let mut i: usize = 0;
        while i < self.indices.len()
            invariant
                i <= self.indices.len(),
                forall|j: int| 0 <= j < i ==> self.indices@[j] != Index::Named(c),
            decreases self.indices.len() - i,
        {
            match self.indices[i] {
                Index::Named(x) => {
                    if x == c {
                        proof {
                            lemma_named_members(self.indices@, c);
                        }
                        return true;
                    }
                },
                Index::Ellipsis => {},
            }
            i += 1;
        }
        proof {
            lemma_named_members(self.indices@, c);
        }
        false
    }

    /// How often the letter `c` occurs.
    pub fn count(&self, c: char) -> (r: usize)
        ensures
            r == count_of(named(self@), c),
    {
        let mut n: usize = 0;
        let mut i: usize = 0;
        while i < self.indices.len()
            invariant
                i <= self.indices.len(),
                n == count_of(named(self.indices@.take(i as int)), c),
                n <= i,
            decreases self.indices.len() - i,
        {
            proof {
                lemma_take_step(self.indices@, i as int);
                lemma_push_drop_last(named(self.indices@.take(i as int)), c);
            }
            match self.indices[i] {
                Index::Named(x) => {
                    proof {
                        lemma_push_drop_last(named(self.indices@.take(i as int)), x);
                    }
                    if x == c {
                        n += 1;
                    }
                },
                Index::Ellipsis => {},
            }
            i += 1;
        }
        proof {
            lemma_take_all(self.indices@);
        }
        n
    }

    /// The first entry that is the letter `c`.
    pub fn position(&self, c: char) -> (r: Option<usize>)
        ensures
            r is Some <==> self@.contains(Index::Named(c)),
            r matches Some(p) ==> p < self@.len() && self@[p as int] == Index::Named(c) && forall|
                j: int,
            | 0 <= j < p ==> self@[j] != Index::Named(c),
    {
        let mut i: usize = 0;
        while i < self.indices.len()
            invariant
                i <= self.indices.len(),
                forall|j: int| 0 <= j < i ==> self.indices@[j] != Index::Named(c),
            decreases self.indices.len() - i,
        {
            match self.indices[i] {
                Index::Named(x) => {
                    if x == c {
                        return Some(i);
                    }
                },
                Index::Ellipsis => {},
            }
            i += 1;
        }
        None
    }

    /// The rank of an operand with this subscript, where the ellipsis stands for
    /// `ellipsis_dims` axes.
    pub fn ndims(&self, ellipsis_dims: usize) -> (r: usize)
        requires
            self.wf(),
            named(self@).len() + ellipsis_dims <= usize::MAX,
        ensures
            r == named(self@).len() + if has_dots(self@) {
                ellipsis_dims as int
            } else {
                0int
            },
    {
        if self.has_ellipsis() {
            self.explicit_count + ellipsis_dims
        } else {
            self.explicit_count
        }
    }

    /// The subscript with its ellipsis replaced by the letters `batch_indices`; one
    /// without ellipsis is copied.
    pub fn expand_ellipsis(&self, batch_indices: &[char]) -> (r: Subscript)
        requires
            self.wf(),
        ensures
            r.wf(),
            !has_dots(self@) ==> r@ == self@,
            has_dots(self@) ==> !has_dots(r@),
            named(r@) == expanded_letters(self@, batch_indices@),
    {
        if !self.has_ellipsis() {
            return self.clone();
        }
        let mut out: Vec<Index> = Vec::new();
        let mut i: usize = 0;
        while i < self.indices.len()
            invariant
                i <= self.indices.len(),
                named(out@) == letters_with(self.indices@.take(i as int), batch_indices@),
                !has_dots(out@),
            decreases self.indices.len() - i,
        {
            proof {
                lemma_take_step(self.indices@, i as int);
            }
            match self.indices[i] {
                Index::Ellipsis => {
                    let ghost before = named(out@);
                    assert(before + batch_indices@.take(0) =~= before);
                    let mut k: usize = 0;
                    while k < batch_indices.len()
                        invariant
                            k <= batch_indices.len(),
                            named(out@) == before + batch_indices@.take(k as int),
                            !has_dots(out@),
                        decreases batch_indices.len() - k,
                    {
                        proof {
                            lemma_take_step(batch_indices@, k as int);
                            lemma_push_drop_last(out@, Index::Named(batch_indices@[k as int]));
                            lemma_first_ellipsis(out@);
                            assert((before + batch_indices@.take(k as int)).push(batch_indices@[k as int])
                                =~= before + batch_indices@.take(k + 1));
                        }
                        out.push(Index::Named(batch_indices[k]));
                        k += 1;
                    }
                    proof {
                        lemma_take_all(batch_indices@);
                    }
                },
                Index::Named(c) => {
                    proof {
                        lemma_push_drop_last(out@, Index::Named(c));
                        lemma_first_ellipsis(out@);
                    }
                    out.push(Index::Named(c));
                },
            }
            i += 1;
        }
        proof {
            lemma_take_all(self.indices@);
        }
        Subscript::from_indices(out)
    }

    /// The subscript as it is written.
    pub fn to_string(&self) -> (r: String)
        ensures
            r@ == spell(self@),
    {
        let mut v: Vec<char> = Vec::new();
        let mut i: usize = 0;
        while i < self.indices.len()
            invariant
                i <= self.indices.len(),
                v@ == spell(self.indices@.take(i as int)),
            decreases self.indices.len() - i,
        {
            proof {
                lemma_take_step(self.indices@, i as int);
            }
            match self.indices[i] {
                Index::Named(c) => {
                    v.push(c);
                },
                Index::Ellipsis => {
                    let ghost before = v@;
                    v.push('.');
                    v.push('.');
                    v.push('.');
                    assert(v@ =~= before + seq!['.', '.', '.']);
                },
            }
            i += 1;
        }
        proof {
            lemma_take_all(self.indices@);
        }
        string_of(v.as_slice())
    }
}

/// A letter is among `named(s)` exactly if `s` holds it as an entry.
pub proof fn lemma_named_members(s: Seq<Index>, c: char)
    ensures
        named(s).contains(c) <==> s.contains(Index::Named(c)),
    decreases s.len(),
{
    if s.len() > 0 {
        let t = s.drop_last();
        lemma_named_members(t, c);
        assert(s =~= t.push(s.last()));
        crate::chars::lemma_contains_push(t, s.last(), Index::Named(c));
        match s.last() {
            Index::Named(x) => {
                crate::chars::lemma_contains_push(named(t), x, c);
            },
            Index::Ellipsis => {},
        }
    }
}

impl Default for Subscript {
    fn default() -> (r: Self)
        ensures
            r.wf(),
            r@ == Seq::<Index>::empty(),
    {
        Subscript::new()
    }
}

} // verus!

