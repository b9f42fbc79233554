//! Hash tables from `hashbrown`, behind contracts over their contents, and two
//! functions of the standard library on characters and strings.
//!
//! Nothing in this file is proved: each function states what the method that
//! it calls is documented to do. The tables are seeded per process, so no
//! contract here speaks of the order in which a table is walked.

use vstd::prelude::*;

verus! {

/// A `hashbrown::HashMap` from index letters to sizes.
#[verifier::external_body]
pub struct DimMap {
    inner: hashbrown::HashMap<char, usize>,
}

/// The bindings that a `DimMap` holds.
pub uninterp spec fn dim_bindings(m: DimMap) -> Map<char, usize>;

impl DimMap {
    /// `hashbrown::HashMap::new`: a map without bindings.
    #[verifier::external_body]
    pub(crate) fn new() -> (m: DimMap)
        ensures
            dim_bindings(m) == (Map::<char, usize>::empty()),
    {
        DimMap { inner: hashbrown::HashMap::new() }
    }

    /// `hashbrown::HashMap::insert`: binds `k` to `v`, replacing an earlier binding
    /// of `k`, which is returned.
    #[verifier::external_body]
    pub(crate) fn insert(&mut self, k: char, v: usize) -> (prev: Option<usize>)
        ensures
            dim_bindings(*final(self)) == dim_bindings(*old(self)).insert(k, v),
            prev == (if dim_bindings(*old(self)).contains_key(k) {
                Some(dim_bindings(*old(self))[k])
            } else {
                None::<usize>
            }),
    {
        self.inner.insert(k, v)
    }

    /// `hashbrown::HashMap::get`: the size bound to `k`, if there is one.
    #[verifier::external_body]
    pub(crate) fn get(&self, k: char) -> (r: Option<usize>)
        ensures
            r == (if dim_bindings(*self).contains_key(k) {
                Some(dim_bindings(*self)[k])
            } else {
                None::<usize>
            }),
    {
        self.inner.get(&k).copied()
    }

    /// `hashbrown::HashMap::keys`: every bound letter once, in an order that the
    /// contract leaves open.
    #[verifier::external_body]
    pub(crate) fn keys(&self) -> (r: Vec<char>)
        ensures
            r@.no_duplicates(),
            forall|c: char| r@.contains(c) <==> dim_bindings(*self).contains_key(c),
    {
        self.inner.keys().copied().collect()
    }
}

/// A `hashbrown::HashSet` of index letters.
#[verifier::external_body]
pub struct LetterSet {
    inner: hashbrown::HashSet<char>,
}

/// The letters that a `LetterSet` holds.
pub uninterp spec fn letters_of(s: LetterSet) -> Set<char>;

impl LetterSet {
    /// `hashbrown::HashSet::new`: the empty set.
    #[verifier::external_body]
    pub(crate) fn new() -> (s: LetterSet)
        ensures
            letters_of(s) == Set::<char>::empty(),
    {
        LetterSet { inner: hashbrown::HashSet::new() }
    }

    /// `hashbrown::HashSet::insert`: adds `c` and says whether it was new.
    #[verifier::external_body]
    pub(crate) fn insert(&mut self, c: char) -> (added: bool)
        ensures
            letters_of(*final(self)) == letters_of(*old(self)).insert(c),
            added == !letters_of(*old(self)).contains(c),
    {
        self.inner.insert(c)
    }

    /// `hashbrown::HashSet::contains`: membership.
    #[verifier::external_body]
    pub(crate) fn contains(&self, c: char) -> (r: bool)
        ensures
            r == letters_of(*self).contains(c),
    {
        self.inner.contains(&c)
    }
}

/// A `hashbrown::HashSet` of positions of tensors.
#[verifier::external_body]
pub struct TensorSet {
    inner: hashbrown::HashSet<usize>,
}

/// The positions that a `TensorSet` holds.
pub uninterp spec fn tensors_of(s: TensorSet) -> Set<usize>;

impl TensorSet {
    /// `hashbrown::HashSet::new`: the empty set.
    #[verifier::external_body]
    pub(crate) fn new() -> (s: TensorSet)
        ensures
            tensors_of(s) == Set::<usize>::empty(),
    {
        TensorSet { inner: hashbrown::HashSet::new() }
    }

    /// `hashbrown::HashSet::insert`: adds `t` and says whether it was new.
    #[verifier::external_body]
    pub(crate) fn insert(&mut self, t: usize) -> (added: bool)
        ensures
            tensors_of(*final(self)) == tensors_of(*old(self)).insert(t),
            added == !tensors_of(*old(self)).contains(t),
    {
        self.inner.insert(t)
    }

    /// `hashbrown::HashSet::iter`: every position of the set once, in an order
    /// that the contract leaves open.
    #[verifier::external_body]
    pub(crate) fn items(&self) -> (r: Vec<usize>)
        ensures
            r@.no_duplicates(),
            forall|t: usize| r@.contains(t) <==> tensors_of(*self).contains(t),
    {
        self.inner.iter().copied().collect()
    }
}

/// A `hashbrown::HashMap` from subsets of operand positions, as bit masks, to
/// slots of a table.
#[verifier::external_body]
pub struct SubsetIndex {
    inner: hashbrown::HashMap<u32, usize>,
}

/// The slots that a `SubsetIndex` holds.
pub uninterp spec fn subset_slots(m: SubsetIndex) -> Map<u32, usize>;

impl SubsetIndex {
    /// `hashbrown::HashMap::new`: a map without entries.
    #[verifier::external_body]
    pub(crate) fn new() -> (m: SubsetIndex)
        ensures
            subset_slots(m) == (Map::<u32, usize>::empty()),
    {
        SubsetIndex { inner: hashbrown::HashMap::new() }
    }

    /// `hashbrown::HashMap::insert`: maps `k` to `v`, replacing an earlier entry
    /// of `k`, which is returned.
    #[verifier::external_body]
    pub(crate) fn insert(&mut self, k: u32, v: usize) -> (prev: Option<usize>)
        ensures
            subset_slots(*final(self)) == subset_slots(*old(self)).insert(k, v),
            prev == (if subset_slots(*old(self)).contains_key(k) {
                Some(subset_slots(*old(self))[k])
            } else {
                None::<usize>
            }),
    {
        self.inner.insert(k, v)
    }

    /// `hashbrown::HashMap::get`: the slot of `k`, if there is one.
    #[verifier::external_body]
    pub(crate) fn get(&self, k: u32) -> (r: Option<usize>)
        ensures
            r == (if subset_slots(*self).contains_key(k) {
                Some(subset_slots(*self)[k])
            } else {
                None::<usize>
            }),
    {
        self.inner.get(&k).copied()
    }
}

/// `char::from_u32`: the character with the code point `n`, where `n` is a Unicode
/// scalar value, and `None` for a surrogate or a number above `0x10FFFF`.
#[verifier::external_body]
pub(crate) fn char_at(n: u32) -> (r: Option<char>)
    ensures
        r is Some <==> (n <= 0xD7FF || (0xE000 <= n && n <= 0x10FFFF)),
        r matches Some(c) ==> c == n as char,
{
    char::from_u32(n)
}

/// `String::push`: appends the character to the string.
#[verifier::external_body]
pub(crate) fn push_char(s: &mut String, c: char)
    ensures
        final(s)@ == old(s)@.push(c),
{
    s.push(c)
}

} // verus!
