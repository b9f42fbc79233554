//! An ordered set of index letters.

use crate::chars::{contains_char, copy_chars, lemma_contains_push, lemma_take_all, lemma_take_step};
use vstd::prelude::*;

verus! {

/// Strictly increasing by code point.
pub open spec fn increasing(s: Seq<char>) -> bool {
    forall|i: int, j: int| 0 <= i < j < s.len() ==> s[i] < s[j]
}

/// Number of letters of `s` that are smaller than `c`.
pub open spec fn rank_of(s: Seq<char>, c: char) -> int
    decreases s.len(),
{
    if s.len() == 0 {
        0
    } else {
        rank_of(s.drop_last(), c) + if s.last() < c {
            1int
        } else {
            0int
        }
    }
}

/// `s` with `c` put at its place in the order, unless `s` holds it already.
pub open spec fn put(s: Seq<char>, c: char) -> Seq<char> {
    if s.contains(c) {
        s
    } else {
        s.insert(rank_of(s, c), c)
    }
}

/// The letters of `s`, each once, in increasing order.
pub open spec fn ordered(s: Seq<char>) -> Seq<char>
    decreases s.len(),
{
    if s.len() == 0 {
        Seq::empty()
    } else {
        put(ordered(s.drop_last()), s.last())
    }
}

/// In an increasing sequence the rank of `c` is the first position that is not below it.
pub proof fn lemma_rank(s: Seq<char>, c: char)
    requires
        increasing(s),
    ensures
        0 <= rank_of(s, c) <= s.len(),
        forall|j: int| 0 <= j < rank_of(s, c) ==> s[j] < c,
        forall|j: int| rank_of(s, c) <= j < s.len() ==> s[j] >= c,
    decreases s.len(),
{
    if s.len() > 0 {
        let t = s.drop_last();
        assert(increasing(t)) by {
            assert forall|i: int, j: int| 0 <= i < j < t.len() implies t[i] < t[j] by {
                assert(t[i] == s[i] && t[j] == s[j]);
            }
        }
        lemma_rank(t, c);
        let r = rank_of(t, c);
        assert forall|j: int| 0 <= j < rank_of(s, c) implies s[j] < c by {
            if j < t.len() {
                assert(t[j] == s[j]);
                if j >= r {
                    assert(s[j] < s[s.len() - 1]);
                }
            }
        }
        assert forall|j: int| rank_of(s, c) <= j < s.len() implies s[j] >= c by {
            if j < t.len() {
                assert(t[j] == s[j]);
                if s.last() < c {
                    assert(r == t.len()) by {
                        if r < t.len() {
                            assert(t[r] >= c);
                            assert(t[r] == s[r]);
                            assert(s[r] < s[s.len() - 1]);
                        }
                    }
                }
            }
        }
    }
}

/// `put` keeps the order and adds exactly `c`.
pub proof fn lemma_put(s: Seq<char>, c: char)
    requires
        increasing(s),
    ensures
        increasing(put(s, c)),
        forall|x: char| #[trigger] put(s, c).contains(x) <==> (s.contains(x) || x == c),
        put(s, c).len() == s.len() + if s.contains(c) { 0int } else { 1int },
{
    if !s.contains(c) {
        lemma_rank(s, c);
        let r = rank_of(s, c);
        let p = s.insert(r, c);
        assert forall|i: int, j: int| 0 <= i < j < p.len() implies p[i] < p[j] by {
            if j < r {
                assert(p[i] == s[i] && p[j] == s[j]);
            } else if j == r {
                assert(p[i] == s[i]);
            } else if i < r {
                assert(p[i] == s[i] && p[j] == s[j - 1]);
                if s[j - 1] == c {
                    assert(s[j - 1] == c);
                    assert(s.contains(c));
                }
            } else if i == r {
                assert(p[j] == s[j - 1]);
                if s[j - 1] == c {
                    assert(s[j - 1] == c);
                    assert(s.contains(c));
                }
            } else {
                assert(p[i] == s[i - 1] && p[j] == s[j - 1]);
            }
        }
        assert forall|x: char| #[trigger] p.contains(x) <==> (s.contains(x) || x == c) by {
            if s.contains(x) {
                let k = choose|k: int| 0 <= k < s.len() && s[k] == x;
                if k < r {
                    assert(p[k] == x);
                } else {
                    assert(p[k + 1] == x);
                }
            }
            if x == c {
                assert(p[r] == x);
            }
            if p.contains(x) {
                let k = choose|k: int| 0 <= k < p.len() && p[k] == x;
                if k < r {
                    assert(s[k] == x);
                } else if k > r {
                    assert(s[k - 1] == x);
                }
            }
        }
    }
}

/// `ordered(s)` is increasing and holds exactly the letters of `s`.
pub proof fn lemma_ordered(s: Seq<char>)
    ensures
        increasing(ordered(s)),
        forall|x: char| #[trigger] ordered(s).contains(x) <==> s.contains(x),
        ordered(s).no_duplicates(),
        ordered(s).len() <= s.len(),
    decreases s.len(),
{
    if s.len() > 0 {
        let t = s.drop_last();
        lemma_ordered(t);
        lemma_put(ordered(t), s.last());
        assert(s =~= t.push(s.last()));
        assert forall|x: char| #[trigger] ordered(s).contains(x) <==> s.contains(x) by {
            lemma_contains_push(t, s.last(), x);
        }
    }
    lemma_increasing_distinct(ordered(s));
}

pub proof fn lemma_increasing_distinct(s: Seq<char>)
    requires
        increasing(s),
    ensures
        s.no_duplicates(),
{
    assert forall|i: int, j: int| 0 <= i < s.len() && 0 <= j < s.len() && i != j implies s[i] != s[j] by {
        if i < j {
            assert(s[i] < s[j]);
        } else {
            assert(s[j] < s[i]);
        }
    }
}

/// Two increasing sequences with the same letters are the same sequence.
pub proof fn lemma_increasing_unique(a: Seq<char>, b: Seq<char>)
    requires
        increasing(a),
        increasing(b),
        forall|x: char| a.contains(x) <==> b.contains(x),
    ensures
        a == b,
    decreases a.len(),
{
    if a.len() == 0 {
        if b.len() > 0 {
            assert(b.contains(b[0]));
            assert(a.contains(b[0]));
        }
        assert(a =~= b);
    } else {
        let m = a.last();
        assert(a.contains(m));
        assert(b.contains(m));
        let k = choose|k: int| 0 <= k < b.len() && b[k] == m;
        assert(k == b.len() - 1) by {
            if k < b.len() - 1 {
                let y = b[b.len() - 1];
                assert(b[k] < y);
                assert(b.contains(y));
                assert(a.contains(y));
                let i = choose|i: int| 0 <= i < a.len() && a[i] == y;
                if i < a.len() - 1 {
                    assert(a[i] < a[a.len() - 1]);
                }
            }
        }
        let ta = a.drop_last();
        let tb = b.drop_last();
        assert(increasing(ta)) by {
            assert forall|i: int, j: int| 0 <= i < j < ta.len() implies ta[i] < ta[j] by {
                assert(ta[i] == a[i] && ta[j] == a[j]);
            }
        }
        assert(increasing(tb)) by {
            assert forall|i: int, j: int| 0 <= i < j < tb.len() implies tb[i] < tb[j] by {
                assert(tb[i] == b[i] && tb[j] == b[j]);
            }
        }
        assert forall|x: char| ta.contains(x) <==> tb.contains(x) by {
            if ta.contains(x) {
                let i = choose|i: int| 0 <= i < ta.len() && ta[i] == x;
                assert(a[i] == x);
                assert(a[i] < a[a.len() - 1]);
                assert(a.contains(x));
                assert(b.contains(x));
                let j = choose|j: int| 0 <= j < b.len() && b[j] == x;
                assert(j < b.len() - 1);
                assert(tb[j] == x);
            }
            if tb.contains(x) {
                let i = choose|i: int| 0 <= i < tb.len() && tb[i] == x;
                assert(b[i] == x);
                assert(b[i] < b[b.len() - 1]);
                assert(b.contains(x));
                assert(a.contains(x));
                let j = choose|j: int| 0 <= j < a.len() && a[j] == x;
                assert(j < a.len() - 1);
                assert(ta[j] == x);
            }
        }
        lemma_increasing_unique(ta, tb);
        assert(a =~= ta.push(m));
        assert(b =~= tb.push(m));
    }
}

/// A set of index letters that is walked in increasing order.
#[derive(Debug)]
pub struct IndexSet {
    items: Vec<char>,
}

impl View for IndexSet {
    type V = Set<char>;

    closed spec fn view(&self) -> Set<char> {
        Set::new(|c: char| self.items@.contains(c))
    }
}

impl Clone for IndexSet {
    fn clone(&self) -> (r: Self)
        ensures
            r.elements() == self.elements(),
            r@ == self@,
    {
        IndexSet { items: copy_chars(self.items.as_slice()) }
    }
}

impl IndexSet {
    /// The letters in increasing order.
    pub closed spec fn elements(&self) -> Seq<char> {
        self.items@
    }

    /// The letters stand in increasing order, so each stands once.
    pub closed spec fn wf(&self) -> bool {
        increasing(self.items@)
    }

    /// A set is determined by its letters: the elements are `ordered` of any
    /// sequence with the same letters.
    pub proof fn lemma_elements_of(&self, s: Seq<char>)
        requires
            self.wf(),
            forall|c: char| self@.contains(c) <==> s.contains(c),
        ensures
            self.elements() == ordered(s),
    {
        lemma_ordered(s);
        lemma_increasing_unique(self.items@, ordered(s));
    }

    pub fn new() -> (r: Self)
        ensures
            r.wf(),
            r@ == Set::<char>::empty(),
            r.elements() == Seq::<char>::empty(),
    {
        let r = IndexSet { items: Vec::new() };
        assert(r@ =~= Set::<char>::empty());
        r
    }

    /// Adds `c`; returns whether it was new.
    pub fn insert(&mut self, c: char) -> (added: bool)
        requires
            old(self).wf(),
        ensures
            final(self).wf(),
            final(self)@ == old(self)@.insert(c),
            final(self).elements() == put(old(self).elements(), c),
            added == !old(self)@.contains(c),
    {
        let mut i: usize = 0;
        while i < self.items.len() && self.items[i] < c
            invariant
                i <= self.items.len(),
                self.items@ == old(self).items@,
                increasing(self.items@),
                forall|j: int| 0 <= j < i ==> self.items@[j] < c,
            decreases self.items.len() - i,
        {
            i += 1;
        }
        if i < self.items.len() && self.items[i] == c {
            proof {
                assert(self.items@.contains(c));
                assert(self@ =~= self@.insert(c));
            }
            return false;
        }
        proof {
            let s = self.items@;
            lemma_rank(s, c);
            assert(!s.contains(c)) by {
                if s.contains(c) {
                    let k = choose|k: int| 0 <= k < s.len() && s[k] == c;
                    if k > i {
                        assert(s[i as int] < s[k]);
                    }
                }
            }
            assert(rank_of(s, c) == i) by {
                let r = rank_of(s, c);
                if r < i {
                    assert(s[r] < c);
                    assert(s[r] >= c);
                }
                if r > i {
                    assert(s[i as int] < c);
                }
            }
            lemma_put(s, c);
        }
        let ghost before = self.items@;
        self.items.insert(i, c);
        proof {
            assert(self.items@ == put(before, c));
            assert(self@ =~= old(self)@.insert(c)) by {
                assert forall|x: char| self@.contains(x) <==> old(self)@.insert(c).contains(x) by {
                    assert(put(before, c).contains(x) <==> (before.contains(x) || x == c));
                }
            }
        }
        true
    }

    pub fn contains(&self, c: &char) -> (r: bool)
        ensures
            r == self@.contains(*c),
    {
        contains_char(self.items.as_slice(), *c)
    }

    pub fn len(&self) -> (r: usize)
        ensures
            r == self.elements().len(),
    {
        self.items.len()
    }

    pub fn is_empty(&self) -> (r: bool)
        ensures
            r == (self.elements().len() == 0),
            r == (self@ == Set::<char>::empty()),
    {
        proof {
            if self.items@.len() == 0 {
                assert(self@ =~= Set::<char>::empty());
            } else {
                assert(self.items@.contains(self.items@[0]));
                assert(self@.contains(self.items@[0]));
            }
        }
        self.items.len() == 0
    }

    /// The letters in increasing order.
    pub fn to_vec(&self) -> (r: Vec<char>)
        ensures
            r@ == self.elements(),
    {
        copy_chars(self.items.as_slice())
    }

    /// The set of the letters of `v`.
    pub fn from_chars(v: &[char]) -> (r: Self)
        ensures
            r.wf(),
            r.elements() == ordered(v@),
            forall|c: char| r@.contains(c) <==> v@.contains(c),
    {
        let mut r = IndexSet::new();
        let mut i: usize = 0;
        while i < v.len()
            invariant
                i <= v.len(),
                r.wf(),
                r.elements() == ordered(v@.take(i as int)),
            decreases v.len() - i,
        {
            proof {
                lemma_take_step(v@, i as int);
            }
            r.insert(v[i]);
            i += 1;
        }
        proof {
            lemma_take_all(v@);
            lemma_ordered(v@);
        }
        r
    }
}

} // verus!
