//! Character classes and small sequence functions over index letters.

use vstd::prelude::*;

verus! {

/// A letter that may name a tensor axis.
pub open spec fn is_letter(c: char) -> bool {
    ('a' <= c && c <= 'z') || ('A' <= c && c <= 'Z')
}

/// A character with the Unicode property `White_Space`.
pub open spec fn is_whitespace(c: char) -> bool {
    ('\u{9}' <= c && c <= '\u{D}') || c == ' ' || c == '\u{85}' || c == '\u{A0}' || c == '\u{1680}' || (
    '\u{2000}' <= c && c <= '\u{200A}') || c == '\u{2028}' || c == '\u{2029}' || c == '\u{202F}' || c
        == '\u{205F}' || c == '\u{3000}'
}

/// Blank characters that may stand between the letters of a subscript.
pub open spec fn is_inner_blank(c: char) -> bool {
    c == ' ' || c == '\t'
}

pub fn letter(c: char) -> (r: bool)
    ensures
        r == is_letter(c),
{
    (c >= 'a' && c <= 'z') || (c >= 'A' && c <= 'Z')
}

pub fn whitespace(c: char) -> (r: bool)
    ensures
        r == is_whitespace(c),
{
    ('\u{9}' <= c && c <= '\u{D}') || c == ' ' || c == '\u{85}' || c == '\u{A0}' || c == '\u{1680}' || (
    '\u{2000}' <= c && c <= '\u{200A}') || c == '\u{2028}' || c == '\u{2029}' || c == '\u{202F}' || c
        == '\u{205F}' || c == '\u{3000}'
}

/// Number of occurrences of `c` in `s`.
pub open spec fn count_of(s: Seq<char>, c: char) -> nat
    decreases s.len(),
{
    if s.len() == 0 {
        0
    } else {
        count_of(s.drop_last(), c) + if s.last() == c {
            1nat
        } else {
            0nat
        }
    }
}

/// Position of the first occurrence of `c` in `s`, or `s.len()` when there is none.
pub open spec fn first_position(s: Seq<char>, c: char) -> int
    decreases s.len(),
{
    if s.len() == 0 {
        0
    } else {
        let p = first_position(s.drop_last(), c);
        if p < s.len() - 1 {
            p
        } else if s.last() == c {
            s.len() - 1
        } else {
            s.len() as int
        }
    }
}

/// The letters of `s` that lie in `keep`, in their order.
pub open spec fn keep_in(s: Seq<char>, keep: Set<char>) -> Seq<char>
    decreases s.len(),
{
    if s.len() == 0 {
        Seq::empty()
    } else if keep.contains(s.last()) {
        keep_in(s.drop_last(), keep).push(s.last())
    } else {
        keep_in(s.drop_last(), keep)
    }
}

/// The letters of `s` that do not lie in `drop`, in their order.
pub open spec fn keep_not_in(s: Seq<char>, drop: Set<char>) -> Seq<char>
    decreases s.len(),
{
    if s.len() == 0 {
        Seq::empty()
    } else if drop.contains(s.last()) {
        keep_not_in(s.drop_last(), drop)
    } else {
        keep_not_in(s.drop_last(), drop).push(s.last())
    }
}

/// The positions of `s` whose letter lies in `keep`, ascending.
pub open spec fn positions_in(s: Seq<char>, keep: Set<char>) -> Seq<usize>
    decreases s.len(),
{
    if s.len() == 0 {
        Seq::empty()
    } else if keep.contains(s.last()) {
        positions_in(s.drop_last(), keep).push((s.len() - 1) as usize)
    } else {
        positions_in(s.drop_last(), keep)
    }
}

/// The positions of `s` whose letter does not lie in `drop`, ascending.
pub open spec fn positions_not_in(s: Seq<char>, drop: Set<char>) -> Seq<usize>
    decreases s.len(),
{
    if s.len() == 0 {
        Seq::empty()
    } else if drop.contains(s.last()) {
        positions_not_in(s.drop_last(), drop)
    } else {
        positions_not_in(s.drop_last(), drop).push((s.len() - 1) as usize)
    }
}

/// Each letter of `s` once, in the order of first appearance.
pub open spec fn distinct(s: Seq<char>) -> Seq<char>
    decreases s.len(),
{
    if s.len() == 0 {
        Seq::empty()
    } else {
        let d = distinct(s.drop_last());
        if d.contains(s.last()) {
            d
        } else {
            d.push(s.last())
        }
    }
}

/// One step of a left-to-right walk: the prefix of length `i + 1` is the prefix of
/// length `i` with `s[i]` pushed.
pub proof fn lemma_take_step<T>(s: Seq<T>, i: int)
    requires
        0 <= i < s.len(),
    ensures
        s.take(i + 1).drop_last() == s.take(i),
        s.take(i + 1).last() == s[i],
        s.take(i + 1).len() == i + 1,
        s.take(i + 1) == s.take(i).push(s[i]),
{
    assert(s.take(i + 1).drop_last() =~= s.take(i));
    assert(s.take(i + 1) =~= s.take(i).push(s[i]));
}

pub proof fn lemma_take_all<T>(s: Seq<T>)
    ensures
        s.take(s.len() as int) == s,
        s.take(0) == Seq::<T>::empty(),
{
    assert(s.take(s.len() as int) =~= s);
    assert(s.take(0) =~= Seq::<T>::empty());
}

pub proof fn lemma_push_drop_last<T>(s: Seq<T>, x: T)
    ensures
        s.push(x).drop_last() == s,
        s.push(x).last() == x,
{
    assert(s.push(x).drop_last() =~= s);
}

/// What `first_position` returns: the least index that holds `c`, or the length.
pub proof fn lemma_first_position(s: Seq<char>, c: char)
    ensures
        0 <= first_position(s, c) <= s.len(),
        first_position(s, c) < s.len() ==> s[first_position(s, c)] == c,
        forall|j: int| 0 <= j < first_position(s, c) ==> s[j] != c,
        first_position(s, c) < s.len() <==> s.contains(c),
    decreases s.len(),
{
    if s.len() > 0 {
        lemma_first_position(s.drop_last(), c);
        let p = first_position(s.drop_last(), c);
        let q = first_position(s, c);
        assert forall|j: int| 0 <= j < q implies s[j] != c by {
            if j < s.len() - 1 {
                assert(s.drop_last()[j] == s[j]);
            }
        }
        if q < s.len() {
            assert(s[q] == c) by {
                if p < s.len() - 1 {
                    assert(s.drop_last()[p] == s[p]);
                }
            }
        }
        if s.contains(c) {
            let k = choose|k: int| 0 <= k < s.len() && s[k] == c;
            if q >= s.len() {
                assert(s[k] != c);
            }
        }
    }
}

pub proof fn lemma_count_of_zero(s: Seq<char>, c: char)
    ensures
        count_of(s, c) == 0 <==> !s.contains(c),
        count_of(s, c) <= s.len(),
    decreases s.len(),
{
    if s.len() > 0 {
        lemma_count_of_zero(s.drop_last(), c);
        if s.contains(c) {
            let k = choose|k: int| 0 <= k < s.len() && s[k] == c;
            if k < s.len() - 1 {
                assert(s.drop_last()[k] == c);
            }
        }
        if s.drop_last().contains(c) {
            let k = choose|k: int| 0 <= k < s.drop_last().len() && s.drop_last()[k] == c;
            assert(s[k] == c);
        }
    }
}

pub proof fn lemma_count_of_add(a: Seq<char>, b: Seq<char>, c: char)
    ensures
        count_of(a + b, c) == count_of(a, c) + count_of(b, c),
    decreases b.len(),
{
    if b.len() == 0 {
        assert(a + b =~= a);
    } else {
        assert((a + b).drop_last() =~= a + b.drop_last());
        lemma_count_of_add(a, b.drop_last(), c);
    }
}

/// `keep_in` keeps exactly the members of `keep`.
pub proof fn lemma_keep_in(s: Seq<char>, keep: Set<char>)
    ensures
        forall|c: char| #[trigger] keep_in(s, keep).contains(c) <==> (s.contains(c) && keep.contains(c)),
        keep_in(s, keep).len() <= s.len(),
        s.no_duplicates() ==> keep_in(s, keep).no_duplicates(),
    decreases s.len(),
{
    if s.len() > 0 {
        let t = s.drop_last();
        lemma_keep_in(t, keep);
        let r = keep_in(s, keep);
        let rt = keep_in(t, keep);
        assert(s =~= t.push(s.last()));
        assert forall|c: char| #[trigger] r.contains(c) <==> (s.contains(c) && keep.contains(c)) by {
            lemma_contains_push(t, s.last(), c);
            if keep.contains(s.last()) {
                lemma_contains_push(rt, s.last(), c);
            }
        }
        if s.no_duplicates() {
            assert(t.no_duplicates());
            if keep.contains(s.last()) {
                assert(!t.contains(s.last())) by {
                    if t.contains(s.last()) {
                        let k = choose|k: int| 0 <= k < t.len() && t[k] == s.last();
                        assert(s[k] == s[s.len() - 1]);
                    }
                }
                lemma_no_duplicates_push(rt, s.last());
            }
        }
    }
}

/// `keep_not_in` keeps exactly the letters outside `drop`.
pub proof fn lemma_keep_not_in(s: Seq<char>, drop: Set<char>)
    ensures
        forall|c: char| #[trigger] keep_not_in(s, drop).contains(c) <==> (s.contains(c) && !drop.contains(c)),
        keep_not_in(s, drop).len() <= s.len(),
        s.no_duplicates() ==> keep_not_in(s, drop).no_duplicates(),
    decreases s.len(),
{
    if s.len() > 0 {
        let t = s.drop_last();
        lemma_keep_not_in(t, drop);
        let r = keep_not_in(s, drop);
        let rt = keep_not_in(t, drop);
        assert(s =~= t.push(s.last()));
        assert forall|c: char| #[trigger] r.contains(c) <==> (s.contains(c) && !drop.contains(c)) by {
            lemma_contains_push(t, s.last(), c);
            if !drop.contains(s.last()) {
                lemma_contains_push(rt, s.last(), c);
            }
        }
        if s.no_duplicates() {
            assert(t.no_duplicates());
            if !drop.contains(s.last()) {
                assert(!t.contains(s.last())) by {
                    if t.contains(s.last()) {
                        let k = choose|k: int| 0 <= k < t.len() && t[k] == s.last();
                        assert(s[k] == s[s.len() - 1]);
                    }
                }
                lemma_no_duplicates_push(rt, s.last());
            }
        }
    }
}

/// `distinct` holds the letters of `s`, each once.
pub proof fn lemma_distinct(s: Seq<char>)
    ensures
        distinct(s).no_duplicates(),
        forall|c: char| #[trigger] distinct(s).contains(c) <==> s.contains(c),
        distinct(s).len() <= s.len(),
        s.no_duplicates() ==> distinct(s) == s,
    decreases s.len(),
{
    if s.len() > 0 {
        let t = s.drop_last();
        lemma_distinct(t);
        let d = distinct(t);
        assert(s =~= t.push(s.last()));
        assert forall|c: char| #[trigger] distinct(s).contains(c) <==> s.contains(c) by {
            lemma_contains_push(t, s.last(), c);
            lemma_contains_push(d, s.last(), c);
        }
        if !d.contains(s.last()) {
            lemma_no_duplicates_push(d, s.last());
        }
        if s.no_duplicates() {
            assert(t.no_duplicates());
            assert(!t.contains(s.last())) by {
                if t.contains(s.last()) {
                    let k = choose|k: int| 0 <= k < t.len() && t[k] == s.last();
                    assert(s[k] == s[s.len() - 1]);
                }
            }
        }
    } else {
        assert(distinct(s) =~= s);
    }
}

/// Membership after a push.
pub proof fn lemma_contains_push<T>(s: Seq<T>, x: T, y: T)
    ensures
        s.push(x).contains(y) <==> (s.contains(y) || x == y),
{
    if s.contains(y) {
        let k = choose|k: int| 0 <= k < s.len() && s[k] == y;
        assert(s.push(x)[k] == y);
    }
    if x == y {
        assert(s.push(x)[s.len() as int] == y);
    }
    if s.push(x).contains(y) {
        let k = choose|k: int| 0 <= k < s.push(x).len() && s.push(x)[k] == y;
        if k < s.len() {
            assert(s[k] == y);
        }
    }
}

/// Pushing a new element keeps a sequence free of duplicates.
pub proof fn lemma_no_duplicates_push<T>(s: Seq<T>, x: T)
    requires
        s.no_duplicates(),
        !s.contains(x),
    ensures
        s.push(x).no_duplicates(),
{
    assert forall|i: int, j: int| 0 <= i < j < s.push(x).len() implies s.push(x)[i] != s.push(x)[j] by {
        if j == s.len() {
            assert(s[i] != x) by {
                if s[i] == x {
                    assert(s.contains(x));
                }
            }
        }
    }
}

/// Is `c` an element of `v`?
pub fn contains_char(v: &[char], c: char) -> (r: bool)
    ensures
        r == v@.contains(c),
{
    let mut i: usize = 0;
    while i < v.len()
        invariant
            i <= v.len(),
            forall|j: int| 0 <= j < i ==> v@[j] != c,
        decreases v.len() - i,
    {
        if v[i] == c {
            return true;
        }
        i += 1;
    }
    false
}

/// The first position of `c` in `v`.
pub fn position_char(v: &[char], c: char) -> (r: Option<usize>)
    ensures
        match r {
            Some(p) => p == first_position(v@, c) && p < v@.len(),
            None => first_position(v@, c) == v@.len(),
        },
        r is Some <==> v@.contains(c),
{
    let mut i: usize = 0;
    while i < v.len()
        invariant
            i <= v.len(),
            forall|j: int| 0 <= j < i ==> v@[j] != c,
        decreases v.len() - i,
    {
        if v[i] == c {
            proof {
                lemma_first_position(v@, c);
            }
            return Some(i);
        }
        i += 1;
    }
    proof {
        lemma_first_position(v@, c);
    }
    None
}

/// A copy of a slice of letters.
pub fn copy_chars(v: &[char]) -> (r: Vec<char>)
    ensures
        r@ == v@,
{
    let mut r: Vec<char> = Vec::new();
    let mut i: usize = 0;
    while i < v.len()
        invariant
            i <= v.len(),
            r@ == v@.take(i as int),
        decreases v.len() - i,
    {
        proof {
            lemma_take_step(v@, i as int);
        }
        r.push(v[i]);
        i += 1;
    }
    proof {
        lemma_take_all(v@);
    }
    r
}

/// A copy of a slice of sizes.
pub fn copy_sizes(v: &[usize]) -> (r: Vec<usize>)
    ensures
        r@ == v@,
{
    let mut r: Vec<usize> = Vec::new();
    let mut i: usize = 0;
    while i < v.len()
        invariant
            i <= v.len(),
            r@ == v@.take(i as int),
        decreases v.len() - i,
    {
        proof {
            lemma_take_step(v@, i as int);
        }
        r.push(v[i]);
        i += 1;
    }
    proof {
        lemma_take_all(v@);
    }
    r
}

/// Every letter of `s` is a letter of `t`.
pub open spec fn subset_of(s: Seq<char>, t: Seq<char>) -> bool {
    forall|i: int| 0 <= i < s.len() ==> t.contains(#[trigger] s[i])
}

/// `s` and `t` hold the same letters.
pub open spec fn same_letters(s: Seq<char>, t: Seq<char>) -> bool {
    subset_of(s, t) && subset_of(t, s)
}

/// No letter of `s` is a letter of `t`.
pub open spec fn disjoint_from(s: Seq<char>, t: Seq<char>) -> bool {
    forall|i: int| 0 <= i < s.len() ==> !t.contains(#[trigger] s[i])
}

/// The letters that occur a second time in `s`, in the order in which they do.
pub open spec fn repeats(s: Seq<char>) -> Seq<char>
    decreases s.len(),
{
    if s.len() == 0 {
        Seq::empty()
    } else {
        let r = repeats(s.drop_last());
        if s.drop_last().contains(s.last()) && !r.contains(s.last()) {
            r.push(s.last())
        } else {
            r
        }
    }
}

/// The first position of each letter of `s` within `t`.
pub open spec fn positions_within(s: Seq<char>, t: Seq<char>) -> Seq<usize>
    decreases s.len(),
{
    if s.len() == 0 {
        Seq::empty()
    } else {
        positions_within(s.drop_last(), t).push(first_position(t, s.last()) as usize)
    }
}

/// The letters of `s` that are letters of `keep`.
pub fn keep_letters_in(s: &[char], keep: &[char]) -> (r: Vec<char>)
    ensures
        r@ == keep_in(s@, keep@.to_set()),
{
    let mut out: Vec<char> = Vec::new();
    let mut i: usize = 0;
    while i < s.len()
        invariant
            i <= s.len(),
            out@ == keep_in(s@.take(i as int), keep@.to_set()),
        decreases s.len() - i,
    {
        proof {
            lemma_take_step(s@, i as int);
        }
        if contains_char(keep, s[i]) {
            out.push(s[i]);
        }
        i += 1;
    }
    proof {
        lemma_take_all(s@);
    }
    out
}

/// The letters of `s` that are not letters of `drop`.
pub fn keep_letters_not_in(s: &[char], drop: &[char]) -> (r: Vec<char>)
    ensures
        r@ == keep_not_in(s@, drop@.to_set()),
{
    let mut out: Vec<char> = Vec::new();
    let mut i: usize = 0;
    while i < s.len()
        invariant
            i <= s.len(),
            out@ == keep_not_in(s@.take(i as int), drop@.to_set()),
        decreases s.len() - i,
    {
        proof {
            lemma_take_step(s@, i as int);
        }
        if !contains_char(drop, s[i]) {
            out.push(s[i]);
        }
        i += 1;
    }
    proof {
        lemma_take_all(s@);
    }
    out
}

/// The positions of `s` whose letter is a letter of `keep`.
pub fn letter_positions_in(s: &[char], keep: &[char]) -> (r: Vec<usize>)
    ensures
        r@ == positions_in(s@, keep@.to_set()),
{
    let mut out: Vec<usize> = Vec::new();
    let mut i: usize = 0;
    while i < s.len()
        invariant
            i <= s.len(),
            out@ == positions_in(s@.take(i as int), keep@.to_set()),
        decreases s.len() - i,
    {
        proof {
            lemma_take_step(s@, i as int);
        }
        if contains_char(keep, s[i]) {
            out.push(i);
        }
        i += 1;
    }
    proof {
        lemma_take_all(s@);
    }
    out
}

/// The positions of `s` whose letter is not a letter of `drop`.
pub fn letter_positions_not_in(s: &[char], drop: &[char]) -> (r: Vec<usize>)
    ensures
        r@ == positions_not_in(s@, drop@.to_set()),
{
    let mut out: Vec<usize> = Vec::new();
    let mut i: usize = 0;
    while i < s.len()
        invariant
            i <= s.len(),
            out@ == positions_not_in(s@.take(i as int), drop@.to_set()),
        decreases s.len() - i,
    {
        proof {
            lemma_take_step(s@, i as int);
        }
        if !contains_char(drop, s[i]) {
            out.push(i);
        }
        i += 1;
    }
    proof {
        lemma_take_all(s@);
    }
    out
}

/// Each letter of `s` once, in the order of first appearance.
pub fn distinct_letters(s: &[char]) -> (r: Vec<char>)
    ensures
        r@ == distinct(s@),
{
    let mut out: Vec<char> = Vec::new();
    let mut i: usize = 0;
    while i < s.len()
        invariant
            i <= s.len(),
            out@ == distinct(s@.take(i as int)),
        decreases s.len() - i,
    {
        proof {
            lemma_take_step(s@, i as int);
        }
        if !contains_char(out.as_slice(), s[i]) {
            out.push(s[i]);
        }
        i += 1;
    }
    proof {
        lemma_take_all(s@);
    }
    out
}

/// The letters that occur a second time in `s`.
pub fn repeated_letters(s: &[char]) -> (r: Vec<char>)
    ensures
        r@ == repeats(s@),
{
    let mut out: Vec<char> = Vec::new();
    let mut i: usize = 0;
    while i < s.len()
        invariant
            i <= s.len(),
            out@ == repeats(s@.take(i as int)),
        decreases s.len() - i,
    {
        proof {
            lemma_take_step(s@, i as int);
        }
        let mut seen = false;
        let mut k: usize = 0;
        while k < i
            invariant
                k <= i < s.len(),
                seen <==> exists|q: int| 0 <= q < k && s@[q] == s@[i as int],
            decreases i - k,
        {
            if s[k] == s[i] {
                seen = true;
            }
            k += 1;
        }
        proof {
            let t = s@.take(i as int);
            if seen {
                let q = choose|q: int| 0 <= q < i && s@[q] == s@[i as int];
                assert(t[q] == s@[i as int]);
            }
            if t.contains(s@[i as int]) {
                let q = choose|q: int| 0 <= q < t.len() && t[q] == s@[i as int];
                assert(s@[q] == s@[i as int]);
            }
        }
        if seen && !contains_char(out.as_slice(), s[i]) {
            out.push(s[i]);
        }
        i += 1;
    }
    proof {
        lemma_take_all(s@);
    }
    out
}

/// Is every letter of `s` a letter of `t`?
pub fn is_subset(s: &[char], t: &[char]) -> (r: bool)
    ensures
        r == subset_of(s@, t@),
{
    let mut i: usize = 0;
    while i < s.len()
        invariant
            i <= s.len(),
            forall|j: int| 0 <= j < i ==> t@.contains(#[trigger] s@[j]),
        decreases s.len() - i,
    {
        if !contains_char(t, s[i]) {
            return false;
        }
        i += 1;
    }
    true
}

/// Is no letter of `s` a letter of `t`?
pub fn is_disjoint(s: &[char], t: &[char]) -> (r: bool)
    ensures
        r == disjoint_from(s@, t@),
{
    let mut i: usize = 0;
    while i < s.len()
        invariant
            i <= s.len(),
            forall|j: int| 0 <= j < i ==> !t@.contains(#[trigger] s@[j]),
        decreases s.len() - i,
    {
        if contains_char(t, s[i]) {
            return false;
        }
        i += 1;
    }
    true
}

/// The letters of `a` and then of `b` that are not letters of `drop`, each once.
pub fn merge_letters(a: &[char], b: &[char], drop: &[char]) -> (r: Vec<char>)
    ensures
        r@ == distinct(keep_not_in(a@ + b@, drop@.to_set())),
{
    let mut both = copy_chars(a);
    let mut k: usize = 0;
    assert(a@ + b@.take(0) =~= a@);
    while k < b.len()
        invariant
            k <= b.len(),
            both@ == a@ + b@.take(k as int),
        decreases b.len() - k,
    {
        proof {
            lemma_take_step(b@, k as int);
            assert((a@ + b@.take(k as int)).push(b@[k as int]) =~= a@ + b@.take(k + 1));
        }
        both.push(b[k]);
        k += 1;
    }
    proof {
        lemma_take_all(b@);
    }
    let kept = keep_letters_not_in(both.as_slice(), drop);
    distinct_letters(kept.as_slice())
}

/// The first position within `t` of each letter of `s`, where every letter of `s`
/// is a letter of `t`.
pub fn letter_positions_within(s: &[char], t: &[char]) -> (r: Vec<usize>)
    requires
        subset_of(s@, t@),
    ensures
        r@ == positions_within(s@, t@),
        r@.len() == s@.len(),
        forall|k: int| 0 <= k < r@.len() ==> (#[trigger] r@[k]) < t@.len() && t@[r@[k] as int] == s@[k],
{
    let mut out: Vec<usize> = Vec::new();
    let mut i: usize = 0;
    while i < s.len()
        invariant
            i <= s.len(),
            subset_of(s@, t@),
            out@ == positions_within(s@.take(i as int), t@),
            out@.len() == i,
            forall|k: int| 0 <= k < i ==> (#[trigger] out@[k]) < t@.len() && t@[out@[k] as int] == s@[k],
        decreases s.len() - i,
    {
        proof {
            lemma_take_step(s@, i as int);
            lemma_first_position(t@, s@[i as int]);
            assert(t@.contains(s@[i as int]));
        }
        match position_char(t, s[i]) {
            Some(p) => {
                out.push(p);
            },
            None => {
                assert(false);
            },
        }
        i += 1;
    }
    proof {
        lemma_take_all(s@);
    }
    out
}

/// The first position of `c` in `v`, or the length of `v` where `c` is absent.
pub fn position_or_len(v: &[char], c: char) -> (r: usize)
    ensures
        r == first_position(v@, c),
        r <= v@.len(),
{
    match position_char(v, c) {
        Some(p) => p,
        None => v.len(),
    }
}

/// The position of the first letter of `s` that is a letter of `keep`, or
/// `s.len()`.
pub open spec fn first_member(s: Seq<char>, keep: Seq<char>) -> int
    decreases s.len(),
{
    if s.len() == 0 {
        0
    } else {
        let p = first_member(s.drop_last(), keep);
        if p < s.len() - 1 {
            p
        } else if keep.contains(s.last()) {
            s.len() - 1
        } else {
            s.len() as int
        }
    }
}

/// Once found, the first position stays the first.
pub proof fn lemma_first_member_stays(s: Seq<char>, keep: Seq<char>, n: int)
    requires
        0 <= n <= s.len(),
        first_member(s.take(n), keep) < n,
    ensures
        first_member(s, keep) == first_member(s.take(n), keep),
    decreases s.len() - n,
{
    if n < s.len() {
        lemma_take_step(s, n);
        lemma_first_member_stays(s, keep, n + 1);
    } else {
        lemma_take_all(s);
    }
}

/// The position of the first letter of `s` that is a letter of `keep`.
pub fn find_member(s: &[char], keep: &[char]) -> (r: usize)
    ensures
        r == first_member(s@, keep@),
        r <= s@.len(),
{
    let mut i: usize = 0;
    while i < s.len()
        invariant
            i <= s.len(),
            first_member(s@.take(i as int), keep@) == i,
        decreases s.len() - i,
    {
        proof {
            lemma_take_step(s@, i as int);
        }
        if contains_char(keep, s[i]) {
            proof {
                lemma_first_member_stays(s@, keep@, i as int + 1);
            }
            return i;
        }
        i += 1;
    }
    proof {
        lemma_take_all(s@);
    }
    i
}

/// The string that spells the characters.
pub fn string_of(chars: &[char]) -> (s: String)
    ensures
        s@ == chars@,
{
    let mut out = String::new();
    let mut i: usize = 0;
    while i < chars.len()
        invariant
            i <= chars.len(),
            out@ == chars@.take(i as int),
        decreases chars.len() - i,
    {
        proof {
            lemma_take_step(chars@, i as int);
            lemma_push_drop_last(chars@.take(i as int), chars@[i as int]);
            assert(chars@.take(i + 1) =~= chars@.take(i as int).push(chars@[i as int]));
        }
        crate::tables::push_char(&mut out, chars[i]);
        i += 1;
    }
    proof {
        lemma_take_all(chars@);
    }
    out
}

/// The decimal digit for `d`.
pub open spec fn digit(d: nat) -> char {
    if d == 0 {
        '0'
    } else if d == 1 {
        '1'
    } else if d == 2 {
        '2'
    } else if d == 3 {
        '3'
    } else if d == 4 {
        '4'
    } else if d == 5 {
        '5'
    } else if d == 6 {
        '6'
    } else if d == 7 {
        '7'
    } else if d == 8 {
        '8'
    } else {
        '9'
    }
}

/// The number `n` written in decimal digits.
pub open spec fn decimal(n: nat) -> Seq<char>
    decreases n,
{
    if n < 10 {
        seq![digit(n)]
    } else {
        decimal(n / 10).push(digit(n % 10))
    }
}

/// Appends the decimal digits of `n`.
pub fn push_decimal(out: &mut Vec<char>, n: usize)
    ensures
        final(out)@ == old(out)@ + decimal(n as nat),
    decreases n,
{
    let ghost before = out@;
    if n >= 10 {
        push_decimal(out, n / 10);
    }
    let d = n % 10;
    let c = if d == 0 {
        '0'
    } else if d == 1 {
        '1'
    } else if d == 2 {
        '2'
    } else if d == 3 {
        '3'
    } else if d == 4 {
        '4'
    } else if d == 5 {
        '5'
    } else if d == 6 {
        '6'
    } else if d == 7 {
        '7'
    } else if d == 8 {
        '8'
    } else {
        '9'
    };
    out.push(c);
    proof {
        if n >= 10 {
            assert(out@ =~= before + decimal((n / 10) as nat).push(digit((n % 10) as nat)));
        } else {
            assert(out@ =~= before + seq![digit(n as nat)]);
        }
    }
}

} // verus!
