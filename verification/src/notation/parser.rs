//! The parser of einsum notation.
//!
//! ```text
//! einsum    := inputs ("->" output)?
//! inputs    := subscript ("," subscript)*
//! subscript := (letter | "...")*
//! ```
//! Blanks inside a subscript and white space around a subscript are ignored.

use crate::chars::{
    count_of, is_inner_blank, is_letter, is_whitespace, lemma_contains_push, lemma_push_drop_last, lemma_take_all,
    lemma_take_step, letter, string_of, whitespace,
};
use crate::error::EinsumError;
use crate::index_set::{ordered, IndexSet};
use crate::notation::notation::{all_wf, flat_letters, text_of, views, EinsumNotation};
use crate::notation::subscript::{has_dots, lemma_first_ellipsis, named, Index, Subscript};
use crate::tables::{dim_bindings, DimMap};
use vstd::prelude::*;
use vstd::string::StringExecFns;

verus! {

/// A subscript as tokens: `Some(letter)`, or `None` for the ellipsis.
pub open spec fn tokens(s: Seq<Index>) -> Seq<Option<char>>
    decreases s.len(),
{
    if s.len() == 0 {
        Seq::empty()
    } else {
        tokens(s.drop_last()).push(
            match s.last() {
                Index::Named(c) => Some(c),
                Index::Ellipsis => None,
            },
        )
    }
}

/// The tokens of each subscript of a list.
pub open spec fn token_lists(v: Seq<Seq<Index>>) -> Seq<Seq<Option<char>>> {
    Seq::new(v.len(), |i: int| tokens(v[i]))
}

/// The letters among the tokens.
pub open spec fn token_letters(t: Seq<Option<char>>) -> Seq<char>
    decreases t.len(),
{
    if t.len() == 0 {
        Seq::empty()
    } else {
        match t.last() {
            Some(c) => token_letters(t.drop_last()).push(c),
            None => token_letters(t.drop_last()),
        }
    }
}

/// The letters of all token lists, one list after the other.
pub open spec fn all_token_letters(v: Seq<Seq<Option<char>>>) -> Seq<char>
    decreases v.len(),
{
    if v.len() == 0 {
        Seq::empty()
    } else {
        all_token_letters(v.drop_last()) + token_letters(v.last())
    }
}

/// Why a notation string is rejected.
pub enum ParseFault {
    /// Nothing but white space.
    Empty,
    /// Nothing before the arrow.
    NoInputs,
    /// One or two dots that are not part of `...`.
    IncompleteEllipsis,
    /// A second `...` in one subscript.
    MultipleEllipses,
    /// A character outside the grammar.
    InvalidCharacter,
}

/// The number of white-space characters at the start of `s`.
pub open spec fn leading(s: Seq<char>) -> nat
    decreases s.len(),
{
    if s.len() > 0 && is_whitespace(s[0]) {
        1 + leading(s.drop_first())
    } else {
        0
    }
}

/// The number of white-space characters at the end of `s`.
pub open spec fn trailing(s: Seq<char>) -> nat
    decreases s.len(),
{
    if s.len() > 0 && is_whitespace(s.last()) {
        1 + trailing(s.drop_last())
    } else {
        0
    }
}

/// `s` without the white space at its start and at its end.
pub open spec fn trim(s: Seq<char>) -> Seq<char> {
    let t = s.skip(leading(s) as int);
    t.take(t.len() - trailing(t))
}

/// `->` stands at position `i` of `s`.
pub open spec fn arrow_at(s: Seq<char>, i: int) -> bool {
    0 <= i && i + 1 < s.len() && s[i] == '-' && s[i + 1] == '>'
}

/// `i` is the position of the first `->` in `s`.
pub open spec fn first_arrow(s: Seq<char>, i: int) -> bool {
    arrow_at(s, i) && forall|j: int| 0 <= j < i ==> !arrow_at(s, j)
}

/// `s` holds `->`.
pub open spec fn has_arrow(s: Seq<char>) -> bool {
    exists|i: int| arrow_at(s, i)
}

/// The position of the first `->` in a string that has one.
pub open spec fn arrow_position(s: Seq<char>) -> int {
    choose|i: int| first_arrow(s, i)
}

/// The pieces of `s` between the separators `sep`; a string without separator
/// is one piece.
pub open spec fn fields(s: Seq<char>, sep: char) -> Seq<Seq<char>>
    decreases s.len(),
{
    if s.len() == 0 {
        seq![Seq::<char>::empty()]
    } else {
        let f = fields(s.drop_last(), sep);
        if s.last() == sep {
            f.push(Seq::<char>::empty())
        } else {
            f.update(f.len() - 1, f.last().push(s.last()))
        }
    }
}

/// The scan of a subscript from position `i` on, with the tokens `acc` read so
/// far: the tokens of the subscript, or the first fault and the character at
/// which it was found.
pub open spec fn scan(s: Seq<char>, i: int, acc: Seq<Option<char>>) -> Result<
    Seq<Option<char>>,
    (ParseFault, char),
>
    decreases s.len() - i,
{
    if i < 0 || i >= s.len() {
        Ok(acc)
    } else if s[i] == '.' {
        if !(s.len() - i > 2 && s[i + 1] == '.' && s[i + 2] == '.') {
            Err((ParseFault::IncompleteEllipsis, '.'))
        } else if acc.contains(None) {
            Err((ParseFault::MultipleEllipses, '.'))
        } else {
            scan(s, i + 3, acc.push(None))
        }
    } else if is_letter(s[i]) {
        scan(s, i + 1, acc.push(Some(s[i])))
    } else if is_inner_blank(s[i]) {
        scan(s, i + 1, acc)
    } else {
        Err((ParseFault::InvalidCharacter, s[i]))
    }
}

/// The tokens of the subscript that `s` spells.
pub open spec fn scan_subscript(s: Seq<char>) -> Result<Seq<Option<char>>, (ParseFault, char)> {
    scan(s, 0, Seq::empty())
}

/// The first `k` fields scanned, each after trimming; the first fault wins.
pub open spec fn scan_fields(f: Seq<Seq<char>>, k: nat) -> Result<Seq<Seq<Option<char>>>, (ParseFault, char)>
    decreases k,
{
    if k == 0 {
        Ok(Seq::empty())
    } else {
        match scan_fields(f, (k - 1) as nat) {
            Err(e) => Err(e),
            Ok(v) => match scan_subscript(trim(f[k - 1])) {
                Err(e) => Err(e),
                Ok(t) => Ok(v.push(t)),
            },
        }
    }
}

/// The letters of `s` that occur exactly once in `whole`.
pub open spec fn once_in(s: Seq<char>, whole: Seq<char>) -> Seq<char>
    decreases s.len(),
{
    if s.len() == 0 {
        Seq::empty()
    } else if count_of(whole, s.last()) == 1 {
        once_in(s.drop_last(), whole).push(s.last())
    } else {
        once_in(s.drop_last(), whole)
    }
}

/// Some token list holds the ellipsis.
pub open spec fn any_ellipsis(v: Seq<Seq<Option<char>>>) -> bool {
    exists|i: int| 0 <= i < v.len() && (#[trigger] v[i]).contains(None)
}

/// The letters as tokens.
pub open spec fn letter_tokens(s: Seq<char>) -> Seq<Option<char>> {
    Seq::new(s.len(), |i: int| Some(s[i]))
}

/// The output that is implied where the notation has no arrow: the letters
/// that occur exactly once in the inputs, in increasing order, after an ellipsis
/// if some input has one.
pub open spec fn implicit_output(inputs: Seq<Seq<Option<char>>>) -> Seq<Option<char>> {
    let flat = all_token_letters(inputs);
    let letters = letter_tokens(ordered(once_in(flat, flat)));
    if any_ellipsis(inputs) {
        seq![None::<char>] + letters
    } else {
        letters
    }
}

/// What a notation string means: the tokens of its inputs and of its output,
/// or the fault that rejects it with the character at which it was found.
pub open spec fn parse_spec(s: Seq<char>) -> Result<
    (Seq<Seq<Option<char>>>, Seq<Option<char>>),
    (ParseFault, char),
> {
    let t = trim(s);
    if t.len() == 0 {
        Err((ParseFault::Empty, ' '))
    } else {
        let ins = if has_arrow(t) {
            t.take(arrow_position(t))
        } else {
            t
        };
        if ins.len() == 0 {
            Err((ParseFault::NoInputs, ' '))
        } else {
            match scan_fields(fields(ins, ','), fields(ins, ',').len()) {
                Err(e) => Err(e),
                Ok(inputs) => if has_arrow(t) {
                    match scan_subscript(trim(t.skip(arrow_position(t) + 2))) {
                        Err(e) => Err(e),
                        Ok(out) => Ok((inputs, out)),
                    }
                } else {
                    Ok((inputs, implicit_output(inputs)))
                },
            }
        }
    }
}

/// The error that reports a fault.
pub open spec fn reports(e: EinsumError, fault: (ParseFault, char)) -> bool {
    match fault.0 {
        ParseFault::Empty => e matches EinsumError::ParseError { message } && message@ == "empty notation"@,
        ParseFault::NoInputs => e is NoInputs,
        ParseFault::IncompleteEllipsis => e matches EinsumError::ParseError { message } && message@
            == "incomplete ellipsis, expected '...'"@,
        ParseFault::MultipleEllipses => e matches EinsumError::ParseError { message } && message@
            == "multiple ellipses in subscript"@,
        ParseFault::InvalidCharacter => e matches EinsumError::ParseError { message } && message@
            == "invalid character '"@ + seq![fault.1] + "' in subscript"@,
    }
}

pub proof fn lemma_tokens_push(s: Seq<Index>, x: Index)
    ensures
        tokens(s.push(x)) == tokens(s).push(
            match x {
                Index::Named(c) => Some(c),
                Index::Ellipsis => None,
            },
        ),
{
    lemma_push_drop_last(s, x);
}

/// The tokens hold `None` exactly where the subscript has an ellipsis, and their
/// letters are the letters of the subscript.
pub proof fn lemma_tokens(s: Seq<Index>)
    ensures
        tokens(s).len() == s.len(),
        tokens(s).contains(None) <==> has_dots(s),
        token_letters(tokens(s)) == named(s),
        forall|i: int|
            0 <= i < s.len() ==> (#[trigger] tokens(s)[i]) == (match s[i] {
                Index::Named(c) => Some(c),
                Index::Ellipsis => None::<char>,
            }),
    decreases s.len(),
{
    lemma_first_ellipsis(s);
    if s.len() > 0 {
        let t = s.drop_last();
        lemma_tokens(t);
        lemma_first_ellipsis(t);
        let y = match s.last() {
            Index::Named(c) => Some(c),
            Index::Ellipsis => None::<char>,
        };
        lemma_contains_push(tokens(t), y, None::<char>);
        lemma_push_drop_last(tokens(t), y);
        assert(s =~= t.push(s.last()));
        lemma_contains_push(t, s.last(), Index::Ellipsis);
    }
}

/// Subscripts with the same tokens are the same subscript: what a parse gives
/// is determined by the tokens that it reads.
pub proof fn same_tokens_same_subscript(a: Seq<Index>, b: Seq<Index>)
    requires
        tokens(a) == tokens(b),
    ensures
        a == b,
{
    lemma_tokens(a);
    lemma_tokens(b);
    assert(a =~= b) by {
        assert forall|i: int| 0 <= i < a.len() implies a[i] == b[i] by {
            assert(tokens(a)[i] == tokens(b)[i]);
        }
    }
}

/// Where the first `i` characters are white space and the next is not, the
/// leading white space is `i` characters long.
pub proof fn lemma_leading(s: Seq<char>, i: int)
    requires
        0 <= i <= s.len(),
        forall|k: int| 0 <= k < i ==> is_whitespace(s[k]),
        i == s.len() || !is_whitespace(s[i]),
    ensures
        leading(s) == i,
    decreases i,
{
    if i > 0 {
        let t = s.drop_first();
        assert forall|k: int| 0 <= k < i - 1 implies is_whitespace(t[k]) by {
            assert(t[k] == s[k + 1]);
        }
        if i - 1 < t.len() {
            assert(t[i - 1] == s[i]);
        }
        lemma_leading(t, i - 1);
    }
}

/// Where the last `n` characters are white space and the one before is not, the
/// trailing white space is `n` characters long.
pub proof fn lemma_trailing(s: Seq<char>, n: int)
    requires
        0 <= n <= s.len(),
        forall|k: int| s.len() - n <= k < s.len() ==> is_whitespace(s[k]),
        n == s.len() || !is_whitespace(s[s.len() - n - 1]),
    ensures
        trailing(s) == n,
    decreases n,
{
    if n > 0 {
        let t = s.drop_last();
        assert forall|k: int| t.len() - (n - 1) <= k < t.len() implies is_whitespace(t[k]) by {
            assert(t[k] == s[k]);
        }
        if n - 1 < t.len() {
            assert(t[t.len() - (n - 1) - 1] == s[s.len() - n - 1]);
        }
        lemma_trailing(t, n - 1);
    }
}

/// A copy of `v` without the white space at its start and at its end.
pub fn trim_chars(v: &[char]) -> (r: Vec<char>)
    ensures
        r@ == trim(v@),
{
    let mut lo: usize = 0;
    while lo < v.len() && whitespace(v[lo])
        invariant
            lo <= v.len(),
            forall|k: int| 0 <= k < lo ==> is_whitespace(v@[k]),
        decreases v.len() - lo,
    {
        lo += 1;
    }
    let mut hi: usize = v.len();
    while hi > lo && whitespace(v[hi - 1])
        invariant
            lo <= hi <= v.len(),
            forall|k: int| hi <= k < v.len() ==> is_whitespace(v@[k]),
        decreases hi,
    {
        hi -= 1;
    }
    proof {
        lemma_leading(v@, lo as int);
        let t = v@.skip(lo as int);
        assert forall|k: int| t.len() - (v.len() - hi) <= k < t.len() implies is_whitespace(t[k]) by {
            assert(t[k] == v@[k + lo]);
        }
        if hi > lo {
            assert(t[hi - lo - 1] == v@[hi - 1]);
        }
        lemma_trailing(t, (v.len() - hi) as int);
    }
    let mut out: Vec<char> = Vec::new();
    let mut i: usize = lo;
    while i < hi
        invariant
            lo <= i <= hi <= v.len(),
            out@ == v@.subrange(lo as int, i as int),
        decreases hi - i,
    {
        out.push(v[i]);
        proof {
            assert(v@.subrange(lo as int, i as int).push(v@[i as int]) =~= v@.subrange(lo as int, i + 1));
        }
        i += 1;
    }
    proof {
        assert(v@.subrange(lo as int, hi as int) =~= trim(v@));
    }
    out
}

/// The position of the first `->` in `v`, if there is one.
pub fn find_arrow(v: &[char]) -> (r: Option<usize>)
    ensures
        r is Some <==> has_arrow(v@),
        r matches Some(p) ==> p == arrow_position(v@) && first_arrow(v@, p as int),
{
    if v.len() < 2 {
        proof {
            if has_arrow(v@) {
                let q = choose|q: int| arrow_at(v@, q);
                assert(false);
            }
        }
        return None;
    }
    let mut i: usize = 0;
    while i < v.len() - 1
        invariant
            v.len() >= 2,
            forall|j: int| 0 <= j < i ==> !arrow_at(v@, j),
        decreases v.len() - i,
    {
        if v[i] == '-' && v[i + 1] == '>' {
            proof {
                assert(first_arrow(v@, i as int));
                let q = arrow_position(v@);
                assert(first_arrow(v@, q));
                if q < i {
                    assert(!arrow_at(v@, q));
                }
                if i < q {
                    assert(!arrow_at(v@, i as int));
                }
            }
            return Some(i);
        }
        i += 1;
    }
    proof {
        if has_arrow(v@) {
            let q = choose|q: int| arrow_at(v@, q);
            assert(!arrow_at(v@, q));
        }
    }
    None
}

/// The pieces of `v` between the separators `sep`.
pub fn split_chars(v: &[char], sep: char) -> (r: Vec<Vec<char>>)
    ensures
        r@.len() == fields(v@, sep).len(),
        forall|i: int| 0 <= i < r@.len() ==> (#[trigger] r@[i])@ == fields(v@, sep)[i],
{
    let mut out: Vec<Vec<char>> = Vec::new();
    let mut cur: Vec<char> = Vec::new();
    let mut i: usize = 0;
    while i < v.len()
        invariant
            i <= v.len(),
            fields(v@.take(i as int), sep).len() == out@.len() + 1,
            forall|k: int| 0 <= k < out@.len() ==> (#[trigger] out@[k])@ == fields(v@.take(i as int), sep)[k],
            cur@ == fields(v@.take(i as int), sep).last(),
        decreases v.len() - i,
    {
        proof {
            lemma_take_step(v@, i as int);
        }
        if v[i] == sep {
            out.push(cur);
            cur = Vec::new();
        } else {
            cur.push(v[i]);
        }
        i += 1;
    }
    proof {
        lemma_take_all(v@);
    }
    out.push(cur);
    out
}

/// Parses one subscript.
pub fn parse_subscript(s: &[char]) -> (res: Result<Subscript, EinsumError>)
    ensures
        match res {
            Ok(sub) => sub.wf() && scan_subscript(s@) == Ok::<Seq<Option<char>>, (ParseFault, char)>(
                tokens(sub@),
            ),
            Err(e) => scan_subscript(s@) is Err && reports(e, scan_subscript(s@)->Err_0),
        },
{
    let mut sub = Subscript::new();
    let mut i: usize = 0;
    while i < s.len()
        invariant
            sub.wf(),
            scan_subscript(s@) == scan(s@, i as int, tokens(sub@)),
        decreases s.len() - i,
    {
        let c = s[i];
        proof {
            lemma_tokens(sub@);
        }
        if c == '.' {
            if !(s.len() - i > 2 && s[i + 1] == '.' && s[i + 2] == '.') {
                return Err(EinsumError::parse("incomplete ellipsis, expected '...'"));
            }
            if sub.has_ellipsis() {
                return Err(EinsumError::parse("multiple ellipses in subscript"));
            }
            proof {
                lemma_tokens_push(sub@, Index::Ellipsis);
            }
            sub.push_ellipsis();
            i += 3;
        } else if letter(c) {
            proof {
                lemma_tokens_push(sub@, Index::Named(c));
            }
            sub.push_named(c);
            i += 1;
        } else if c == ' ' || c == '\t' {
            i += 1;
        } else {
            let mut message = String::from_str("invalid character '");
            let one = vec![c];
            let shown = string_of(one.as_slice());
            message.append(shown.as_str());
            message.append("' in subscript");
            proof {
                assert(one@ =~= seq![c]);
            }
            return Err(EinsumError::ParseError { message });
        }
    }
    Ok(sub)
}

/// The counts of the letters of `letters`, added to the counts in `counts`; a
/// count stops at `usize::MAX`.
fn count_letters(counts: &mut DimMap, letters: &[char], Ghost(before): Ghost<Seq<char>>)
    requires
        forall|c: char| #[trigger]
            dim_bindings(*old(counts)).contains_key(c) <==> before.contains(c),
        forall|c: char| #[trigger]
            dim_bindings(*old(counts)).contains_key(c) ==> dim_bindings(*old(counts))[c] == count_cap(
                count_of(before, c),
            ),
    ensures
        forall|c: char| #[trigger]
            dim_bindings(*final(counts)).contains_key(c) <==> (before + letters@).contains(c),
        forall|c: char| #[trigger]
            dim_bindings(*final(counts)).contains_key(c) ==> dim_bindings(*final(counts))[c] == count_cap(
                count_of(before + letters@, c),
            ),
{
    let mut k: usize = 0;
    assert(before + letters@.take(0) =~= before);
    while k < letters.len()
        invariant
            k <= letters.len(),
            forall|c: char| #[trigger]
                dim_bindings(*counts).contains_key(c) <==> (before + letters@.take(k as int)).contains(c),
            forall|c: char| #[trigger]
                dim_bindings(*counts).contains_key(c) ==> dim_bindings(*counts)[c] == count_cap(
                    count_of(before + letters@.take(k as int), c),
                ),
        decreases letters.len() - k,
    {
        let c = letters[k];
        let ghost seen = before + letters@.take(k as int);
        let ghost prior = dim_bindings(*counts);
        let n = match counts.get(c) {
            Some(n) => if n < usize::MAX {
                n + 1
            } else {
                n
            },
            None => 1,
        };
        counts.insert(c, n);
        proof {
            lemma_take_step(letters@, k as int);
            assert(seen.push(c) =~= before + letters@.take(k + 1));
            lemma_push_drop_last(seen, c);
            crate::chars::lemma_count_of_zero(seen, c);
            assert forall|x: char| #[trigger]
                dim_bindings(*counts).contains_key(x) <==> (before + letters@.take(k + 1)).contains(x) by {
                lemma_contains_push(seen, c, x);
                assert(prior.contains_key(x) <==> seen.contains(x));
            }
            assert forall|x: char| #[trigger]
                dim_bindings(*counts).contains_key(x) implies dim_bindings(*counts)[x] == count_cap(
                count_of(before + letters@.take(k + 1), x),
            ) by {
                if x != c {
                    assert(prior.contains_key(x));
                }
            }
        }
        k += 1;
    }
    proof {
        lemma_take_all(letters@);
    }
}

/// A count as far as `usize` holds it.
pub open spec fn count_cap(n: nat) -> usize {
    if n > usize::MAX {
        usize::MAX
    } else {
        n as usize
    }
}

/// The output that the inputs imply where the notation has no arrow.
pub fn infer_output(inputs: &[Subscript]) -> (r: Subscript)
    requires
        all_wf(inputs@),
    ensures
        r.wf(),
        tokens(r@) == implicit_output(token_lists(views(inputs@))),
{
    let ghost ins = views(inputs@);
    let ghost toks = token_lists(ins);
    let mut counts = DimMap::new();
    let mut has_ellipsis = false;
    let mut i: usize = 0;
    assert(ins.take(0) =~= Seq::<Seq<Index>>::empty());
    while i < inputs.len()
        invariant
            i <= inputs.len(),
            all_wf(inputs@),
            ins == views(inputs@),
            has_ellipsis <==> exists|q: int| 0 <= q < i && has_dots(#[trigger] ins[q]),
            forall|c: char| #[trigger]
                dim_bindings(counts).contains_key(c) <==> flat_letters(ins.take(i as int)).contains(c),
            forall|c: char| #[trigger]
                dim_bindings(counts).contains_key(c) ==> dim_bindings(counts)[c] == count_cap(
                    count_of(flat_letters(ins.take(i as int)), c),
                ),
        decreases inputs.len() - i,
    {
        assert(inputs@[i as int].wf());
        assert(ins[i as int] == inputs@[i as int]@);
        if inputs[i].has_ellipsis() {
            has_ellipsis = true;
        }
        let letters = inputs[i].named_indices();
        proof {
            lemma_take_step(ins, i as int);
        }
        count_letters(&mut counts, letters.as_slice(), Ghost(flat_letters(ins.take(i as int))));
        i += 1;
    }
    proof {
        lemma_take_all(ins);
    }
    let ghost flat = flat_letters(ins);
    let keys = counts.keys();
    let mut chosen = IndexSet::new();
    let mut k: usize = 0;
    while k < keys.len()
        invariant
            k <= keys.len(),
            chosen.wf(),
            forall|c: char| keys@.contains(c) <==> dim_bindings(counts).contains_key(c),
            forall|c: char| #[trigger] dim_bindings(counts).contains_key(c) <==> flat.contains(c),
            forall|c: char| #[trigger]
                dim_bindings(counts).contains_key(c) ==> dim_bindings(counts)[c] == count_cap(count_of(flat, c)),
            forall|c: char| #[trigger]
                chosen@.contains(c) <==> (keys@.take(k as int).contains(c) && count_of(flat, c) == 1),
        decreases keys.len() - k,
    {
        let c = keys[k];
        let ghost prior = chosen@;
        assert(keys@.contains(c));
        let n = match counts.get(c) {
            Some(n) => n,
            None => 0,
        };
        if n == 1 {
            chosen.insert(c);
        }
        proof {
            lemma_take_step(keys@, k as int);
            assert forall|x: char| #[trigger]
                chosen@.contains(x) <==> (keys@.take(k + 1).contains(x) && count_of(flat, x) == 1) by {
                lemma_contains_push(keys@.take(k as int), c, x);
                assert(prior.contains(x) <==> (keys@.take(k as int).contains(x) && count_of(flat, x) == 1));
            }
        }
        k += 1;
    }
    let letters = chosen.to_vec();
    proof {
        lemma_take_all(keys@);
        lemma_once_in(flat, flat);
        assert forall|c: char| chosen@.contains(c) <==> once_in(flat, flat).contains(c) by {
            crate::chars::lemma_count_of_zero(flat, c);
            if count_of(flat, c) == 1 {
                assert(flat.contains(c));
                assert(dim_bindings(counts).contains_key(c));
                assert(keys@.contains(c));
            }
        }
        chosen.lemma_elements_of(once_in(flat, flat));
    }
    let mut out = Subscript::new();
    if has_ellipsis {
        proof {
            lemma_tokens_push(out@, Index::Ellipsis);
            lemma_first_ellipsis(out@);
        }
        out.push_ellipsis();
    }
    let ghost head = tokens(out@);
    let mut j: usize = 0;
    assert(head + letter_tokens(letters@.take(0)) =~= head);
    while j < letters.len()
        invariant
            j <= letters.len(),
            out.wf(),
            tokens(out@) == head + letter_tokens(letters@.take(j as int)),
        decreases letters.len() - j,
    {
        proof {
            lemma_tokens_push(out@, Index::Named(letters@[j as int]));
            lemma_take_step(letters@, j as int);
            assert((head + letter_tokens(letters@.take(j as int))).push(Some(letters@[j as int])) =~= head
                + letter_tokens(letters@.take(j + 1)));
        }
        out.push_named(letters[j]);
        j += 1;
    }
    proof {
        lemma_take_all(letters@);
        lemma_token_lists(ins);
        assert(any_ellipsis(toks) <==> has_ellipsis) by {
            if any_ellipsis(toks) {
                let q = choose|q: int| 0 <= q < toks.len() && (#[trigger] toks[q]).contains(None);
                lemma_tokens(ins[q]);
                assert(has_dots(ins[q]));
            }
            if has_ellipsis {
                let q = choose|q: int| 0 <= q < ins.len() && has_dots(#[trigger] ins[q]);
                lemma_tokens(ins[q]);
                assert(toks[q].contains(None));
            }
        }
        if has_ellipsis {
            assert(head =~= seq![None::<char>]);
        } else {
            assert(head =~= Seq::<Option<char>>::empty());
            assert(head + letter_tokens(letters@) =~= letter_tokens(letters@));
        }
    }
    out
}

/// `once_in(s, whole)` holds the letters of `s` that occur once in `whole`.
pub proof fn lemma_once_in(s: Seq<char>, whole: Seq<char>)
    ensures
        forall|c: char| #[trigger] once_in(s, whole).contains(c) <==> (s.contains(c) && count_of(whole, c) == 1),
    decreases s.len(),
{
    if s.len() > 0 {
        let t = s.drop_last();
        lemma_once_in(t, whole);
        assert(s =~= t.push(s.last()));
        assert forall|c: char| #[trigger]
            once_in(s, whole).contains(c) <==> (s.contains(c) && count_of(whole, c) == 1) by {
            lemma_contains_push(t, s.last(), c);
            lemma_contains_push(once_in(t, whole), s.last(), c);
        }
    }
}

/// The letters of the token lists of subscripts are the letters of the
/// subscripts.
pub proof fn lemma_token_lists(ins: Seq<Seq<Index>>)
    ensures
        all_token_letters(token_lists(ins)) == flat_letters(ins),
    decreases ins.len(),
{
    if ins.len() > 0 {
        let t = ins.drop_last();
        lemma_token_lists(t);
        lemma_tokens(ins.last());
        assert(token_lists(ins).drop_last() =~= token_lists(t));
    }
}

/// Parses a notation given as characters.
#[verifier::loop_isolation(false)]
pub fn parse_chars(text: &[char]) -> (res: Result<EinsumNotation, EinsumError>)
    ensures
        match res {
            Ok(n) => {
                &&& n.wf()
                &&& parse_spec(text@) == Ok::<
                    (Seq<Seq<Option<char>>>, Seq<Option<char>>),
                    (ParseFault, char),
                >((token_lists(n.spec_inputs()), tokens(n.spec_output())))
                &&& n.spec_original() == Some(trim(text@))
            },
            Err(e) => parse_spec(text@) is Err && reports(e, parse_spec(text@)->Err_0),
        },
{
    let t = trim_chars(text);
    if t.len() == 0 {
        return Err(EinsumError::parse("empty notation"));
    }
    let arrow = find_arrow(t.as_slice());
    let ins_text: Vec<char> = match arrow {
        Some(p) => {
            let mut v: Vec<char> = Vec::new();
            let mut i: usize = 0;
            while i < p
                invariant
                    i <= p < t.len(),
                    v@ == t@.take(i as int),
                decreases p - i,
            {
                proof {
                    lemma_take_step(t@, i as int);
                }
                v.push(t[i]);
                i += 1;
            }
            v
        },
        None => trim_chars(t.as_slice()),
    };
    proof {
        if arrow is None {
            lemma_trim_idempotent(text@);
        }
    }
    if ins_text.len() == 0 {
        return Err(EinsumError::NoInputs);
    }
    let pieces = split_chars(ins_text.as_slice(), ',');
    let ghost f = fields(ins_text@, ',');
    let mut inputs: Vec<Subscript> = Vec::new();
    let mut i: usize = 0;
    assert(token_lists(views(inputs@)) =~= Seq::<Seq<Option<char>>>::empty());
    while i < pieces.len()
        invariant
            i <= pieces.len(),
            pieces@.len() == f.len(),
            forall|k: int| 0 <= k < pieces@.len() ==> (#[trigger] pieces@[k])@ == f[k],
            all_wf(inputs@),
            inputs@.len() == i,
            scan_fields(f, i as nat) == Ok::<Seq<Seq<Option<char>>>, (ParseFault, char)>(
                token_lists(views(inputs@)),
            ),
        decreases pieces.len() - i,
    {
        let piece = trim_chars(pieces[i].as_slice());
        assert(pieces@[i as int]@ == f[i as int]);
        match parse_subscript(piece.as_slice()) {
            Ok(sub) => {
                let ghost before = inputs@;
                inputs.push(sub);
                proof {
                    assert(token_lists(views(inputs@)) =~= token_lists(views(before)).push(tokens(sub@)));
                }
            },
            Err(e) => {
                proof {
                    assert(scan_subscript(trim(f[i as int])) is Err);
                    assert(scan_fields(f, (i + 1) as nat) == Err::<Seq<Seq<Option<char>>>, (ParseFault, char)>(
                        scan_subscript(trim(f[i as int]))->Err_0,
                    ));
                    lemma_scan_fields_error(f, (i + 1) as nat, f.len());
                }
                return Err(e);
            },
        }
        i += 1;
    }
    let output = match arrow {
        Some(p) => {
            let mut v: Vec<char> = Vec::new();
            let mut k: usize = p + 2;
            while k < t.len()
                invariant
                    p + 2 <= k <= t.len(),
                    v@ == t@.subrange(p + 2, k as int),
                decreases t.len() - k,
            {
                v.push(t[k]);
                proof {
                    assert(t@.subrange(p + 2, k as int).push(t@[k as int]) =~= t@.subrange(p + 2, k + 1));
                }
                k += 1;
            }
            proof {
                assert(t@.subrange(p + 2, t@.len() as int) =~= t@.skip(p + 2));
            }
            let out_text = trim_chars(v.as_slice());
            match parse_subscript(out_text.as_slice()) {
                Ok(sub) => sub,
                Err(e) => {
                    return Err(e);
                },
            }
        },
        None => infer_output(inputs.as_slice()),
    };
    let original = string_of(t.as_slice());
    let notation = EinsumNotation::new(inputs, output);
    Ok(notation.with_original(original.as_str()))
}

/// Trimming twice is trimming once.
pub proof fn lemma_trim_idempotent(s: Seq<char>)
    ensures
        trim(trim(s)) == trim(s),
{
    let a = leading(s);
    lemma_leading_is(s);
    let u = s.skip(a as int);
    lemma_trailing_is(u);
    let b = trailing(u);
    let t = u.take(u.len() - b);
    assert(t == trim(s));
    if t.len() > 0 {
        assert(t[0] == u[0]);
        assert(u[0] == s[a as int]);
        assert(!is_whitespace(t[0]));
        assert(t[t.len() - 1] == u[u.len() - b - 1]);
        assert(!is_whitespace(t[t.len() - 1]));
    }
    lemma_leading(t, 0);
    lemma_trailing(t, 0);
    assert(t.skip(0) =~= t);
    assert(t.take(t.len() as int) =~= t);
}

/// The leading white space: those characters are white space and the next is
/// not.
pub proof fn lemma_leading_is(s: Seq<char>)
    ensures
        leading(s) <= s.len(),
        forall|k: int| 0 <= k < leading(s) ==> is_whitespace(s[k]),
        leading(s) < s.len() ==> !is_whitespace(s[leading(s) as int]),
    decreases s.len(),
{
    if s.len() > 0 && is_whitespace(s[0]) {
        let t = s.drop_first();
        lemma_leading_is(t);
        assert forall|k: int| 0 <= k < leading(s) implies is_whitespace(s[k]) by {
            if k > 0 {
                assert(t[k - 1] == s[k]);
            }
        }
        if leading(s) < s.len() {
            assert(t[leading(t) as int] == s[leading(s) as int]);
        }
    }
}

/// The trailing white space: those characters are white space and the one
/// before is not.
pub proof fn lemma_trailing_is(s: Seq<char>)
    ensures
        trailing(s) <= s.len(),
        forall|k: int| s.len() - trailing(s) <= k < s.len() ==> is_whitespace(s[k]),
        trailing(s) < s.len() ==> !is_whitespace(s[s.len() - trailing(s) - 1]),
    decreases s.len(),
{
    if s.len() > 0 && is_whitespace(s.last()) {
        let t = s.drop_last();
        lemma_trailing_is(t);
        assert forall|k: int| s.len() - trailing(s) <= k < s.len() implies is_whitespace(s[k]) by {
            if k < s.len() - 1 {
                assert(t[k] == s[k]);
            }
        }
        if trailing(s) < s.len() {
            assert(t[t.len() - trailing(t) - 1] == s[s.len() - trailing(s) - 1]);
        }
    }
}

/// A fault among the first `k` fields is the fault of any longer prefix.
pub proof fn lemma_scan_fields_error(f: Seq<Seq<char>>, k: nat, n: nat)
    requires
        k <= n,
        scan_fields(f, k) is Err,
    ensures
        scan_fields(f, n) == scan_fields(f, k),
    decreases n - k,
{
    if k < n {
        lemma_scan_fields_error(f, k, (n - 1) as nat);
    }
}

/// Parses an einsum notation such as `ij,jk->ik`.
pub fn parse_einsum(notation: &str) -> (res: Result<EinsumNotation, EinsumError>)
    ensures
        match res {
            Ok(n) => {
                &&& n.wf()
                &&& parse_spec(notation@) == Ok::<
                    (Seq<Seq<Option<char>>>, Seq<Option<char>>),
                    (ParseFault, char),
                >((token_lists(n.spec_inputs()), tokens(n.spec_output())))
                &&& n.spec_original() == Some(trim(notation@))
            },
            Err(e) => parse_spec(notation@) is Err && reports(e, parse_spec(notation@)->Err_0),
        },
{
    let text = text_of(notation);
    parse_chars(text.as_slice())
}

/// The first `k` notations of a chain parsed; the first fault wins.
pub open spec fn parse_chain_spec(f: Seq<Seq<char>>, k: nat) -> Result<
    Seq<(Seq<Seq<Option<char>>>, Seq<Option<char>>)>,
    (ParseFault, char),
>
    decreases k,
{
    if k == 0 {
        Ok(Seq::empty())
    } else {
        match parse_chain_spec(f, (k - 1) as nat) {
            Err(e) => Err(e),
            Ok(v) => match parse_spec(f[k - 1]) {
                Err(e) => Err(e),
                Ok(n) => Ok(v.push(n)),
            },
        }
    }
}

/// A fault among the first `k` notations is the fault of any longer prefix.
pub proof fn lemma_parse_chain_error(f: Seq<Seq<char>>, k: nat, n: nat)
    requires
        k <= n,
        parse_chain_spec(f, k) is Err,
    ensures
        parse_chain_spec(f, n) == parse_chain_spec(f, k),
    decreases n - k,
{
    if k < n {
        lemma_parse_chain_error(f, k, (n - 1) as nat);
    }
}

/// Parses several notations that are separated by `;`.
#[verifier::loop_isolation(false)]
pub fn parse_einsum_chain(notation: &str) -> (res: Result<Vec<EinsumNotation>, EinsumError>)
    ensures
        match res {
            Ok(v) => {
                let spec = parse_chain_spec(fields(notation@, ';'), fields(notation@, ';').len());
                &&& spec is Ok
                &&& v@.len() == spec->Ok_0.len()
                &&& forall|i: int|
                    0 <= i < v@.len() ==> (#[trigger] v@[i]).wf() && spec->Ok_0[i] == (
                        token_lists(v@[i].spec_inputs()),
                        tokens(v@[i].spec_output()),
                    )
            },
            Err(e) => {
                let spec = parse_chain_spec(fields(notation@, ';'), fields(notation@, ';').len());
                spec is Err && reports(e, spec->Err_0)
            },
        },
{
    let text = text_of(notation);
    let pieces = split_chars(text.as_slice(), ';');
    let ghost f = fields(notation@, ';');
    let mut out: Vec<EinsumNotation> = Vec::new();
    let mut i: usize = 0;
    while i < pieces.len()
        invariant
            i <= pieces.len(),
            pieces@.len() == f.len(),
            forall|k: int| 0 <= k < pieces@.len() ==> (#[trigger] pieces@[k])@ == f[k],
            out@.len() == i,
            parse_chain_spec(f, i as nat) is Ok,
            parse_chain_spec(f, i as nat)->Ok_0.len() == i,
            forall|k: int|
                0 <= k < i ==> (#[trigger] out@[k]).wf() && parse_chain_spec(f, i as nat)->Ok_0[k] == (
                    token_lists(out@[k].spec_inputs()),
                    tokens(out@[k].spec_output()),
                ),
        decreases pieces.len() - i,
    {
        assert(pieces@[i as int]@ == f[i as int]);
        match parse_chars(pieces[i].as_slice()) {
            Ok(n) => {
                out.push(n);
            },
            Err(e) => {
                proof {
                    assert(parse_spec(f[i as int]) is Err);
                    assert(parse_chain_spec(f, (i + 1) as nat) is Err);
                    assert(parse_chain_spec(f, (i + 1) as nat)->Err_0 == parse_spec(f[i as int])->Err_0);
                    lemma_parse_chain_error(f, (i + 1) as nat, f.len());
                }
                return Err(e);
            },
        }
        i += 1;
    }
    Ok(out)
}

} // verus!
