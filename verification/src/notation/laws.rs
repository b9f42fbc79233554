//! What holds of the parser for all notation strings.

use crate::chars::{is_letter, is_whitespace, lemma_push_drop_last};
use crate::notation::notation::{spell_inputs, spell_notation};
use crate::notation::parser::{
    arrow_at, arrow_position, fields, first_arrow, has_arrow, leading, lemma_leading_is, lemma_trailing_is, parse_spec,
    scan, scan_fields, scan_subscript, token_lists, tokens, trailing, trim, ParseFault,
};
use crate::notation::subscript::{spell, Index};
use vstd::prelude::*;

verus! {

/// `s` without its white space.
pub open spec fn strip(s: Seq<char>) -> Seq<char>
    decreases s.len(),
{
    if s.len() == 0 {
        Seq::empty()
    } else if is_whitespace(s.last()) {
        strip(s.drop_last())
    } else {
        strip(s.drop_last()).push(s.last())
    }
}

/// The tokens as they are written.
pub open spec fn spell_tokens(t: Seq<Option<char>>) -> Seq<char>
    decreases t.len(),
{
    if t.len() == 0 {
        Seq::empty()
    } else {
        match t.last() {
            Some(c) => spell_tokens(t.drop_last()).push(c),
            None => spell_tokens(t.drop_last()) + seq!['.', '.', '.'],
        }
    }
}

/// The pieces, with commas between them.
pub open spec fn join(v: Seq<Seq<char>>) -> Seq<char>
    decreases v.len(),
{
    if v.len() == 0 {
        Seq::empty()
    } else if v.len() == 1 {
        v[0]
    } else {
        join(v.drop_last()) + seq![','] + v.last()
    }
}

/// Every character is white space.
pub open spec fn blank(s: Seq<char>) -> bool {
    forall|i: int| 0 <= i < s.len() ==> is_whitespace(#[trigger] s[i])
}

pub proof fn lemma_strip_add(a: Seq<char>, b: Seq<char>)
    ensures
        strip(a + b) == strip(a) + strip(b),
    decreases b.len(),
{
    if b.len() == 0 {
        assert(a + b =~= a);
        assert(strip(a) + strip(b) =~= strip(a));
    } else {
        lemma_strip_add(a, b.drop_last());
        assert((a + b).drop_last() =~= a + b.drop_last());
        assert((a + b).last() == b.last());
        if !is_whitespace(b.last()) {
            assert((strip(a) + strip(b.drop_last())).push(b.last()) =~= strip(a) + strip(b.drop_last()).push(
                b.last(),
            ));
        }
    }
}

pub proof fn lemma_strip_blank(s: Seq<char>)
    requires
        blank(s),
    ensures
        strip(s) == Seq::<char>::empty(),
    decreases s.len(),
{
    if s.len() > 0 {
        assert(is_whitespace(s[s.len() - 1]));
        assert forall|i: int| 0 <= i < s.drop_last().len() implies is_whitespace(#[trigger] s.drop_last()[i]) by {
            assert(s.drop_last()[i] == s[i]);
        }
        lemma_strip_blank(s.drop_last());
    }
}

/// A string is white space, then its trimmed part, then white space.
pub proof fn lemma_trim_parts(s: Seq<char>)
    ensures
        leading(s) + trim(s).len() <= s.len(),
        s == s.take(leading(s) as int) + trim(s) + s.skip((leading(s) + trim(s).len()) as int),
        blank(s.take(leading(s) as int)),
        blank(s.skip((leading(s) + trim(s).len()) as int)),
        trim(s).len() > 0 ==> !is_whitespace(trim(s)[0]) && !is_whitespace(trim(s).last()),
{
    lemma_leading_is(s);
    let a = leading(s) as int;
    let u = s.skip(a);
    lemma_trailing_is(u);
    let b = trailing(u) as int;
    let t = u.take(u.len() - b);
    assert(t == trim(s));
    assert(s =~= s.take(a) + t + s.skip(a + t.len()));
    assert forall|i: int| 0 <= i < s.skip(a + t.len()).len() implies is_whitespace(
        #[trigger] s.skip(a + t.len())[i],
    ) by {
        assert(s.skip(a + t.len())[i] == u[t.len() + i]);
    }
    if t.len() > 0 {
        assert(t[0] == s[a]);
        assert(t.last() == u[u.len() - b - 1]);
    }
}

/// Trimming takes away white space only.
pub proof fn lemma_strip_trim(s: Seq<char>)
    ensures
        strip(trim(s)) == strip(s),
{
    lemma_trim_parts(s);
    let a = s.take(leading(s) as int);
    let z = s.skip((leading(s) + trim(s).len()) as int);
    lemma_strip_blank(a);
    lemma_strip_blank(z);
    lemma_strip_add(a + trim(s), z);
    lemma_strip_add(a, trim(s));
    assert(Seq::<char>::empty() + strip(trim(s)) + Seq::<char>::empty() =~= strip(trim(s)));
}

pub proof fn lemma_spell_tokens_push(t: Seq<Option<char>>, x: Option<char>)
    ensures
        spell_tokens(t.push(x)) == (match x {
            Some(c) => spell_tokens(t).push(c),
            None => spell_tokens(t) + seq!['.', '.', '.'],
        }),
{
    lemma_push_drop_last(t, x);
}

/// A subscript spells its tokens.
pub proof fn lemma_spell_is_spell_tokens(s: Seq<Index>)
    ensures
        spell(s) == spell_tokens(tokens(s)),
    decreases s.len(),
{
    if s.len() > 0 {
        lemma_spell_is_spell_tokens(s.drop_last());
        let x = match s.last() {
            Index::Named(c) => Some(c),
            Index::Ellipsis => None::<char>,
        };
        lemma_spell_tokens_push(tokens(s.drop_last()), x);
    }
}

/// The characters that a scan accepts spell, without the blanks, the tokens
/// that it gives.
pub proof fn lemma_scan_spells(g: Seq<char>, i: int, acc: Seq<Option<char>>)
    requires
        0 <= i <= g.len(),
        scan(g, i, acc) is Ok,
    ensures
        spell_tokens(scan(g, i, acc)->Ok_0) == spell_tokens(acc) + strip(g.skip(i)),
    decreases g.len() - i,
{
    if i >= g.len() {
        assert(g.skip(i) =~= Seq::<char>::empty());
        assert(spell_tokens(acc) + Seq::<char>::empty() =~= spell_tokens(acc));
    } else if g[i] == '.' {
        lemma_scan_spells(g, i + 3, acc.push(None));
        lemma_spell_tokens_push(acc, None);
        let dots = seq!['.', '.', '.'];
        assert(g.skip(i) =~= dots + g.skip(i + 3));
        lemma_strip_add(dots, g.skip(i + 3));
        assert(strip(dots) =~= dots) by {
            reveal_with_fuel(strip, 4);
            assert(dots.drop_last() =~= seq!['.', '.']);
            assert(dots.drop_last().drop_last() =~= seq!['.']);
            assert(dots.drop_last().drop_last().drop_last() =~= Seq::<char>::empty());
        }
        assert((spell_tokens(acc) + dots) + strip(g.skip(i + 3)) =~= spell_tokens(acc) + (dots + strip(g.skip(i + 3))));
    } else {
        let one = seq![g[i]];
        reveal_with_fuel(strip, 2);
        assert(one.last() == g[i]);
        assert(g.skip(i) =~= one + g.skip(i + 1));
        lemma_strip_add(one, g.skip(i + 1));
        assert(one.drop_last() =~= Seq::<char>::empty());
        if is_letter(g[i]) {
            lemma_scan_spells(g, i + 1, acc.push(Some(g[i])));
            lemma_spell_tokens_push(acc, Some(g[i]));
            assert(strip(one) =~= one);
            assert(spell_tokens(acc).push(g[i]) + strip(g.skip(i + 1)) =~= spell_tokens(acc) + (one + strip(
                g.skip(i + 1),
            )));
        } else {
            lemma_scan_spells(g, i + 1, acc);
            assert(strip(one) =~= Seq::<char>::empty());
            assert(Seq::<char>::empty() + strip(g.skip(i + 1)) =~= strip(g.skip(i + 1)));
        }
    }
}

/// A field that scans spells, without its white space, its tokens.
pub proof fn lemma_field_spells(f: Seq<char>)
    requires
        scan_subscript(trim(f)) is Ok,
    ensures
        spell_tokens(scan_subscript(trim(f))->Ok_0) == strip(f),
{
    lemma_scan_spells(trim(f), 0, Seq::empty());
    assert(trim(f).skip(0) =~= trim(f));
    lemma_strip_trim(f);
    assert(Seq::<char>::empty() + strip(trim(f)) =~= strip(trim(f)));
}

/// The pieces, each without its white space.
pub open spec fn strip_each(f: Seq<Seq<char>>) -> Seq<Seq<char>> {
    Seq::new(f.len(), |k: int| strip(f[k]))
}

/// The token lists as they are written.
pub open spec fn spell_each(v: Seq<Seq<Option<char>>>) -> Seq<Seq<char>> {
    Seq::new(v.len(), |k: int| spell_tokens(v[k]))
}

/// A string has at least one field.
pub proof fn lemma_fields_len(s: Seq<char>, sep: char)
    ensures
        fields(s, sep).len() >= 1,
    decreases s.len(),
{
    if s.len() > 0 {
        lemma_fields_len(s.drop_last(), sep);
    }
}

/// What is joined is what comes before the last piece, and the last piece.
pub open spec fn join_head(v: Seq<Seq<char>>) -> Seq<char> {
    if v.len() <= 1 {
        Seq::empty()
    } else {
        join(v.drop_last()) + seq![',']
    }
}

pub proof fn lemma_join_last(v: Seq<Seq<char>>)
    requires
        v.len() >= 1,
    ensures
        join(v) == join_head(v) + v.last(),
{
    if v.len() == 1 {
        assert(Seq::<char>::empty() + v.last() =~= v[0]);
    }
}

/// Without white space, a string is its fields without white space, joined by
/// commas.
pub proof fn lemma_strip_fields(s: Seq<char>)
    ensures
        strip(s) == join(strip_each(fields(s, ','))),
    decreases s.len(),
{
    if s.len() == 0 {
        assert(fields(s, ',') =~= seq![Seq::<char>::empty()]);
        assert(strip_each(fields(s, ','))[0] == strip(Seq::<char>::empty()));
    } else {
        let t = s.drop_last();
        let c = s.last();
        let f = fields(t, ',');
        lemma_strip_fields(t);
        lemma_fields_len(t, ',');
        let g = fields(s, ',');
        lemma_join_last(strip_each(f));
        if c == ',' {
            assert(g == f.push(Seq::<char>::empty()));
            assert(strip_each(g) =~= strip_each(f).push(Seq::<char>::empty()));
            assert(strip_each(g).drop_last() =~= strip_each(f));
            assert(join(strip_each(g)) == join(strip_each(f)) + seq![','] + Seq::<char>::empty());
            assert(strip(s) =~= strip(t).push(','));
            assert(join(strip_each(f)) + seq![','] + Seq::<char>::empty() =~= strip(t).push(','));
        } else {
            let last = f.last().push(c);
            assert(g == f.update(f.len() - 1, last));
            lemma_push_drop_last(f.last(), c);
            assert(strip_each(g).last() == strip(last));
            assert(strip_each(g).drop_last() =~= strip_each(f).drop_last());
            lemma_join_last(strip_each(g));
            assert(join_head(strip_each(g)) == join_head(strip_each(f)));
            if is_whitespace(c) {
                assert(strip(last) == strip(f.last()));
            } else {
                assert(strip(last) == strip(f.last()).push(c));
                assert(join_head(strip_each(f)) + strip(f.last()).push(c) =~= (join_head(strip_each(f)) + strip(
                    f.last(),
                )).push(c));
            }
        }
    }
}

/// Fields that scan give one token list each.
pub proof fn lemma_scan_fields_ok(f: Seq<Seq<char>>, n: nat)
    requires
        scan_fields(f, n) is Ok,
    ensures
        scan_fields(f, n)->Ok_0.len() == n,
        forall|k: int|
            0 <= k < n ==> scan_subscript(trim(f[k])) == Ok::<Seq<Option<char>>, (ParseFault, char)>(
                #[trigger] scan_fields(f, n)->Ok_0[k],
            ),
    decreases n,
{
    if n > 0 {
        lemma_scan_fields_ok(f, (n - 1) as nat);
    }
}

/// The subscripts as they are written, joined by commas.
pub proof fn lemma_spell_inputs(ins: Seq<Seq<Index>>)
    ensures
        spell_inputs(ins) == join(spell_each(token_lists(ins))),
    decreases ins.len(),
{
    if ins.len() == 1 {
        lemma_spell_is_spell_tokens(ins[0]);
    } else if ins.len() > 1 {
        lemma_spell_inputs(ins.drop_last());
        lemma_spell_is_spell_tokens(ins.last());
        assert(spell_each(token_lists(ins)).drop_last() =~= spell_each(token_lists(ins.drop_last())));
    }
}

/// Where a string has an arrow, it has a first one.
pub proof fn lemma_least_arrow(t: Seq<char>, k: int)
    requires
        arrow_at(t, k),
    ensures
        first_arrow(t, arrow_position(t)),
    decreases k,
{
    if exists|j: int| 0 <= j < k && arrow_at(t, j) {
        let j = choose|j: int| 0 <= j < k && arrow_at(t, j);
        lemma_least_arrow(t, j);
    } else {
        assert(first_arrow(t, k));
    }
}

/// The canonical form of a notation string: the string without its white
/// space; where it has no arrow, followed by the arrow and the implied output.
pub open spec fn canonical(s: Seq<char>, out: Seq<Index>) -> Seq<char> {
    if has_arrow(trim(s)) {
        strip(s)
    } else {
        strip(s) + seq!['-', '>'] + spell(out)
    }
}

/// A parsed notation is written as the canonical form of the string that it was
/// parsed from.
pub proof fn display_is_canonical(s: Seq<char>, ins: Seq<Seq<Index>>, out: Seq<Index>)
    requires
        parse_spec(s) == Ok::<(Seq<Seq<Option<char>>>, Seq<Option<char>>), (ParseFault, char)>(
            (token_lists(ins), tokens(out)),
        ),
    ensures
        spell_notation(ins, out) == canonical(s, out),
{
    let t = trim(s);
    let arrow = seq!['-', '>'];
    let a = if has_arrow(t) {
        t.take(arrow_position(t))
    } else {
        t
    };
    let f = fields(a, ',');
    assert(t.len() > 0);
    assert(a.len() > 0);
    assert(scan_fields(f, f.len()) is Ok);
    assert(scan_fields(f, f.len())->Ok_0 == token_lists(ins));
    lemma_scan_fields_ok(f, f.len());
    lemma_strip_fields(a);
    lemma_spell_inputs(ins);
    let toks = token_lists(ins);
    assert(spell_each(toks) =~= strip_each(f)) by {
        assert forall|k: int| 0 <= k < f.len() implies spell_each(toks)[k] == strip_each(f)[k] by {
            assert(scan_subscript(trim(f[k])) == Ok::<Seq<Option<char>>, (ParseFault, char)>(toks[k]));
            lemma_field_spells(f[k]);
        }
    }
    lemma_strip_trim(s);
    lemma_spell_is_spell_tokens(out);
    if has_arrow(t) {
        let p = arrow_position(t);
        let w = choose|w: int| arrow_at(t, w);
        lemma_least_arrow(t, w);
        assert(first_arrow(t, p));
        let b = t.skip(p + 2);
        assert(t =~= a + arrow + b);
        lemma_strip_add(a + arrow, b);
        lemma_strip_add(a, arrow);
        assert(strip(arrow) =~= arrow) by {
            reveal_with_fuel(strip, 3);
            assert(arrow.drop_last() =~= seq!['-']);
            assert(arrow.drop_last().drop_last() =~= Seq::<char>::empty());
        }
        lemma_field_spells(b);
    }
}

/// White space has nothing left after trimming.
pub proof fn lemma_trim_blank(s: Seq<char>)
    requires
        blank(s),
    ensures
        trim(s).len() == 0,
{
    lemma_trim_parts(s);
    if trim(s).len() > 0 {
        let a = leading(s) as int;
        assert(trim(s)[0] == s[a]) by {
            assert((s.take(a) + trim(s) + s.skip((leading(s) + trim(s).len()) as int))[a] == trim(s)[0]);
        }
        assert(is_whitespace(s[a]));
    }
}

/// A string that neither starts nor ends with white space is its own trimmed
/// part.
pub proof fn lemma_trim_same(s: Seq<char>)
    requires
        s.len() > 0 ==> !is_whitespace(s[0]) && !is_whitespace(s.last()),
    ensures
        trim(s) == s,
{
    crate::notation::parser::lemma_leading(s, 0);
    assert(s.skip(0) =~= s);
    crate::notation::parser::lemma_trailing(s, 0);
    assert(s.take(s.len() as int) =~= s);
}

/// White space at the end does not change the trimmed part.
pub proof fn lemma_trim_append_blank(x: Seq<char>, z: Seq<char>)
    requires
        blank(z),
    ensures
        trim(x + z) == trim(x),
{
    lemma_trim_parts(x);
    if trim(x).len() == 0 {
        // `x` is white space, and so is `x + z`.
        let a = x.take(leading(x) as int);
        let b = x.skip((leading(x) + trim(x).len()) as int);
        assert(x =~= a + b);
        assert(blank(x)) by {
            assert forall|i: int| 0 <= i < x.len() implies is_whitespace(#[trigger] x[i]) by {
                if i < a.len() {
                    assert(x[i] == a[i]);
                } else {
                    assert(x[i] == b[i - a.len()]);
                }
            }
        }
        assert(blank(x + z)) by {
            assert forall|i: int| 0 <= i < (x + z).len() implies is_whitespace(#[trigger] (x + z)[i]) by {
                if i < x.len() {
                    assert((x + z)[i] == x[i]);
                } else {
                    assert((x + z)[i] == z[i - x.len()]);
                }
            }
        }
        lemma_trim_blank(x + z);
        assert(trim(x + z) =~= trim(x));
    } else {
        lemma_leading_is(x);
        let lead = leading(x) as int;
        let t = trim(x);
        let u = x.skip(lead);
        lemma_trailing_is(u);
        let tr = trailing(u) as int;
        assert(t == u.take(u.len() - tr));
        let y = x + z;
        assert(lead < x.len());
        assert forall|k: int| 0 <= k < lead implies is_whitespace(y[k]) by {
            assert(y[k] == x[k]);
        }
        assert(y[lead] == x[lead]);
        crate::notation::parser::lemma_leading(y, lead);
        let v = y.skip(lead);
        assert(v =~= u + z);
        let n = tr + z.len();
        assert forall|k: int| v.len() - n <= k < v.len() implies is_whitespace(v[k]) by {
            if k < u.len() {
                assert(v[k] == u[k]);
            } else {
                assert(v[k] == z[k - u.len()]);
            }
        }
        assert(tr < u.len());
        assert(v[v.len() - n - 1] == u[u.len() - tr - 1]);
        crate::notation::parser::lemma_trailing(v, n);
        assert(v.take(v.len() - n) =~= u.take(u.len() - tr));
    }
}

/// White space at the end of a string goes to its last field.
pub proof fn lemma_fields_append_blank(x: Seq<char>, z: Seq<char>)
    requires
        blank(z),
    ensures
        fields(x + z, ',') == fields(x, ',').update(fields(x, ',').len() - 1, fields(x, ',').last() + z),
    decreases z.len(),
{
    let f = fields(x, ',');
    lemma_fields_len(x, ',');
    if z.len() == 0 {
        assert(x + z =~= x);
        assert(f.last() + z =~= f.last());
        assert(f.update(f.len() - 1, f.last()) =~= f);
    } else {
        let z0 = z.drop_last();
        assert(blank(z0)) by {
            assert forall|i: int| 0 <= i < z0.len() implies is_whitespace(#[trigger] z0[i]) by {
                assert(z0[i] == z[i]);
            }
        }
        lemma_fields_append_blank(x, z0);
        assert((x + z).drop_last() =~= x + z0);
        assert((x + z).last() == z.last());
        assert(is_whitespace(z[z.len() - 1]));
        assert(z.last() != ',');
        let g = fields(x + z0, ',');
        assert(g.last() == f.last() + z0);
        assert((f.last() + z0).push(z.last()) =~= f.last() + z);
        assert(g.update(g.len() - 1, g.last().push(z.last())) =~= f.update(f.len() - 1, f.last() + z));
    }
}

/// Fields with the same trimmed parts scan alike.
pub proof fn lemma_scan_fields_same(f: Seq<Seq<char>>, g: Seq<Seq<char>>, n: nat)
    requires
        n <= f.len(),
        n <= g.len(),
        forall|k: int| 0 <= k < n ==> trim(#[trigger] f[k]) == trim(g[k]),
    ensures
        scan_fields(f, n) == scan_fields(g, n),
    decreases n,
{
    if n > 0 {
        lemma_scan_fields_same(f, g, (n - 1) as nat);
        assert(trim(f[n - 1]) == trim(g[n - 1]));
    }
}

/// Every letter among the tokens is a letter of the alphabet.
pub open spec fn letters_only(t: Seq<Option<char>>) -> bool {
    forall|i: int| 0 <= i < t.len() ==> ((#[trigger] t[i]) matches Some(c) ==> is_letter(c))
}

/// A scan gives letters of the alphabet only.
pub proof fn lemma_scan_letters_only(g: Seq<char>, i: int, acc: Seq<Option<char>>)
    requires
        0 <= i,
        scan(g, i, acc) is Ok,
        letters_only(acc),
    ensures
        letters_only(scan(g, i, acc)->Ok_0),
    decreases g.len() - i,
{
    if i >= g.len() {
    } else if g[i] == '.' {
        let next = acc.push(None);
        assert(letters_only(next)) by {
            assert forall|k: int| 0 <= k < next.len() implies ((#[trigger] next[k]) matches Some(c) ==> is_letter(c)) by {
                if k < acc.len() {
                    assert(next[k] == acc[k]);
                }
            }
        }
        lemma_scan_letters_only(g, i + 3, next);
    } else if is_letter(g[i]) {
        let next = acc.push(Some(g[i]));
        assert(letters_only(next)) by {
            assert forall|k: int| 0 <= k < next.len() implies ((#[trigger] next[k]) matches Some(c) ==> is_letter(c)) by {
                if k < acc.len() {
                    assert(next[k] == acc[k]);
                }
            }
        }
        lemma_scan_letters_only(g, i + 1, next);
    } else {
        lemma_scan_letters_only(g, i + 1, acc);
    }
}

/// The letters of tokens that are letters of the alphabet are so too.
pub proof fn lemma_token_letters_only(t: Seq<Option<char>>)
    requires
        letters_only(t),
    ensures
        forall|i: int|
            0 <= i < crate::notation::parser::token_letters(t).len() ==> is_letter(
                #[trigger] crate::notation::parser::token_letters(t)[i],
            ),
    decreases t.len(),
{
    if t.len() > 0 {
        let u = t.drop_last();
        assert(letters_only(u)) by {
            assert forall|k: int| 0 <= k < u.len() implies ((#[trigger] u[k]) matches Some(c) ==> is_letter(c)) by {
                assert(u[k] == t[k]);
            }
        }
        lemma_token_letters_only(u);
        let x = t[t.len() - 1];
        assert(x matches Some(c) ==> is_letter(c));
        let tl = crate::notation::parser::token_letters(t);
        let ul = crate::notation::parser::token_letters(u);
        assert forall|i: int| 0 <= i < tl.len() implies is_letter(#[trigger] tl[i]) by {
            if i < ul.len() {
                assert(tl[i] == ul[i]);
            }
        }
    }
}

/// The letters of all token lists are letters of the alphabet where those of
/// each list are.
pub proof fn lemma_all_letters_only(v: Seq<Seq<Option<char>>>)
    requires
        forall|k: int| 0 <= k < v.len() ==> letters_only(#[trigger] v[k]),
    ensures
        forall|i: int|
            0 <= i < crate::notation::parser::all_token_letters(v).len() ==> is_letter(
                #[trigger] crate::notation::parser::all_token_letters(v)[i],
            ),
    decreases v.len(),
{
    if v.len() > 0 {
        let u = v.drop_last();
        assert forall|k: int| 0 <= k < u.len() implies letters_only(#[trigger] u[k]) by {
            assert(u[k] == v[k]);
        }
        lemma_all_letters_only(u);
        assert(letters_only(v[v.len() - 1]));
        lemma_token_letters_only(v.last());
        let a = crate::notation::parser::all_token_letters(u);
        let b = crate::notation::parser::token_letters(v.last());
        assert forall|i: int| 0 <= i < (a + b).len() implies is_letter(#[trigger] (a + b)[i]) by {
            if i < a.len() {
                assert((a + b)[i] == a[i]);
            } else {
                assert((a + b)[i] == b[i - a.len()]);
            }
        }
    }
}

/// A run of letters scans as those letters.
pub proof fn lemma_scan_run(g: Seq<char>, i: int, acc: Seq<Option<char>>)
    requires
        0 <= i <= g.len(),
        forall|k: int| i <= k < g.len() ==> is_letter(#[trigger] g[k]),
    ensures
        scan(g, i, acc) == Ok::<Seq<Option<char>>, (ParseFault, char)>(
            acc + crate::notation::parser::letter_tokens(g.skip(i)),
        ),
    decreases g.len() - i,
{
    let rest = crate::notation::parser::letter_tokens(g.skip(i));
    if i >= g.len() {
        assert(acc + rest =~= acc);
    } else {
        assert(is_letter(g[i]));
        lemma_scan_run(g, i + 1, acc.push(Some(g[i])));
        let later = crate::notation::parser::letter_tokens(g.skip(i + 1));
        assert(acc.push(Some(g[i])) + later =~= acc + rest) by {
            assert forall|k: int| 0 <= k < rest.len() implies rest[k] == Some(g[i + k]) by {}
            assert forall|k: int| 0 <= k < later.len() implies later[k] == Some(g[i + 1 + k]) by {}
        }
    }
}

/// A run of letters spells itself.
pub proof fn lemma_spell_run(l: Seq<char>)
    ensures
        spell_tokens(crate::notation::parser::letter_tokens(l)) == l,
    decreases l.len(),
{
    let t = crate::notation::parser::letter_tokens(l);
    if l.len() > 0 {
        lemma_spell_run(l.drop_last());
        assert(t.drop_last() =~= crate::notation::parser::letter_tokens(l.drop_last()));
        assert(t.last() == Some(l.last()));
        assert(l.drop_last().push(l.last()) =~= l);
    } else {
        assert(spell_tokens(t) =~= l);
    }
}

/// The implied output of inputs that were scanned, as it is written: it
/// neither starts nor ends with white space, and it scans as the implied
/// output.
pub proof fn lemma_implied_output_scans(f: Seq<Seq<char>>, ins: Seq<Seq<Option<char>>>)
    requires
        scan_fields(f, f.len()) == Ok::<Seq<Seq<Option<char>>>, (ParseFault, char)>(ins),
    ensures
        ({
            let w = spell_tokens(crate::notation::parser::implicit_output(ins));
            &&& w.len() > 0 ==> !is_whitespace(w[0]) && !is_whitespace(w.last())
            &&& scan_subscript(w) == Ok::<Seq<Option<char>>, (ParseFault, char)>(
                crate::notation::parser::implicit_output(ins),
            )
        }),
{
    let out = crate::notation::parser::implicit_output(ins);
    lemma_scan_fields_ok(f, f.len());
    let flat = crate::notation::parser::all_token_letters(ins);
    let run = crate::index_set::ordered(crate::notation::parser::once_in(flat, flat));
    assert forall|k: int| 0 <= k < ins.len() implies letters_only(#[trigger] ins[k]) by {
        assert(scan_subscript(trim(f[k])) == Ok::<Seq<Option<char>>, (ParseFault, char)>(ins[k]));
        lemma_scan_letters_only(trim(f[k]), 0, Seq::empty());
    }
    lemma_all_letters_only(ins);
    crate::index_set::lemma_ordered(crate::notation::parser::once_in(flat, flat));
    crate::notation::parser::lemma_once_in(flat, flat);
    assert forall|k: int| 0 <= k < run.len() implies is_letter(#[trigger] run[k]) by {
        assert(run.contains(run[k]));
        assert(flat.contains(run[k]));
        let q = choose|q: int| 0 <= q < flat.len() && flat[q] == run[k];
        assert(is_letter(flat[q]));
    }
    let dotted = crate::notation::parser::any_ellipsis(ins);
    let dots = seq!['.', '.', '.'];
    let w = spell_tokens(out);
    lemma_spell_run(run);
    if dotted {
        lemma_spell_tokens_push(Seq::empty(), None);
        assert(seq![None::<char>] =~= Seq::<Option<char>>::empty().push(None));
        lemma_spell_add(seq![None::<char>], crate::notation::parser::letter_tokens(run));
        assert(spell_tokens(seq![None::<char>]) =~= dots);
        assert(w == dots + run);
        assert(w[0] == '.' && w[1] == '.' && w[2] == '.');
        if run.len() > 0 {
            assert(w.last() == run.last());
            assert(is_letter(run[run.len() - 1]));
        } else {
            assert(w.last() == '.');
        }
        assert(w.skip(3) =~= run);
        assert forall|k: int| 3 <= k < w.len() implies is_letter(#[trigger] w[k]) by {
            assert(w[k] == run[k - 3]);
        }
        lemma_scan_run(w, 3, Seq::<Option<char>>::empty().push(None));
        assert(!Seq::<Option<char>>::empty().contains(None::<char>));
    } else {
        assert(w == run);
        if w.len() > 0 {
            assert(is_letter(run[0]));
            assert(is_letter(run[run.len() - 1]));
        }
        assert(w.skip(0) =~= w);
        lemma_scan_run(w, 0, Seq::empty());
        assert(Seq::<Option<char>>::empty() + crate::notation::parser::letter_tokens(run)
            =~= crate::notation::parser::letter_tokens(run));
    }
}

/// A string without arrow, followed by an arrow and by `w`, which has no white
/// space at its ends: trimmed, it is the trimmed string, the white space after
/// it, the arrow and `w`; and its first arrow is the one that was added.
pub proof fn lemma_arrow_appended(s: Seq<char>, w: Seq<char>)
    requires
        trim(s).len() > 0,
        !has_arrow(trim(s)),
        w.len() > 0 ==> !is_whitespace(w[0]) && !is_whitespace(w.last()),
    ensures
        ({
            let t = trim(s);
            let post = s.skip((leading(s) + t.len()) as int);
            let body = trim(s + seq!['-', '>'] + w);
            &&& blank(post)
            &&& body == t + post + seq!['-', '>'] + w
            &&& has_arrow(body)
            &&& arrow_position(body) == (t + post).len()
        }),
{
    let arrow = seq!['-', '>'];
    let t = trim(s);
    lemma_trim_parts(s);
    lemma_leading_is(s);
    let lead = leading(s) as int;
    let post = s.skip((leading(s) + t.len()) as int);
    let whole = s + arrow + w;
    let body = t + post + arrow + w;
    assert(s.skip(lead) =~= t + post);
    assert(whole.skip(lead) =~= body);
    assert forall|k: int| 0 <= k < lead implies is_whitespace(whole[k]) by {
        assert(whole[k] == s[k]);
    }
    assert(whole[lead] == t[0]) by {
        assert(whole[lead] == s[lead]);
        assert((t + post)[0] == t[0]);
        assert(s.skip(lead)[0] == s[lead]);
    }
    crate::notation::parser::lemma_leading(whole, lead);
    assert(!is_whitespace(body.last())) by {
        if w.len() > 0 {
            assert(body.last() == w.last());
        } else {
            assert(body.last() == '>');
        }
    }
    crate::notation::parser::lemma_trailing(body, 0);
    assert(body.take(body.len() as int) =~= body);
    assert(trim(whole) == body);
    let q = (t + post).len() as int;
    assert(arrow_at(body, q)) by {
        assert(body[q] == arrow[0]);
        assert(body[q + 1] == arrow[1]);
    }
    assert forall|j: int| 0 <= j < q implies !arrow_at(body, j) by {
        if arrow_at(body, j) {
            if j + 1 < t.len() {
                assert(body[j] == t[j] && body[j + 1] == t[j + 1]);
                assert(arrow_at(t, j));
            } else if j >= t.len() {
                assert(body[j] == post[j - t.len()]);
                assert(is_whitespace(post[j - t.len()]));
            } else if j + 1 < q {
                assert(body[j + 1] == post[j + 1 - t.len()]);
                assert(is_whitespace(post[j + 1 - t.len()]));
            } else {
                assert(body[j + 1] == '-');
            }
        }
    }
    assert(first_arrow(body, q));
    lemma_least_arrow(body, q);
    let p = arrow_position(body);
    if p < q {
        assert(!arrow_at(body, p));
    }
    if q < p {
        assert(!arrow_at(body, q));
    }
}

/// A notation without arrow means what it means with the arrow and the implied
/// output written out.
pub proof fn implicit_output_is_explicit(s: Seq<char>, ins: Seq<Seq<Option<char>>>, out: Seq<Option<char>>)
    requires
        !has_arrow(trim(s)),
        parse_spec(s) == Ok::<(Seq<Seq<Option<char>>>, Seq<Option<char>>), (ParseFault, char)>((ins, out)),
    ensures
        parse_spec(s + seq!['-', '>'] + spell_tokens(out)) == Ok::<
            (Seq<Seq<Option<char>>>, Seq<Option<char>>),
            (ParseFault, char),
        >((ins, out)),
{
    let arrow = seq!['-', '>'];
    let t = trim(s);
    let f = fields(t, ',');
    assert(t.len() > 0);
    assert(scan_fields(f, f.len()) == Ok::<Seq<Seq<Option<char>>>, (ParseFault, char)>(ins));
    assert(out == crate::notation::parser::implicit_output(ins));
    let w = spell_tokens(out);
    lemma_implied_output_scans(f, ins);
    lemma_trim_same(w);
    lemma_arrow_appended(s, w);
    let post = s.skip((leading(s) + t.len()) as int);
    let body = trim(s + arrow + w);
    let q = (t + post).len() as int;
    assert(body.take(q) =~= t + post);
    assert(body.skip(q + 2) =~= w);
    lemma_fields_append_blank(t, post);
    lemma_fields_len(t, ',');
    let g = fields(t + post, ',');
    assert forall|k: int| 0 <= k < f.len() implies trim(#[trigger] g[k]) == trim(f[k]) by {
        if k == f.len() - 1 {
            lemma_trim_append_blank(f.last(), post);
        }
    }
    lemma_scan_fields_same(g, f, f.len());
}

/// What is written for one list of tokens after another.
pub proof fn lemma_spell_add(a: Seq<Option<char>>, b: Seq<Option<char>>)
    ensures
        spell_tokens(a + b) == spell_tokens(a) + spell_tokens(b),
    decreases b.len(),
{
    if b.len() == 0 {
        assert(a + b =~= a);
        assert(spell_tokens(a) + spell_tokens(b) =~= spell_tokens(a));
    } else {
        lemma_spell_add(a, b.drop_last());
        assert((a + b).drop_last() =~= a + b.drop_last());
        assert((a + b).last() == b.last());
        match b.last() {
            Some(c) => {
                assert((spell_tokens(a) + spell_tokens(b.drop_last())).push(c) =~= spell_tokens(a) + spell_tokens(
                    b.drop_last(),
                ).push(c));
            },
            None => {
                assert((spell_tokens(a) + spell_tokens(b.drop_last())) + seq!['.', '.', '.'] =~= spell_tokens(a) + (
                spell_tokens(b.drop_last()) + seq!['.', '.', '.']));
            },
        }
    }
}

} // verus!
