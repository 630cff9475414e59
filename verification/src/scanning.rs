//! Facts about the scanners: what they return on a text whose relevant
//! stretch is known, and how brace depth behaves over a stretch of text.

use crate::braces::{brace_delta, closing_from};
use crate::chars::{
    digits_end, find_from, has_at, is_digit, is_separator, is_space, skip_separators, skip_spaces,
};
use crate::grammar::{attribute_at, find_attribute, top_level_comma};
use vstd::prelude::*;

verus! {

/// A stretch of digits that ends before a character that is none, or at
/// the end of the text, is the whole run.
pub proof fn lemma_digits_run(s: Seq<char>, i: int, j: int)
    requires
        0 <= i <= j <= s.len(),
        forall|k: int| i <= k < j ==> is_digit(#[trigger] s[k]),
        j < s.len() ==> !is_digit(s[j]),
    ensures
        digits_end(s, i) == j,
    decreases j - i,
{
    if i < j {
        lemma_digits_run(s, i + 1, j);
    }
}

/// A stretch of whitespace that ends before a character that is none, or at
/// the end of the text, is skipped as a whole.
pub proof fn lemma_spaces_run(s: Seq<char>, i: int, j: int)
    requires
        0 <= i <= j <= s.len(),
        forall|k: int| i <= k < j ==> is_space(#[trigger] s[k]),
        j < s.len() ==> !is_space(s[j]),
    ensures
        skip_spaces(s, i) == j,
    decreases j - i,
{
    if i < j {
        lemma_spaces_run(s, i + 1, j);
    }
}

/// A stretch of separators is skipped as a whole.
pub proof fn lemma_separators_run(s: Seq<char>, i: int, j: int)
    requires
        0 <= i <= j <= s.len(),
        forall|k: int| i <= k < j ==> is_separator(#[trigger] s[k]),
        j < s.len() ==> !is_separator(s[j]),
    ensures
        skip_separators(s, i) == j,
    decreases j - i,
{
    if i < j {
        lemma_separators_run(s, i + 1, j);
    }
}

/// A pattern that stands at `k` and nowhere in `i..k` is found at `k`.
pub proof fn lemma_find_first(s: Seq<char>, pat: Seq<char>, i: int, k: int)
    requires
        0 <= i <= k,
        has_at(s, pat, k),
        forall|p: int| i <= p < k ==> !has_at(s, pat, p),
    ensures
        find_from(s, pat, i) == Some(k),
    decreases k - i,
{
    if i < k {
        lemma_find_first(s, pat, i + 1, k);
    }
}

/// A pattern that stands nowhere from `i` on is not found.
pub proof fn lemma_find_none(s: Seq<char>, pat: Seq<char>, i: int)
    requires
        0 <= i,
        forall|p: int| i <= p ==> !has_at(s, pat, p),
    ensures
        find_from(s, pat, i).is_none(),
    decreases s.len() + 1 - i,
{
    if i + pat.len() <= s.len() {
        lemma_find_none(s, pat, i + 1);
    }
}

/// An attribute token that stands at `k`, none standing in `i..k`, is the
/// one that is found.
pub proof fn lemma_attribute_first(t: Seq<char>, key: Seq<char>, i: int, k: int)
    requires
        0 <= i <= k < t.len(),
        attribute_at(t, key, k).is_some(),
        forall|p: int| i <= p < k ==> attribute_at(t, key, p).is_none(),
    ensures
        find_attribute(t, key, i) == attribute_at(t, key, k),
    decreases k - i,
{
    if i < k {
        lemma_attribute_first(t, key, i + 1, k);
    }
}

/// Where no attribute token stands from `i` on, none is found.
pub proof fn lemma_attribute_none(t: Seq<char>, key: Seq<char>, i: int)
    requires
        0 <= i,
        forall|p: int| i <= p < t.len() ==> attribute_at(t, key, p).is_none(),
    ensures
        find_attribute(t, key, i).is_none(),
    decreases t.len() - i,
{
    if i < t.len() {
        lemma_attribute_none(t, key, i + 1);
    }
}

/// A part of a part is a part.
pub proof fn lemma_has_at_inner(s: Seq<char>, x: Seq<char>, i: int, y: Seq<char>, j: int)
    requires
        has_at(s, x, i),
        has_at(x, y, j),
    ensures
        has_at(s, y, i + j),
{
    let inner = s.subrange(i + j, i + j + y.len());
    assert forall|k: int| 0 <= k < y.len() implies #[trigger] inner[k] == y[k] by {
        assert(s.subrange(i, i + x.len())[j + k] == s[i + j + k]);
        assert(x.subrange(j, j + y.len())[k] == x[j + k]);
    }
    assert(inner =~= y);
}

/// The characters of a part are characters of the whole.
pub proof fn lemma_has_at_index(s: Seq<char>, x: Seq<char>, i: int, k: int)
    requires
        has_at(s, x, i),
        0 <= k < x.len(),
    ensures
        s[i + k] == x[k],
{
    assert(s.subrange(i, i + x.len())[k] == s[i + k]);
}

// ------------------------------------------------------------ brace depth

/// How much deeper in braces the end of `x` lies than its start.
pub open spec fn balance(x: Seq<char>) -> int
    decreases x.len(),
{
    if x.len() == 0 {
        0
    } else {
        balance(x.drop_last()) + brace_delta(x.last())
    }
}

/// Every brace of `x` is closed in `x`, and none is closed that was not
/// opened in it.
pub open spec fn balanced(x: Seq<char>) -> bool {
    &&& balance(x) == 0
    &&& forall|p: int| 0 <= p <= x.len() ==> balance(#[trigger] x.take(p)) >= 0
}

/// `x` is balanced and each of its commas stands inside braces.
pub open spec fn sealed(x: Seq<char>) -> bool {
    &&& balanced(x)
    &&& forall|p: int| 0 <= p < x.len() && x[p] == ',' ==> balance(#[trigger] x.take(p)) >= 1
}

/// `x` holds no brace.
pub open spec fn braceless(x: Seq<char>) -> bool {
    forall|p: int| 0 <= p < x.len() ==> (#[trigger] x[p]) != '{' && x[p] != '}'
}

/// `x` holds neither a brace nor a comma.
pub open spec fn plain(x: Seq<char>) -> bool {
    forall|p: int| 0 <= p < x.len() ==> (#[trigger] x[p]) != '{' && x[p] != '}' && x[p] != ','
}

pub proof fn lemma_balance_concat(a: Seq<char>, b: Seq<char>)
    ensures
        balance(a + b) == balance(a) + balance(b),
    decreases b.len(),
{
    if b.len() == 0 {
        assert(a + b =~= a);
    } else {
        assert((a + b).drop_last() =~= a + b.drop_last());
        lemma_balance_concat(a, b.drop_last());
    }
}

pub proof fn lemma_balance_one(c: char)
    ensures
        balance(seq![c]) == brace_delta(c),
{
    assert(seq![c].drop_last() =~= Seq::<char>::empty());
    assert(balance(Seq::<char>::empty()) == 0);
}

/// A text without braces changes no depth, nor does any of its prefixes.
pub proof fn lemma_braceless_balance(x: Seq<char>)
    requires
        braceless(x),
    ensures
        balance(x) == 0,
        balanced(x),
    decreases x.len(),
{
    if x.len() > 0 {
        lemma_braceless_balance(x.drop_last());
        assert forall|p: int| 0 <= p <= x.len() implies balance(#[trigger] x.take(p)) >= 0 by {
            if p == x.len() {
                assert(x.take(p) =~= x);
            } else {
                assert(x.take(p) =~= x.drop_last().take(p));
            }
        }
    } else {
        assert forall|p: int| 0 <= p <= x.len() implies balance(#[trigger] x.take(p)) >= 0 by {
            assert(x.take(p) =~= x);
        }
    }
}

/// The prefixes of a concatenation: a prefix of the first part, or the
/// first part and a prefix of the second.
pub proof fn lemma_take_concat(a: Seq<char>, b: Seq<char>, p: int)
    requires
        0 <= p <= a.len() + b.len(),
    ensures
        p <= a.len() ==> (a + b).take(p) == a.take(p),
        p >= a.len() ==> (a + b).take(p) == a + b.take(p - a.len()),
        p >= a.len() ==> balance((a + b).take(p)) == balance(a) + balance(b.take(p - a.len())),
{
    if p <= a.len() {
        assert((a + b).take(p) =~= a.take(p));
    }
    if p >= a.len() {
        assert((a + b).take(p) =~= a + b.take(p - a.len()));
        lemma_balance_concat(a, b.take(p - a.len()));
    }
}

pub proof fn lemma_balanced_concat(a: Seq<char>, b: Seq<char>)
    requires
        balanced(a),
        balanced(b),
    ensures
        balanced(a + b),
{
    lemma_balance_concat(a, b);
    assert forall|p: int| 0 <= p <= (a + b).len() implies balance(#[trigger] (a + b).take(p))
        >= 0 by {
        lemma_take_concat(a, b, p);
        if p <= a.len() {
            assert(balance(a.take(p)) >= 0);
        } else {
            assert(balance(b.take(p - a.len())) >= 0);
        }
    }
}

/// A sealed text stays sealed behind a text without braces and commas.
pub proof fn lemma_sealed_after_plain(a: Seq<char>, b: Seq<char>)
    requires
        plain(a),
        sealed(b),
    ensures
        sealed(a + b),
{
    lemma_braceless_balance(a);
    lemma_balanced_concat(a, b);
    assert forall|p: int| 0 <= p < (a + b).len() && (a + b)[p] == ',' implies balance(
        #[trigger] (a + b).take(p),
    ) >= 1 by {
        lemma_take_concat(a, b, p);
        assert(p >= a.len());
        assert(b[p - a.len()] == ',');
        assert(balance(b.take(p - a.len())) >= 1);
    }
}

/// A balanced text in braces is sealed.
pub proof fn lemma_sealed_block(j: Seq<char>)
    requires
        balanced(j),
    ensures
        sealed(seq!['{'] + j + seq!['}']),
{
    let open = seq!['{'];
    let close = seq!['}'];
    let x = open + j + close;
    lemma_balance_one('{');
    lemma_balance_one('}');
    lemma_balance_concat(open, j);
    lemma_balance_concat(open + j, close);
    assert forall|p: int| 0 <= p <= x.len() implies balance(#[trigger] x.take(p)) >= 0 && (p
        < x.len() && x[p] == ',' ==> balance(x.take(p)) >= 1) by {
        if p == 0 {
            assert(x.take(0) =~= Seq::<char>::empty());
        } else if p <= 1 + j.len() {
            assert(x.take(p) =~= open + j.take(p - 1));
            lemma_balance_concat(open, j.take(p - 1));
            assert(balance(j.take(p - 1)) >= 0);
        } else {
            assert(x.take(p) =~= x);
        }
    }
}

/// Over a stretch in which the depth never falls to zero, the search for
/// the closing brace goes on behind the stretch, at the depth reached there.
pub proof fn lemma_closing_over(s: Seq<char>, i: int, x: Seq<char>, depth: int)
    requires
        has_at(s, x, i),
        depth >= 1,
        forall|p: int| 1 <= p <= x.len() ==> depth + balance(#[trigger] x.take(p)) >= 1,
    ensures
        closing_from(s, i, depth) == closing_from(s, i + x.len(), depth + balance(x)),
    decreases x.len(),
{
    if x.len() == 0 {
    } else {
        let c = x[0];
        let rest = x.drop_first();
        lemma_has_at_index(s, x, i, 0);
        assert(x.take(1) =~= seq![c]);
        lemma_balance_one(c);
        assert(depth + brace_delta(c) >= 1);
        assert(x =~= seq![c] + rest);
        lemma_balance_concat(seq![c], rest);
        assert(has_at(s, rest, i + 1)) by {
            assert(has_at(x, rest, 1)) by {
                assert(x.subrange(1, 1 + rest.len() as int) =~= rest);
            }
            lemma_has_at_inner(s, x, i, rest, 1);
        }
        assert forall|p: int| 1 <= p <= rest.len() implies depth + brace_delta(c) + balance(
            #[trigger] rest.take(p),
        ) >= 1 by {
            assert(x.take(p + 1) =~= seq![c] + rest.take(p));
            lemma_balance_concat(seq![c], rest.take(p));
        }
        lemma_closing_over(s, i + 1, rest, depth + brace_delta(c));
    }
}

/// Over a stretch without a comma at depth zero, the search for the next
/// top-level comma goes on behind the stretch, at the depth reached there.
pub proof fn lemma_comma_over(s: Seq<char>, i: int, x: Seq<char>, depth: int)
    requires
        has_at(s, x, i),
        forall|p: int|
            0 <= p < x.len() && x[p] == ',' ==> depth + balance(#[trigger] x.take(p)) != 0,
    ensures
        top_level_comma(s, i, depth) == top_level_comma(s, i + x.len(), depth + balance(x)),
    decreases x.len(),
{
    if x.len() == 0 {
    } else {
        let c = x[0];
        let rest = x.drop_first();
        lemma_has_at_index(s, x, i, 0);
        assert(x.take(0) =~= Seq::<char>::empty());
        lemma_balance_one(c);
        assert(x =~= seq![c] + rest);
        lemma_balance_concat(seq![c], rest);
        assert(has_at(s, rest, i + 1)) by {
            assert(has_at(x, rest, 1)) by {
                assert(x.subrange(1, 1 + rest.len() as int) =~= rest);
            }
            lemma_has_at_inner(s, x, i, rest, 1);
        }
        assert forall|p: int| 0 <= p < rest.len() && rest[p] == ',' implies depth + brace_delta(c)
            + balance(#[trigger] rest.take(p)) != 0 by {
            assert(x[p + 1] == ',');
            assert(x.take(p + 1) =~= seq![c] + rest.take(p));
            lemma_balance_concat(seq![c], rest.take(p));
        }
        lemma_comma_over(s, i + 1, rest, depth + brace_delta(c));
    }
}

} // verus!
