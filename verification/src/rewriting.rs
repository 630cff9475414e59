//! A written section inside a document: where it is found again once the
//! document was rewritten.

use crate::braces::{closing_brace, closing_from};
use crate::chars::{has_at, is_space, lemma_skip_spaces_bounds, skip_spaces};
use crate::document::{find_introducer, introducer_at, introducer_key};
use crate::grammar::{section_body, section_text, SlotModel};
use crate::scanning::{
    balanced, lemma_closing_over, lemma_has_at_index, lemma_has_at_inner, lemma_spaces_run,
};
use vstd::prelude::*;

verus! {

/// An introducer that stands at `k`, none standing in `i..k`, is the one
/// that is found.
pub proof fn lemma_introducer_first(s: Seq<char>, i: int, k: int)
    requires
        0 <= i <= k < s.len(),
        introducer_at(s, k).is_some(),
        forall|p: int| i <= p < k ==> introducer_at(s, p).is_none(),
    ensures
        find_introducer(s, i) == Some((k, introducer_at(s, k).unwrap())),
    decreases k - i,
{
    if i < k {
        lemma_introducer_first(s, i + 1, k);
    }
}

/// Before the introducer that is found stands no other.
pub proof fn lemma_introducer_least(s: Seq<char>, i: int)
    requires
        0 <= i,
    ensures
        find_introducer(s, i) matches Some((start, from)) ==> forall|p: int|
            i <= p < start ==> introducer_at(s, p).is_none(),
    decreases s.len() - i,
{
    if i < s.len() && introducer_at(s, i).is_none() {
        lemma_introducer_least(s, i + 1);
    }
}

/// The shape of an introducer: the key, spaces, `=`, spaces, `{`.
pub proof fn lemma_introducer_shape(s: Seq<char>, p: int)
    requires
        0 <= p,
        introducer_at(s, p).is_some(),
    ensures
        ({
            let eq = skip_spaces(s, p + 9);
            let open = skip_spaces(s, eq + 1);
            &&& has_at(s, introducer_key(), p)
            &&& p + 9 <= eq < open < s.len()
            &&& forall|k: int| p + 9 <= k < eq ==> is_space(#[trigger] s[k])
            &&& s[eq] == '='
            &&& forall|k: int| eq + 1 <= k < open ==> is_space(#[trigger] s[k])
            &&& s[open] == '{'
            &&& introducer_at(s, p) == Some(open + 1)
        }),
{
    reveal_strlit("Inventory");
    lemma_skip_spaces_bounds(s, p + 9);
    lemma_skip_spaces_bounds(s, skip_spaces(s, p + 9) + 1);
}

/// An introducer that ends before `limit` stands in every text that agrees
/// with this one up to `limit`.
pub proof fn lemma_introducer_agrees(s: Seq<char>, t: Seq<char>, p: int, limit: int)
    requires
        0 <= p,
        limit <= s.len(),
        limit <= t.len(),
        s.take(limit) == t.take(limit),
        introducer_at(s, p) matches Some(from) && from <= limit,
    ensures
        introducer_at(t, p) == introducer_at(s, p),
{
    reveal_strlit("Inventory");
    lemma_introducer_shape(s, p);
    let eq = skip_spaces(s, p + 9);
    let open = skip_spaces(s, eq + 1);
    assert forall|k: int| 0 <= k < limit implies #[trigger] t[k] == s[k] by {
        assert(s.take(limit)[k] == s[k]);
        assert(t.take(limit)[k] == t[k]);
    }
    assert(t.subrange(p, p + 9) =~= s.subrange(p, p + 9));
    assert forall|k: int| p + 9 <= k < eq implies is_space(#[trigger] t[k]) by {
        assert(is_space(s[k]));
    }
    assert(!is_space('='));
    lemma_spaces_run(t, p + 9, eq);
    assert forall|k: int| eq + 1 <= k < open implies is_space(#[trigger] t[k]) by {
        assert(is_space(s[k]));
    }
    assert(!is_space('{'));
    lemma_spaces_run(t, eq + 1, open);
}

/// No introducer runs across an `I`: the key holds no second one, and what
/// follows the key is whitespace, `=` and `{`.
pub proof fn lemma_introducer_stops(s: Seq<char>, p: int, at: int)
    requires
        0 <= p < at < s.len(),
        introducer_at(s, p) matches Some(from) && at < from,
    ensures
        s[at] != 'I',
{
    reveal_strlit("Inventory");
    lemma_introducer_shape(s, p);
    let eq = skip_spaces(s, p + 9);
    let open = skip_spaces(s, eq + 1);
    assert(!is_space('I'));
    if at < p + 9 {
        lemma_has_at_index(s, introducer_key(), p, at - p);
    } else if at < eq {
        assert(is_space(s[at]));
    } else if at == eq {
    } else if at < open {
        assert(is_space(s[at]));
    } else {
    }
}

/// A written section that stands at `start` in a text is introduced there
/// and closed by its last character.
pub proof fn lemma_written_section_at(s: Seq<char>, start: int, slots: Seq<SlotModel>)
    requires
        0 <= start,
        has_at(s, section_text(slots), start),
        balanced(section_body(slots)),
    ensures
        introducer_at(s, start) == Some(start + 15),
        closing_brace(s, start + 15) == Some(start + section_text(slots).len() - 1),
        s.subrange(start + 15, start + section_text(slots).len() - 1) == section_body(slots),
        s[start] == 'I',
        section_text(slots).len() == 16 + section_body(slots).len(),
{
    reveal_strlit("Inventory   = {");
    reveal_strlit("Inventory");
    reveal_strlit("}");
    let w = section_text(slots);
    let body = section_body(slots);
    assert(w.subrange(0, 9) =~= introducer_key());
    lemma_has_at_inner(s, w, start, introducer_key(), 0);
    assert forall|k: int| 0 <= k < 15 implies s[start + k] == #[trigger] w[k] by {
        lemma_has_at_index(s, w, start, k);
    }
    assert(w[9] == ' ' && w[10] == ' ' && w[11] == ' ' && w[12] == '=' && w[13] == ' ' && w[14]
        == '{' && w[0] == 'I');
    assert(is_space(' '));
    assert(!is_space('='));
    assert(!is_space('{'));
    assert forall|k: int| start + 9 <= k < start + 12 implies is_space(#[trigger] s[k]) by {
        assert(s[k] == w[k - start]);
    }
    assert(s[start + 12] == w[12]);
    lemma_spaces_run(s, start + 9, start + 12);
    assert forall|k: int| start + 13 <= k < start + 14 implies is_space(#[trigger] s[k]) by {
        assert(s[k] == w[k - start]);
    }
    assert(s[start + 14] == w[14]);
    lemma_spaces_run(s, start + 13, start + 14);
    assert(has_at(w, body, 15)) by {
        assert(w.subrange(15, 15 + body.len() as int) =~= body);
    }
    lemma_has_at_inner(s, w, start, body, 15);
    lemma_closing_over(s, start + 15, body, 1);
    let close = start + 15 + body.len() as int;
    lemma_has_at_index(s, w, start, 15 + body.len() as int);
    assert(s[close] == '}');
    assert(closing_from(s, close, 1) == Some(close));
}

/// Where a document was located at `start` and a written section is put in
/// the place of the old one, the new document is located at `start` again.
pub proof fn lemma_relocated(
    document: Seq<char>,
    start: int,
    rewritten: Seq<char>,
    slots: Seq<SlotModel>,
)
    requires
        find_introducer(document, 0) matches Some((s, _)) && s == start,
        start <= rewritten.len(),
        rewritten.take(start) == document.take(start),
        has_at(rewritten, section_text(slots), start),
        balanced(section_body(slots)),
    ensures
        find_introducer(rewritten, 0) == Some((start, start + 15)),
        closing_brace(rewritten, start + 15) == Some(start + section_text(slots).len() - 1),
        rewritten.subrange(start + 15, start + section_text(slots).len() - 1) == section_body(
            slots,
        ),
{
    crate::document::lemma_introducer_bounds(document, 0);
    lemma_introducer_least(document, 0);
    lemma_written_section_at(rewritten, start, slots);
    assert forall|p: int| 0 <= p < start implies introducer_at(rewritten, p).is_none() by {
        if let Some(from) = introducer_at(rewritten, p) {
            if from <= start {
                lemma_introducer_agrees(rewritten, document, p, start);
            } else {
                lemma_introducer_stops(rewritten, p, start);
            }
        }
    }
    lemma_introducer_first(rewritten, 0, start);
}

} // verus!
