//! Reading back what was written: the text of an item, of a list of items
//! and of a section denotes the value it was written from.

use crate::braces::{closing_brace, closing_from};
use crate::chars::{
    digits_end, has_at, is_blank, is_digit, is_separator, is_space, lemma_digits_end_bounds,
    lemma_skip_spaces_bounds, skip_separators, skip_spaces,
};
use crate::decimal::{
    all_digits, decimal, digits_value, lemma_decimal_digits, lemma_digits_value_prefix,
};
use crate::grammar::{
    amount_key, amount_text, attribute_at, attribute_value, attributes_end, charges_key,
    charges_text, content_block, content_key, find_attribute, item_text, items_text,
    lemma_content_block_bounds, lemma_slot_bounds, lemma_top_level_comma_bounds, parse_item_spec,
    parse_items_spec, parse_slots_spec, slot_text, slots_text, top_level_comma, ItemModel,
    SlotModel,
};
use crate::scanning::{
    balanced, lemma_attribute_first, lemma_attribute_none, lemma_balanced_concat,
    lemma_braceless_balance, lemma_closing_over, lemma_comma_over, lemma_digits_run,
    lemma_find_first, lemma_find_none, lemma_has_at_index, lemma_has_at_inner,
    lemma_sealed_after_plain, lemma_sealed_block, lemma_separators_run, lemma_spaces_run, plain,
    sealed,
};
use vstd::prelude::*;

verus! {

/// A number that can be read back: not negative, and no larger than an
/// `i32` can hold.
pub open spec fn readable(v: int) -> bool {
    0 <= v <= i32::MAX
}

pub open spec fn readable_option(v: Option<int>) -> bool {
    v matches Some(n) ==> readable(n)
}

/// An item whose numbers can all be read back, its contents included.
pub open spec fn readable_item(t: ItemModel) -> bool
    decreases t,
{
    &&& readable(t.type_id)
    &&& readable_option(t.amount)
    &&& readable_option(t.charges)
    &&& forall|i: int| 0 <= i < t.contents.len() ==> readable_item(#[trigger] t.contents[i])
}

pub open spec fn readable_items(ts: Seq<ItemModel>) -> bool {
    forall|i: int| 0 <= i < ts.len() ==> readable_item(#[trigger] ts[i])
}

pub open spec fn readable_slots(slots: Seq<SlotModel>) -> bool {
    forall|i: int|
        0 <= i < slots.len() ==> readable((#[trigger] slots[i]).slot_number) && readable_item(
            slots[i].item,
        )
}

/// `x` nowhere holds the character `c`.
pub open spec fn lacks(x: Seq<char>, c: char) -> bool {
    forall|p: int| 0 <= p < x.len() ==> (#[trigger] x[p]) != c
}

/// The text of a readable number: digits only, at least one, worth the
/// number.
pub proof fn lemma_decimal_text(v: int)
    requires
        readable(v),
    ensures
        decimal(v).len() > 0,
        all_digits(decimal(v)),
        digits_value(decimal(v)) == v,
        plain(decimal(v)),
        forall|c: char| !is_digit(c) ==> lacks(decimal(v), c),
{
    lemma_decimal_digits(v as nat);
    let d = decimal(v);
    assert forall|c: char| !is_digit(c) implies lacks(d, c) by {
        assert forall|p: int| 0 <= p < d.len() implies #[trigger] d[p] != c by {
            assert(is_digit(d[p]));
        }
    }
    assert forall|p: int| 0 <= p < d.len() implies (#[trigger] d[p]) != '{' && d[p] != '}' && d[p]
        != ',' by {
        assert(is_digit(d[p]));
    }
}

/// ` key=`: a space, the key, the equals sign.
pub open spec fn token_head(head: Seq<char>, key: Seq<char>) -> bool {
    &&& key.len() > 0
    &&& head.len() == key.len() + 2
    &&& head[0] == ' '
    &&& head.subrange(1, 1 + key.len() as int) == key
    &&& head[key.len() as int + 1] == '='
}

/// An attribute written as ` key=` and a readable number is a token whose
/// digits are those of the number.
pub proof fn lemma_token(x: Seq<char>, key: Seq<char>, head: Seq<char>, k: int, v: int)
    requires
        token_head(head, key),
        readable(v),
        has_at(x, head, k),
        has_at(x, decimal(v), k + head.len()),
        k + head.len() + decimal(v).len() < x.len() ==> !is_digit(
            x[k + head.len() + decimal(v).len()],
        ),
    ensures
        attribute_at(x, key, k + 1) == Some(
            (k + head.len(), k + head.len() + decimal(v).len()),
        ),
        digits_value(x.subrange(k + head.len(), k + head.len() + decimal(v).len())) == v,
{
    let d = decimal(v);
    let from = k + head.len();
    lemma_decimal_text(v);
    assert(has_at(head, key, 1));
    lemma_has_at_inner(x, head, k, key, 1);
    lemma_has_at_index(x, head, k, key.len() as int + 1);
    assert(x[k + 1 + key.len()] == '=');
    assert(!is_space('='));
    assert(skip_spaces(x, k + 1 + key.len()) == k + 1 + key.len());
    lemma_has_at_index(x, d, from, 0);
    assert(is_digit(d[0]));
    assert(!is_space(x[from]));
    assert(skip_spaces(x, from) == from);
    assert forall|j: int| from <= j < from + d.len() implies is_digit(#[trigger] x[j]) by {
        lemma_has_at_index(x, d, from, j - from);
        assert(is_digit(d[j - from]));
    }
    lemma_digits_run(x, from, from + d.len());
}

/// Where the first character of a key stands nowhere before `k`, no token
/// of that key starts before `k`.
pub proof fn lemma_no_token_before(x: Seq<char>, key: Seq<char>, k: int)
    requires
        key.len() > 0,
        0 <= k <= x.len(),
        forall|p: int| 0 <= p < k ==> (#[trigger] x[p]) != key[0],
    ensures
        forall|p: int| 0 <= p < k ==> attribute_at(x, key, p).is_none(),
{
    assert forall|p: int| 0 <= p < k implies attribute_at(x, key, p).is_none() by {
        if has_at(x, key, p) {
            assert(x.subrange(p, p + key.len())[0] == x[p]);
        }
    }
}

/// The text of the attributes of an item, followed by `tail`.
pub open spec fn header(amount: Option<int>, charges: Option<int>, tail: Seq<char>) -> Seq<char> {
    amount_text(amount) + charges_text(charges) + tail
}

/// What a header may be followed by in the text of an item: nothing, or the
/// space before `Content=`.
pub open spec fn header_tail(tail: Seq<char>) -> bool {
    tail.len() == 0 || tail == seq![' ']
}

proof fn lemma_amount_text(amount: Option<int>)
    requires
        readable_option(amount),
    ensures
        plain(amount_text(amount)),
        lacks(amount_text(amount), 'C'),
        token_head(" Amount="@, amount_key()),
        match amount {
            Some(a) => has_at(amount_text(amount), " Amount="@, 0) && has_at(
                amount_text(amount),
                decimal(a),
                8,
            ) && amount_text(amount).len() == 8 + decimal(a).len(),
            None => amount_text(amount).len() == 0,
        },
{
    reveal_strlit(" Amount=");
    reveal_strlit("Amount");
    let head = " Amount="@;
    assert(head.subrange(1, 7) =~= "Amount"@);
    if let Some(a) = amount {
        lemma_decimal_text(a);
        let d = decimal(a);
        let x = amount_text(amount);
        assert(x.subrange(0, 8) =~= head);
        assert(x.subrange(8, 8 + d.len() as int) =~= d);
        assert(!is_digit('C'));
        assert(lacks(d, 'C'));
        assert forall|p: int| 0 <= p < x.len() implies (#[trigger] x[p]) != '{' && x[p] != '}'
            && x[p] != ',' && x[p] != 'C' by {
            if p >= 8 {
                assert(x[p] == d[p - 8]);
                assert(is_digit(d[p - 8]));
            }
        }
    }
}

proof fn lemma_charges_text(charges: Option<int>)
    requires
        readable_option(charges),
    ensures
        plain(charges_text(charges)),
        lacks(charges_text(charges), 'A'),
        token_head(" Charges="@, charges_key()),
        forall|p: int|
            0 <= p < charges_text(charges).len() && #[trigger] charges_text(charges)[p] == 'C'
                ==> p == 1 && charges_text(charges)[2] == 'h',
        match charges {
            Some(c) => has_at(charges_text(charges), " Charges="@, 0) && has_at(
                charges_text(charges),
                decimal(c),
                9,
            ) && charges_text(charges).len() == 9 + decimal(c).len(),
            None => charges_text(charges).len() == 0,
        },
{
    reveal_strlit(" Charges=");
    reveal_strlit("Charges");
    let head = " Charges="@;
    assert(head.subrange(1, 8) =~= "Charges"@);
    if let Some(c) = charges {
        lemma_decimal_text(c);
        let d = decimal(c);
        let x = charges_text(charges);
        assert(x.subrange(0, 9) =~= head);
        assert(x.subrange(9, 9 + d.len() as int) =~= d);
        assert forall|p: int| 0 <= p < x.len() implies (#[trigger] x[p]) != '{' && x[p] != '}'
            && x[p] != ',' && x[p] != 'A' && (x[p] == 'C' ==> p == 1 && x[2] == 'h') by {
            if p >= 9 {
                assert(x[p] == d[p - 9]);
                assert(is_digit(d[p - 9]));
            }
        }
    }
}

/// The attributes of an item are read back from their text, and nothing in
/// that text is taken for the start of `Content=`.
pub proof fn lemma_header(amount: Option<int>, charges: Option<int>, tail: Seq<char>)
    requires
        readable_option(amount),
        readable_option(charges),
        header_tail(tail),
    ensures
        attribute_value(header(amount, charges, tail), amount_key()) == amount,
        attribute_value(header(amount, charges, tail), charges_key()) == charges,
        plain(header(amount, charges, tail)),
        header(amount, charges, tail).len() > 0 ==> header(amount, charges, tail)[0] == ' ',
        forall|p: int|
            0 <= p < header(amount, charges, tail).len() && #[trigger] header(
                amount,
                charges,
                tail,
            )[p] == 'C' ==> p + 1 < header(amount, charges, tail).len() && header(
                amount,
                charges,
                tail,
            )[p + 1] == 'h',
{
    let a = amount_text(amount);
    let c = charges_text(charges);
    let x = header(amount, charges, tail);
    lemma_amount_text(amount);
    lemma_charges_text(charges);
    reveal_strlit("Amount");
    reveal_strlit("Charges");
    reveal_strlit(" Amount=");
    reveal_strlit(" Charges=");
    assert forall|p: int| 0 <= p < x.len() implies (#[trigger] x[p]) != '{' && x[p] != '}' && x[p]
        != ',' && (x[p] == 'C' ==> p + 1 < x.len() && x[p + 1] == 'h') && (p < a.len() ==> x[p]
        == a[p]) && (a.len() <= p < a.len() + c.len() ==> x[p] == c[p - a.len()]) && (p >= a.len()
        + c.len() ==> x[p] == ' ') by {
        if p < a.len() {
            assert(x[p] == a[p]);
        } else if p < a.len() + c.len() {
            assert(x[p] == c[p - a.len()]);
            if x[p] == 'C' {
                assert(p - a.len() == 1);
                assert(x[p + 1] == c[2]);
            }
        } else {
            assert(x[p] == tail[p - a.len() - c.len()]);
        }
    }
    if x.len() > 0 {
        if a.len() > 0 {
            lemma_has_at_index(a, " Amount="@, 0, 0);
        } else if c.len() > 0 {
            lemma_has_at_index(c, " Charges="@, 0, 0);
        }
        assert(x[0] == ' ');
    }
    // Amount
    match amount {
        Some(v) => {
            let d = decimal(v);
            lemma_decimal_text(v);
            assert(has_at(x, a, 0)) by {
                assert(x.subrange(0, a.len() as int) =~= a);
            }
            lemma_has_at_inner(x, a, 0, " Amount="@, 0);
            lemma_has_at_inner(x, a, 0, d, 8);
            if 8 + d.len() < x.len() {
                assert(x[8 + d.len() as int] == ' ') by {
                    if c.len() > 0 {
                        lemma_has_at_index(c, " Charges="@, 0, 0);
                        assert(x[a.len() as int] == c[0]);
                    }
                }
                assert(!is_digit(' '));
            }
            lemma_token(x, amount_key(), " Amount="@, 0, v);
            assert(x[0] != 'A');
            lemma_no_token_before(x, amount_key(), 1);
            lemma_attribute_first(x, amount_key(), 0, 1);
        },
        None => {
            assert forall|p: int| 0 <= p < x.len() implies (#[trigger] x[p]) != 'A' by {
                if p < c.len() {
                    assert(x[p] == c[p]);
                }
            }
            lemma_no_token_before(x, amount_key(), x.len() as int);
            lemma_attribute_none(x, amount_key(), 0);
        },
    }
    // Charges
    match charges {
        Some(v) => {
            let d = decimal(v);
            let k = a.len() as int;
            lemma_decimal_text(v);
            assert(has_at(x, c, k)) by {
                assert(x.subrange(k, k + c.len()) =~= c);
            }
            lemma_has_at_inner(x, c, k, " Charges="@, 0);
            lemma_has_at_inner(x, c, k, d, 9);
            if k + 9 + d.len() < x.len() {
                assert(x[k + 9 + d.len()] == ' ');
                assert(!is_digit(' '));
            }
            lemma_token(x, charges_key(), " Charges="@, k, v);
            assert forall|p: int| 0 <= p < k + 1 implies (#[trigger] x[p]) != 'C' by {
                if p < k {
                    assert(x[p] == a[p]);
                } else {
                    lemma_has_at_index(c, " Charges="@, 0, 0);
                    assert(x[p] == c[0]);
                }
            }
            lemma_no_token_before(x, charges_key(), k + 1);
            lemma_attribute_first(x, charges_key(), 0, k + 1);
        },
        None => {
            assert forall|p: int| 0 <= p < x.len() implies (#[trigger] x[p]) != 'C' by {
                if p < a.len() {
                    assert(x[p] == a[p]);
                }
            }
            lemma_no_token_before(x, charges_key(), x.len() as int);
            lemma_attribute_none(x, charges_key(), 0);
        },
    }
}

/// A text without braces and commas is sealed.
pub proof fn lemma_plain_sealed(x: Seq<char>)
    requires
        plain(x),
    ensures
        sealed(x),
{
    lemma_braceless_balance(x);
}

pub proof fn lemma_plain_concat(a: Seq<char>, b: Seq<char>)
    requires
        plain(a),
        plain(b),
    ensures
        plain(a + b),
{
    assert forall|p: int| 0 <= p < (a + b).len() implies (#[trigger] (a + b)[p]) != '{' && (a
        + b)[p] != '}' && (a + b)[p] != ',' by {
        if p < a.len() {
            assert((a + b)[p] == a[p]);
        } else {
            assert((a + b)[p] == b[p - a.len()]);
        }
    }
}

/// The part of the text of an item that comes before its contents: the
/// type id and the attributes.
pub open spec fn item_head(t: ItemModel) -> Seq<char> {
    decimal(t.type_id) + amount_text(t.amount) + charges_text(t.charges)
}

/// The text of an item is sealed and starts with a digit; the text of a
/// list of items is balanced.
pub proof fn lemma_item_text_sealed(t: ItemModel)
    requires
        readable_item(t),
    ensures
        sealed(item_text(t)),
        plain(item_head(t)),
        item_text(t).len() > 0,
        is_digit(item_text(t)[0]),
    decreases t, 0int,
{
    lemma_decimal_text(t.type_id);
    lemma_header(t.amount, t.charges, Seq::empty());
    let d = decimal(t.type_id);
    let h = header(t.amount, t.charges, Seq::empty());
    assert(h =~= amount_text(t.amount) + charges_text(t.charges));
    lemma_plain_concat(d, h);
    let head = item_head(t);
    assert(head =~= d + h);
    assert(item_text(t)[0] == d[0]);
    if t.contents.len() == 0 {
        assert(item_text(t) =~= head);
        lemma_plain_sealed(head);
    } else {
        let j = items_text(t.contents, t.contents.len() as int);
        lemma_items_text_balanced(t.contents, t.contents.len() as int);
        reveal_strlit(" Content={");
        reveal_strlit("}");
        let intro = " Content={"@.take(9);
        assert(plain(intro));
        lemma_plain_concat(head, intro);
        lemma_sealed_block(j);
        lemma_sealed_after_plain(head + intro, seq!['{'] + j + seq!['}']);
        assert(item_text(t) =~= (head + intro) + (seq!['{'] + j + seq!['}']));
    }
}

pub proof fn lemma_items_text_balanced(ts: Seq<ItemModel>, n: int)
    requires
        readable_items(ts),
        0 <= n <= ts.len(),
    ensures
        balanced(items_text(ts, n)),
    decreases ts, n,
{
    if n == 0 {
        lemma_braceless_balance(items_text(ts, n));
    } else if n == 1 {
        lemma_item_text_sealed(ts[0]);
    } else {
        lemma_items_text_balanced(ts, n - 1);
        lemma_item_text_sealed(ts[n - 1]);
        reveal_strlit(", ");
        lemma_braceless_balance(", "@);
        lemma_balanced_concat(items_text(ts, n - 1), ", "@);
        lemma_balanced_concat(items_text(ts, n - 1) + ", "@, item_text(ts[n - 1]));
    }
}

/// What may stand before the text of an item inside a list: nothing, or
/// the space behind a comma.
pub open spec fn item_lead(lead: Seq<char>) -> bool {
    lead.len() == 0 || lead == seq![' ']
}

/// Where the piece of item `k` starts in the text of a list: at the start,
/// or behind the comma that follows item `k - 1`.
pub open spec fn piece_start(ts: Seq<ItemModel>, k: int) -> int {
    if k == 0 {
        0
    } else {
        items_text(ts, k).len() as int + 1
    }
}

/// The piece of item `k` in the text of a list: the text of the item,
/// behind a space unless it is the first.
pub open spec fn piece(ts: Seq<ItemModel>, k: int) -> Seq<char> {
    if k == 0 {
        item_text(ts[0])
    } else {
        seq![' '] + item_text(ts[k])
    }
}

/// Where the pieces and the commas stand in the text of a list.
pub proof fn lemma_items_layout(ts: Seq<ItemModel>, k: int, n: int)
    requires
        0 <= k < n <= ts.len(),
    ensures
        has_at(items_text(ts, n), piece(ts, k), piece_start(ts, k)),
        piece_start(ts, k) + piece(ts, k).len() == items_text(ts, k + 1).len(),
        items_text(ts, k + 1).len() <= items_text(ts, n).len(),
        k + 1 < n ==> items_text(ts, k + 1).len() < items_text(ts, n).len() && items_text(ts, n)[items_text(
            ts,
            k + 1,
        ).len() as int] == ',',
    decreases n,
{
    reveal_strlit(", ");
    let j = items_text(ts, n);
    if n == 1 {
        assert(j.subrange(0, j.len() as int) =~= j);
    } else {
        let before = items_text(ts, n - 1);
        let last = item_text(ts[n - 1]);
        assert(j == before + ", "@ + last);
        if k == n - 1 {
            let at = before.len() as int + 1;
            assert(j.subrange(at, at + piece(ts, k).len()) =~= piece(ts, k));
        } else {
            lemma_items_layout(ts, k, n - 1);
            assert(has_at(j, before, 0)) by {
                assert(j.subrange(0, before.len() as int) =~= before);
            }
            lemma_has_at_inner(j, before, 0, piece(ts, k), piece_start(ts, k));
            if k + 1 < n - 1 {
                assert(j[items_text(ts, k + 1).len() as int] == before[items_text(
                    ts,
                    k + 1,
                ).len() as int]);
            } else {
                assert(j[before.len() as int] == ", "@[0]);
            }
        }
    }
}

/// The `C` of a header is never the start of the `Content=` marker.
pub open spec fn no_marker_start(x: Seq<char>) -> bool {
    forall|p: int|
        0 <= p < x.len() && #[trigger] x[p] == 'C' ==> p + 1 < x.len() && x[p + 1] == 'h'
}

/// Spaces, then a number, then something that is no digit: the number is
/// what is read first.
proof fn lemma_leading_number(s: Seq<char>, lead: Seq<char>, v: int)
    requires
        item_lead(lead),
        readable(v),
        has_at(s, lead, 0),
        has_at(s, decimal(v), lead.len() as int),
        lead.len() + decimal(v).len() < s.len() ==> s[lead.len() as int + decimal(v).len()]
            == ' ',
    ensures
        skip_spaces(s, 0) == lead.len(),
        digits_end(s, lead.len() as int) == lead.len() + decimal(v).len(),
        digits_value(s.subrange(lead.len() as int, lead.len() as int + decimal(v).len())) == v,
{
    let d = decimal(v);
    let start = lead.len() as int;
    let end = start + d.len();
    lemma_decimal_text(v);
    assert forall|k: int| 0 <= k < start implies is_space(#[trigger] s[k]) by {
        lemma_has_at_index(s, lead, 0, k);
        assert(lead[k] == ' ');
    }
    assert(!is_space(s[start])) by {
        lemma_has_at_index(s, d, start, 0);
        assert(is_digit(d[0]));
    }
    lemma_spaces_run(s, 0, start);
    assert forall|k: int| start <= k < end implies is_digit(#[trigger] s[k]) by {
        lemma_has_at_index(s, d, start, k - start);
        assert(is_digit(d[k - start]));
    }
    assert(!is_digit(' '));
    lemma_digits_run(s, start, end);
}

/// The marker stands nowhere inside a header.
proof fn lemma_no_marker_in_header(s: Seq<char>, x: Seq<char>, end: int)
    requires
        has_at(s, x, end),
        no_marker_start(x),
    ensures
        forall|p: int| end <= p < end + x.len() ==> !has_at(s, content_key(), p),
{
    reveal_strlit("Content=");
    assert forall|p: int| end <= p < end + x.len() implies !has_at(s, content_key(), p) by {
        if has_at(s, content_key(), p) {
            assert(s.subrange(p, p + 8)[0] == s[p]);
            assert(s.subrange(p, p + 8)[1] == s[p + 1]);
            lemma_has_at_index(s, x, end, p - end);
            assert(x[p - end] == 'C');
            lemma_has_at_index(s, x, end, p - end + 1);
        }
    }
}

/// An item without contents: its text has no marker and no block.
proof fn lemma_no_block(s: Seq<char>, x: Seq<char>, end: int)
    requires
        has_at(s, x, end),
        no_marker_start(x),
        s.len() == end + x.len(),
    ensures
        attributes_end(s, end) == s.len(),
        s.subrange(end, s.len() as int) == x,
        content_block(s, end) == Ok::<Option<(int, int)>, crate::error::ItemError>(None),
{
    reveal_strlit("Content=");
    lemma_no_marker_in_header(s, x, end);
    assert forall|p: int| end <= p implies !has_at(s, content_key(), p) by {
        if p >= end + x.len() {
            assert(p + 8 > s.len());
        }
    }
    lemma_find_none(s, content_key(), end);
}

/// An item with contents: the marker is found behind the header, and the
/// block behind it ends at the brace that follows the text of the contents.
proof fn lemma_block(s: Seq<char>, x: Seq<char>, end: int, j: Seq<char>)
    requires
        has_at(s, x, end),
        no_marker_start(x),
        has_at(s, "Content={"@, end + x.len()),
        has_at(s, j, end + x.len() + 9),
        balanced(j),
        s.len() == end + x.len() + 9 + j.len() + 1,
        s[end + x.len() + 9 + j.len()] == '}',
    ensures
        attributes_end(s, end) == end + x.len(),
        s.subrange(end, end + x.len()) == x,
        content_block(s, end) == Ok::<Option<(int, int)>, crate::error::ItemError>(
            Some((end + x.len() + 9, end + x.len() + 9 + j.len())),
        ),
        s.subrange(end + x.len() + 9, end + x.len() + 9 + j.len()) == j,
{
    reveal_strlit("Content=");
    reveal_strlit("Content={");
    let marker = end + x.len();
    lemma_no_marker_in_header(s, x, end);
    assert(has_at("Content={"@, content_key(), 0)) by {
        assert("Content={"@.subrange(0, 8) =~= content_key());
    }
    lemma_has_at_inner(s, "Content={"@, marker, content_key(), 0);
    lemma_find_first(s, content_key(), end, marker);
    let open = marker + 8;
    lemma_has_at_index(s, "Content={"@, marker, 8);
    assert(s[open] == '{');
    assert(!is_space('{'));
    assert(skip_spaces(s, marker + content_key().len()) == open);
    lemma_closing_over(s, open + 1, j, 1);
    let close = open + 1 + j.len();
    assert(closing_from(s, close, 1) == Some(close));
    assert(closing_brace(s, open + 1) == Some(close));
}

/// How the text of an item is laid out behind a lead.
proof fn lemma_item_layout(t: ItemModel, lead: Seq<char>, tail: Seq<char>)
    requires
        readable_item(t),
        item_lead(lead),
        tail == (if t.contents.len() == 0 {
            Seq::<char>::empty()
        } else {
            seq![' ']
        }),
    ensures
        ({
            let s = lead + item_text(t);
            let end = lead.len() as int + decimal(t.type_id).len();
            let x = header(t.amount, t.charges, tail);
            let j = items_text(t.contents, t.contents.len() as int);
            &&& has_at(s, lead, 0)
            &&& has_at(s, decimal(t.type_id), lead.len() as int)
            &&& has_at(s, x, end)
            &&& t.contents.len() == 0 ==> s.len() == end + x.len()
            &&& t.contents.len() > 0 ==> {
                &&& has_at(s, "Content={"@, end + x.len())
                &&& has_at(s, j, end + x.len() + 9)
                &&& s.len() == end + x.len() + 9 + j.len() + 1
                &&& s[end + x.len() + 9 + j.len()] == '}'
            }
        }),
{
    reveal_strlit(" Content={");
    reveal_strlit("Content={");
    reveal_strlit("}");
    let s = lead + item_text(t);
    let d = decimal(t.type_id);
    let end = lead.len() as int + d.len();
    let x = header(t.amount, t.charges, tail);
    let j = items_text(t.contents, t.contents.len() as int);
    assert(s.subrange(0, lead.len() as int) =~= lead);
    assert(s.subrange(lead.len() as int, end) =~= d);
    if t.contents.len() == 0 {
        assert(s =~= lead + d + x);
        assert(s.subrange(end, end + x.len()) =~= x);
    } else {
        let block = "Content={"@ + j + "}"@;
        assert(" Content={"@ =~= seq![' '] + "Content={"@);
        assert(s =~= lead + d + x + block);
        assert(s.subrange(end, end + x.len()) =~= x);
        assert(s.subrange(end + x.len(), end + x.len() + 9) =~= "Content={"@);
        assert(s.subrange(end + x.len() + 9, end + x.len() + 9 + j.len()) =~= j);
    }
}

/// The text of a readable item, behind a space or not, denotes the item.
pub proof fn lemma_read_item(t: ItemModel, lead: Seq<char>)
    requires
        readable_item(t),
        item_lead(lead),
    ensures
        parse_item_spec(lead + item_text(t)) == Ok::<ItemModel, crate::error::ItemError>(t),
    decreases t, 1int,
{
    let s = lead + item_text(t);
    let d = decimal(t.type_id);
    let end = lead.len() as int + d.len();
    let tail: Seq<char> = if t.contents.len() == 0 {
        Seq::empty()
    } else {
        seq![' ']
    };
    let x = header(t.amount, t.charges, tail);
    let j = items_text(t.contents, t.contents.len() as int);
    lemma_item_layout(t, lead, tail);
    lemma_header(t.amount, t.charges, tail);
    reveal_strlit("Content={");
    if end < s.len() {
        if x.len() > 0 {
            lemma_has_at_index(s, x, end, 0);
        } else {
            lemma_has_at_index(s, "Content={"@, end, 0);
        }
    }
    lemma_leading_number(s, lead, t.type_id);
    if t.contents.len() == 0 {
        lemma_no_block(s, x, end);
        assert(t.contents =~= Seq::<ItemModel>::empty());
    } else {
        lemma_items_text_balanced(t.contents, t.contents.len() as int);
        lemma_block(s, x, end, j);
        lemma_read_items(t.contents, 0);
        assert(t.contents.skip(0) =~= t.contents);
    }
}

/// The text of a list of readable items denotes the items, from each piece
/// on.
pub proof fn lemma_read_items(ts: Seq<ItemModel>, k: int)
    requires
        readable_items(ts),
        0 <= k < ts.len(),
    ensures
        parse_items_spec(items_text(ts, ts.len() as int), piece_start(ts, k)) == Ok::<
            Seq<ItemModel>,
            crate::error::ItemError,
        >(ts.skip(k)),
    decreases ts, ts.len() - k,
{
    let n = ts.len() as int;
    let j = items_text(ts, n);
    let i = piece_start(ts, k);
    let x = piece(ts, k);
    let t = ts[k];
    let lead: Seq<char> = if k == 0 {
        Seq::empty()
    } else {
        seq![' ']
    };
    assert(x =~= lead + item_text(t));
    lemma_items_layout(ts, k, n);
    lemma_item_text_sealed(t);
    lemma_sealed_after_plain(lead, item_text(t));
    lemma_comma_over(j, i, x, 0);
    let e = i + x.len();
    assert(top_level_comma(j, i, 0) == e);
    assert(j.subrange(i, e) == x);
    // the piece is not blank
    assert(!is_blank(x)) by {
        assert(x[lead.len() as int] == item_text(t)[0]);
        assert(!is_space(x[lead.len() as int]));
        assert forall|q: int| 0 <= q < lead.len() implies is_space(#[trigger] x[q]) by {
            assert(x[q] == ' ');
        }
        lemma_spaces_run(x, 0, lead.len() as int);
    }
    lemma_read_item(t, lead);
    if k + 1 < n {
        assert(e + 1 == piece_start(ts, k + 1));
        lemma_read_items(ts, k + 1);
        assert(seq![t] + ts.skip(k + 1) =~= ts.skip(k));
    } else {
        assert(seq![t] =~= ts.skip(k));
    }
}

// ------------------------------------------------------------------ slots

/// What separates the slots of a written section.
pub open spec fn slot_separator() -> Seq<char> {
    ",\n               "@
}

/// What stands before slot `k` in the text of a section: nothing, or the
/// separator.
pub open spec fn slot_lead(k: int) -> Seq<char> {
    if k == 0 {
        Seq::empty()
    } else {
        slot_separator()
    }
}

/// Where the slots stand in the text of a section: slot `k`, behind its
/// lead, starts where the text of the first `k` slots ends.
pub proof fn lemma_slots_layout(slots: Seq<SlotModel>, k: int, n: int)
    requires
        0 <= k < n <= slots.len(),
    ensures
        has_at(
            slots_text(slots, n),
            slot_lead(k) + slot_text(slots[k]),
            slots_text(slots, k).len() as int,
        ),
        slots_text(slots, k).len() + slot_lead(k).len() + slot_text(slots[k]).len() == slots_text(
            slots,
            k + 1,
        ).len(),
        slots_text(slots, k + 1).len() <= slots_text(slots, n).len(),
    decreases n,
{
    let b = slots_text(slots, n);
    if n == 1 {
        assert(b.subrange(0, b.len() as int) =~= b);
        assert(slot_lead(0) + slot_text(slots[0]) =~= b);
    } else {
        let before = slots_text(slots, n - 1);
        let last = slot_text(slots[n - 1]);
        assert(b == before + slot_separator() + last);
        if k == n - 1 {
            let x = slot_lead(k) + slot_text(slots[k]);
            assert(b.subrange(before.len() as int, before.len() as int + x.len()) =~= x);
        } else {
            lemma_slots_layout(slots, k, n - 1);
            assert(has_at(b, before, 0)) by {
                assert(b.subrange(0, before.len() as int) =~= before);
            }
            lemma_has_at_inner(
                b,
                before,
                0,
                slot_lead(k) + slot_text(slots[k]),
                slots_text(slots, k).len() as int,
            );
        }
    }
}

/// How the text of a slot is laid out behind its lead.
proof fn lemma_slot_layout(b: Seq<char>, pos: int, lead: Seq<char>, slot: SlotModel)
    requires
        has_at(b, lead + slot_text(slot), pos),
    ensures
        ({
            let start = pos + lead.len();
            let end = start + decimal(slot.slot_number).len();
            let t = item_text(slot.item);
            &&& has_at(b, lead, pos)
            &&& has_at(b, decimal(slot.slot_number), start)
            &&& b[end] == ' '
            &&& has_at(b, "Content={"@, end + 1)
            &&& has_at(b, t, end + 10)
            &&& end + 10 + t.len() < b.len()
            &&& b[end + 10 + t.len()] == '}'
            &&& pos + lead.len() + slot_text(slot).len() == end + 10 + t.len() + 1
        }),
{
    reveal_strlit(" Content={");
    reveal_strlit("Content={");
    reveal_strlit("}");
    let x = lead + slot_text(slot);
    let d = decimal(slot.slot_number);
    let t = item_text(slot.item);
    let o = lead.len() as int;
    assert(" Content={"@ =~= seq![' '] + "Content={"@);
    assert(x =~= lead + d + seq![' '] + "Content={"@ + t + seq!['}']);
    assert(has_at(x, lead, 0)) by {
        assert(x.subrange(0, o) =~= lead);
    }
    assert(has_at(x, d, o)) by {
        assert(x.subrange(o, o + d.len()) =~= d);
    }
    assert(has_at(x, "Content={"@, o + d.len() + 1)) by {
        assert(x.subrange(o + d.len() + 1, o + d.len() + 10) =~= "Content={"@);
    }
    assert(has_at(x, t, o + d.len() + 10)) by {
        assert(x.subrange(o + d.len() + 10, o + d.len() + 10 + t.len()) =~= t);
    }
    lemma_has_at_inner(b, x, pos, lead, 0);
    lemma_has_at_inner(b, x, pos, d, o);
    lemma_has_at_inner(b, x, pos, "Content={"@, o + d.len() + 1);
    lemma_has_at_inner(b, x, pos, t, o + d.len() + 10);
    lemma_has_at_index(b, x, pos, o + d.len());
    lemma_has_at_index(b, x, pos, o + d.len() + 10 + t.len());
}

/// What is read at the place of a written slot: its number, the marker,
/// the block, and in the block the item.
proof fn lemma_read_slot(b: Seq<char>, pos: int, k: int, slot: SlotModel)
    requires
        0 <= pos,
        0 <= k,
        has_at(b, slot_lead(k) + slot_text(slot), pos),
        readable(slot.slot_number),
        readable_item(slot.item),
    ensures
        ({
            let start = skip_separators(b, pos);
            let end = digits_end(b, start);
            let marker = skip_spaces(b, end);
            let open = skip_spaces(b, marker + content_key().len());
            let close = pos + slot_lead(k).len() + slot_text(slot).len() - 1;
            &&& start < end
            &&& digits_value(b.subrange(start, end)) == slot.slot_number
            &&& has_at(b, content_key(), marker)
            &&& open < b.len()
            &&& b[open] == '{'
            &&& closing_brace(b, open + 1) == Some(close)
            &&& parse_item_spec(b.subrange(open + 1, close)) == Ok::<
                ItemModel,
                crate::error::ItemError,
            >(slot.item)
        }),
{
    reveal_strlit(",\n               ");
    reveal_strlit("Content={");
    reveal_strlit("Content=");
    let lead = slot_lead(k);
    let d = decimal(slot.slot_number);
    let t = item_text(slot.item);
    let start = pos + lead.len();
    let end = start + d.len();
    lemma_slot_layout(b, pos, lead, slot);
    lemma_decimal_text(slot.slot_number);
    lemma_item_text_sealed(slot.item);
    // the separator, then the number
    assert forall|q: int| pos <= q < start implies is_separator(#[trigger] b[q]) by {
        lemma_has_at_index(b, lead, pos, q - pos);
    }
    lemma_has_at_index(b, d, start, 0);
    assert(is_digit(d[0]));
    assert(!is_separator(b[start]));
    lemma_separators_run(b, pos, start);
    assert forall|q: int| start <= q < end implies is_digit(#[trigger] b[q]) by {
        lemma_has_at_index(b, d, start, q - start);
        assert(is_digit(d[q - start]));
    }
    assert(!is_digit(' '));
    lemma_digits_run(b, start, end);
    assert(b.subrange(start, end) == d);
    // one space, then the marker and the brace
    lemma_has_at_index(b, "Content={"@, end + 1, 0);
    assert(is_space(' '));
    assert(!is_space('C'));
    assert forall|q: int| end <= q < end + 1 implies is_space(#[trigger] b[q]) by {}
    lemma_spaces_run(b, end, end + 1);
    assert(has_at("Content={"@, content_key(), 0)) by {
        assert("Content={"@.subrange(0, 8) =~= content_key());
    }
    lemma_has_at_inner(b, "Content={"@, end + 1, content_key(), 0);
    lemma_has_at_index(b, "Content={"@, end + 1, 8);
    assert(!is_space('{'));
    assert(skip_spaces(b, end + 9) == end + 9);
    // the block
    lemma_closing_over(b, end + 10, t, 1);
    let close = end + 10 + t.len();
    assert(closing_from(b, close, 1) == Some(close));
    assert(b.subrange(end + 10, close) == t);
    lemma_read_item(slot.item, Seq::empty());
    assert(Seq::<char>::empty() + t =~= t);
}

/// The text of the slots of a section denotes the slots, from each slot on.
pub proof fn lemma_read_slots(slots: Seq<SlotModel>, k: int)
    requires
        readable_slots(slots),
        0 <= k <= slots.len(),
    ensures
        parse_slots_spec(
            slots_text(slots, slots.len() as int),
            slots_text(slots, k).len() as int,
        ) == Ok::<Seq<SlotModel>, crate::error::DemonaxError>(slots.skip(k)),
    decreases slots.len() - k,
{
    let n = slots.len() as int;
    let b = slots_text(slots, n);
    let pos = slots_text(slots, k).len() as int;
    if k == n {
        assert(skip_separators(b, pos) == pos);
        assert(digits_end(b, pos) == pos);
        assert(slots.skip(k) =~= Seq::<SlotModel>::empty());
    } else {
        let slot = slots[k];
        lemma_slots_layout(slots, k, n);
        lemma_read_slot(b, pos, k, slot);
        lemma_read_slots(slots, k + 1);
        assert(seq![slot] + slots.skip(k + 1) =~= slots.skip(k));
        assert(slot == SlotModel { slot_number: slot.slot_number, item: slot.item });
    }
}

// ------------------------------------------------- what is read is readable

/// A run of digits is worth a number that is not negative.
proof fn lemma_run_value(s: Seq<char>, from: int)
    requires
        0 <= from <= s.len(),
    ensures
        digits_value(s.subrange(from, digits_end(s, from))) >= 0,
        all_digits(s.subrange(from, digits_end(s, from))),
{
    lemma_digits_end_bounds(s, from);
    let run = s.subrange(from, digits_end(s, from));
    assert(all_digits(run));
    lemma_digits_value_prefix(run, run.len() as int);
}

/// The digits that an attribute token is found with are a run of digits
/// inside the text.
proof fn lemma_found_attribute(t: Seq<char>, key: Seq<char>, i: int)
    requires
        0 <= i,
    ensures
        find_attribute(t, key, i) matches Some((from, to)) ==> 0 <= from <= t.len() && to
            == digits_end(t, from),
    decreases t.len() - i,
{
    if i < t.len() {
        if attribute_at(t, key, i).is_some() {
            lemma_skip_spaces_bounds(t, i + key.len());
            let eq = skip_spaces(t, i + key.len());
            lemma_skip_spaces_bounds(t, eq + 1);
        } else {
            lemma_found_attribute(t, key, i + 1);
        }
    }
}

/// An attribute that was read has a readable value.
proof fn lemma_attribute_readable(t: Seq<char>, key: Seq<char>)
    ensures
        readable_option(attribute_value(t, key)),
{
    lemma_found_attribute(t, key, 0);
    if let Some((from, to)) = find_attribute(t, key, 0) {
        lemma_run_value(t, from);
    }
}

/// An item that was read from text can be read back from its own text.
pub proof fn lemma_parsed_item_readable(s: Seq<char>)
    ensures
        parse_item_spec(s) matches Ok(t) ==> readable_item(t),
    decreases s.len(), 0int,
{
    if let Ok(t) = parse_item_spec(s) {
        let start = skip_spaces(s, 0);
        let end = digits_end(s, start);
        lemma_skip_spaces_bounds(s, 0);
        lemma_digits_end_bounds(s, start);
        lemma_run_value(s, start);
        lemma_content_block_bounds(s, end);
        let attributes = s.subrange(end, attributes_end(s, end));
        lemma_attribute_readable(attributes, amount_key());
        lemma_attribute_readable(attributes, charges_key());
        match content_block(s, end) {
            Ok(Some((from, to))) => {
                lemma_parsed_items_readable(s.subrange(from, to), 0);
            },
            _ => {},
        }
    }
}

/// Items that were read from text can be read back from their own text.
pub proof fn lemma_parsed_items_readable(t: Seq<char>, i: int)
    ensures
        parse_items_spec(t, i) matches Ok(items) ==> readable_items(items),
    decreases t.len(), 1 + t.len() - i,
{
    if 0 <= i <= t.len() {
        if let Ok(items) = parse_items_spec(t, i) {
            lemma_top_level_comma_bounds(t, i, 0);
            let comma = top_level_comma(t, i, 0);
            let piece = t.subrange(i, comma);
            if !is_blank(piece) {
                lemma_parsed_item_readable(piece);
            }
            if comma < t.len() {
                lemma_parsed_items_readable(t, comma + 1);
            }
        }
    }
}

/// Slots that were read from text can be read back from their own text.
pub proof fn lemma_parsed_slots_readable(s: Seq<char>, i: int)
    ensures
        parse_slots_spec(s, i) matches Ok(slots) ==> readable_slots(slots),
    decreases s.len() - i,
{
    if 0 <= i <= s.len() {
        if let Ok(slots) = parse_slots_spec(s, i) {
            let start = skip_separators(s, i);
            let end = digits_end(s, start);
            if start != end {
                lemma_slot_bounds(s, i);
                lemma_run_value(s, start);
                let marker = skip_spaces(s, end);
                let open = skip_spaces(s, marker + content_key().len());
                let close = closing_brace(s, open + 1).unwrap();
                lemma_parsed_item_readable(s.subrange(open + 1, close));
                lemma_parsed_slots_readable(s, close + 1);
            }
        }
    } else if i > s.len() {
        assert(skip_separators(s, i) == i);
        assert(digits_end(s, i) == i);
    }
}

} // verus!
