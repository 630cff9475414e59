//! The inventory micro-language, as functions on `Seq<char>`.
//!
//! ```text
//! section := slot ("," slot)*
//! slot    := number "Content=" "{" item "}"
//! item    := number attribute* ["Content=" "{" item ("," item)* "}"]
//! ```
//!
//! Whitespace may surround every token. An item's `Amount=` and `Charges=`
//! attributes are looked up in the text between its type id and its
//! `Content=` marker, so an attribute of a nested item is never taken for one
//! of its container.

use crate::braces::{brace_delta, closing_brace, lemma_closing_from_bounds};
use crate::chars::{
    digits_end, find_from, has_at, is_blank, lemma_digits_end_bounds, lemma_find_from_least,
    lemma_skip_separators_bounds, lemma_skip_spaces_bounds, skip_separators, skip_spaces,
};
use crate::decimal::{decimal, digits_value};
use crate::error::{DemonaxError, ItemError};
use vstd::prelude::*;

verus! {

/// An item as a value: what `InventoryItem` stands for.
pub struct ItemModel {
    pub type_id: int,
    pub amount: Option<int>,
    pub charges: Option<int>,
    pub contents: Seq<ItemModel>,
}

/// A slot as a value: what `InventorySlot` stands for.
pub struct SlotModel {
    pub slot_number: int,
    pub item: ItemModel,
}

pub open spec fn content_key() -> Seq<char> {
    "Content="@
}

pub open spec fn amount_key() -> Seq<char> {
    "Amount"@
}

pub open spec fn charges_key() -> Seq<char> {
    "Charges"@
}

// ---------------------------------------------------------------- reading

/// The digits of the attribute token that starts at `i`: the key, `=`, then
/// at least one digit, with optional whitespace around the `=`.
pub open spec fn attribute_at(t: Seq<char>, key: Seq<char>, i: int) -> Option<(int, int)> {
    if has_at(t, key, i) {
        let eq = skip_spaces(t, i + key.len());
        if eq < t.len() && t[eq] == '=' {
            let from = skip_spaces(t, eq + 1);
            let to = digits_end(t, from);
            if from < to {
                Some((from, to))
            } else {
                None
            }
        } else {
            None
        }
    } else {
        None
    }
}

/// The digits of the first attribute token for `key` at or after `i`.
pub open spec fn find_attribute(t: Seq<char>, key: Seq<char>, i: int) -> Option<(int, int)>
    decreases t.len() - i,
{
    if i < 0 || i >= t.len() {
        None
    } else if attribute_at(t, key, i).is_some() {
        attribute_at(t, key, i)
    } else {
        find_attribute(t, key, i + 1)
    }
}

/// The value of the first attribute token for `key` in `t`; `None` where
/// there is no such token or its number does not fit an `i32`.
pub open spec fn attribute_value(t: Seq<char>, key: Seq<char>) -> Option<int> {
    match find_attribute(t, key, 0) {
        Some((from, to)) => if digits_value(t.subrange(from, to)) <= i32::MAX {
            Some(digits_value(t.subrange(from, to)))
        } else {
            None
        },
        None => None,
    }
}

/// Where the attributes of an item end: at its `Content=` marker, or at the
/// end of the text.
pub open spec fn attributes_end(s: Seq<char>, from: int) -> int {
    match find_from(s, content_key(), from) {
        Some(p) => p,
        None => s.len() as int,
    }
}

/// The span of the nested content of an item whose type id ends at `from`:
/// the text between the `{` after the first `Content=` and its closing brace.
pub open spec fn content_block(s: Seq<char>, from: int) -> Result<Option<(int, int)>, ItemError> {
    match find_from(s, content_key(), from) {
        None => Ok(None),
        Some(p) => {
            let open = skip_spaces(s, p + content_key().len());
            if open < s.len() && s[open] == '{' {
                match closing_brace(s, open + 1) {
                    Some(close) => Ok(Some((open + 1, close))),
                    None => Err(ItemError::UnbalancedBraces),
                }
            } else {
                Ok(None)
            }
        },
    }
}

/// The position of the first comma at or after `i` that stands outside all
/// braces, `depth` being the brace depth at `i`; `t.len()` where there is none.
pub open spec fn top_level_comma(t: Seq<char>, i: int, depth: int) -> int
    decreases t.len() - i,
{
    if i < 0 || i >= t.len() {
        t.len() as int
    } else if t[i] == ',' && depth == 0 {
        i
    } else {
        top_level_comma(t, i + 1, depth + brace_delta(t[i]))
    }
}

/// The item that the text `s` denotes.
pub open spec fn parse_item_spec(s: Seq<char>) -> Result<ItemModel, ItemError>
    decreases s.len(), 0int,
    via parse_item_decreases
{
    let start = skip_spaces(s, 0);
    let end = digits_end(s, start);
    if start == end {
        Err(ItemError::MissingTypeId)
    } else if digits_value(s.subrange(start, end)) > i32::MAX {
        Err(ItemError::TypeIdOutOfRange)
    } else {
        let attributes = s.subrange(end, attributes_end(s, end));
        match content_block(s, end) {
            Err(e) => Err(e),
            Ok(block) => {
                let contents = match block {
                    Some((from, to)) => parse_items_spec(s.subrange(from, to), 0),
                    None => Ok(Seq::empty()),
                };
                match contents {
                    Err(e) => Err(e),
                    Ok(items) => Ok(
                        ItemModel {
                            type_id: digits_value(s.subrange(start, end)),
                            amount: attribute_value(attributes, amount_key()),
                            charges: attribute_value(attributes, charges_key()),
                            contents: items,
                        },
                    ),
                }
            },
        }
    }
}

/// The items that the text `t` denotes from position `i` on, where `i` is the
/// start of `t` or follows a top-level comma. Blank pieces are passed over.
pub open spec fn parse_items_spec(t: Seq<char>, i: int) -> Result<Seq<ItemModel>, ItemError>
    decreases t.len(), 1 + t.len() - i,
    via parse_items_decreases
{
    if i < 0 || i > t.len() {
        Ok(Seq::empty())
    } else {
        let comma = top_level_comma(t, i, 0);
        let piece = t.subrange(i, comma);
        let head = if is_blank(piece) {
            Ok(Seq::empty())
        } else {
            match parse_item_spec(piece) {
                Ok(item) => Ok(seq![item]),
                Err(e) => Err(e),
            }
        };
        match head {
            Err(e) => Err(e),
            Ok(first) => if comma >= t.len() {
                Ok(first)
            } else {
                match parse_items_spec(t, comma + 1) {
                    Ok(rest) => Ok(first + rest),
                    Err(e) => Err(e),
                }
            },
        }
    }
}

pub proof fn lemma_top_level_comma_bounds(t: Seq<char>, i: int, depth: int)
    requires
        0 <= i <= t.len(),
    ensures
        i <= top_level_comma(t, i, depth) <= t.len(),
        top_level_comma(t, i, depth) < t.len() ==> t[top_level_comma(t, i, depth)] == ',',
    decreases t.len() - i,
{
    if i < t.len() && !(t[i] == ',' && depth == 0) {
        lemma_top_level_comma_bounds(t, i + 1, depth + brace_delta(t[i]));
    }
}

/// The nested content of an item lies strictly inside the item's text.
pub proof fn lemma_content_block_bounds(s: Seq<char>, from: int)
    requires
        0 <= from <= s.len(),
    ensures
        content_block(s, from) matches Ok(Some((a, b))) ==> from < a <= b < s.len() && s[a - 1]
            == '{' && s[b] == '}',
        from <= attributes_end(s, from) <= s.len(),
{
    lemma_find_from_least(s, content_key(), from);
    if let Some(p) = find_from(s, content_key(), from) {
        lemma_skip_spaces_bounds(s, p + content_key().len());
        let open = skip_spaces(s, p + content_key().len());
        if open < s.len() {
            lemma_closing_from_bounds(s, open + 1, 1);
        }
    }
}

#[via_fn]
proof fn parse_item_decreases(s: Seq<char>) {
    let start = skip_spaces(s, 0);
    lemma_skip_spaces_bounds(s, 0);
    lemma_digits_end_bounds(s, start);
    lemma_content_block_bounds(s, digits_end(s, start));
}

#[via_fn]
proof fn parse_items_decreases(t: Seq<char>, i: int) {
    if 0 <= i <= t.len() {
        lemma_top_level_comma_bounds(t, i, 0);
    }
}

/// The slots that the text `s` denotes from position `i` on. Reading ends
/// without an error at the first place where no slot number stands.
pub open spec fn parse_slots_spec(s: Seq<char>, i: int) -> Result<Seq<SlotModel>, DemonaxError>
    decreases s.len() - i,
    via parse_slots_decreases
{
    let start = skip_separators(s, i);
    let end = digits_end(s, start);
    if i < 0 || start == end {
        Ok(Seq::empty())
    } else if digits_value(s.subrange(start, end)) > i32::MAX {
        Err(DemonaxError::SlotOutOfRange)
    } else {
        let slot = digits_value(s.subrange(start, end));
        let marker = skip_spaces(s, end);
        let open = skip_spaces(s, marker + content_key().len());
        if !has_at(s, content_key(), marker) || !(open < s.len() && s[open] == '{') {
            Err(DemonaxError::MissingContent { slot: slot as i32 })
        } else {
            match closing_brace(s, open + 1) {
                None => Err(DemonaxError::UnbalancedSlot { slot: slot as i32 }),
                Some(close) => match parse_item_spec(s.subrange(open + 1, close)) {
                    Err(e) => Err(DemonaxError::Item { slot: slot as i32, error: e }),
                    Ok(item) => match parse_slots_spec(s, close + 1) {
                        Err(e) => Err(e),
                        Ok(rest) => Ok(seq![SlotModel { slot_number: slot, item }] + rest),
                    },
                },
            }
        }
    }
}

/// The closing brace of a slot lies behind its slot number.
pub proof fn lemma_slot_bounds(s: Seq<char>, i: int)
    requires
        0 <= i <= s.len(),
    ensures
        ({
            let start = skip_separators(s, i);
            let end = digits_end(s, start);
            let marker = skip_spaces(s, end);
            let open = skip_spaces(s, marker + content_key().len());
            &&& i <= start <= end <= marker <= s.len()
            &&& has_at(s, content_key(), marker) ==> marker + content_key().len() <= open
                <= s.len()
            &&& has_at(s, content_key(), marker) ==> (closing_brace(s, open + 1) matches Some(
                close,
            ) ==> open < close < s.len())
        }),
{
    lemma_skip_separators_bounds(s, i);
    let start = skip_separators(s, i);
    lemma_digits_end_bounds(s, start);
    let end = digits_end(s, start);
    lemma_skip_spaces_bounds(s, end);
    let marker = skip_spaces(s, end);
    if has_at(s, content_key(), marker) {
        lemma_skip_spaces_bounds(s, marker + content_key().len());
        let open = skip_spaces(s, marker + content_key().len());
        lemma_closing_from_bounds(s, open + 1, 1);
    }
}

#[via_fn]
proof fn parse_slots_decreases(s: Seq<char>, i: int) {
    if 0 <= i <= s.len() {
        lemma_slot_bounds(s, i);
    }
}

// -------------------------------------------------------------- rendering

pub open spec fn amount_text(amount: Option<int>) -> Seq<char> {
    match amount {
        Some(a) => " Amount="@ + decimal(a),
        None => Seq::empty(),
    }
}

pub open spec fn charges_text(charges: Option<int>) -> Seq<char> {
    match charges {
        Some(c) => " Charges="@ + decimal(c),
        None => Seq::empty(),
    }
}

/// The text of an item: type id, then amount, then charges, then the
/// contents in their order.
pub open spec fn item_text(t: ItemModel) -> Seq<char>
    decreases t,
{
    decimal(t.type_id) + amount_text(t.amount) + charges_text(t.charges) + (if t.contents.len()
        == 0 {
        Seq::empty()
    } else {
        " Content={"@ + items_text(t.contents, t.contents.len() as int) + "}"@
    })
}

/// The texts of the first `n` items of `ts`, joined by `", "`.
pub open spec fn items_text(ts: Seq<ItemModel>, n: int) -> Seq<char>
    decreases ts, n,
{
    if n <= 0 || n > ts.len() {
        Seq::empty()
    } else if n == 1 {
        item_text(ts[0])
    } else {
        items_text(ts, n - 1) + ", "@ + item_text(ts[n - 1])
    }
}

pub open spec fn slot_text(slot: SlotModel) -> Seq<char> {
    decimal(slot.slot_number) + " Content={"@ + item_text(slot.item) + "}"@
}

/// The texts of the first `n` slots of `slots`, joined by a comma, a line
/// break and the indent of fifteen spaces.
pub open spec fn slots_text(slots: Seq<SlotModel>, n: int) -> Seq<char>
    decreases n,
{
    if n <= 0 || n > slots.len() {
        Seq::empty()
    } else if n == 1 {
        slot_text(slots[0])
    } else {
        slots_text(slots, n - 1) + ",\n               "@ + slot_text(slots[n - 1])
    }
}

/// `x` put into the ascending sequence `sorted`, behind every slot whose
/// number is not greater.
pub open spec fn insert_slot(sorted: Seq<SlotModel>, x: SlotModel) -> Seq<SlotModel>
    decreases sorted.len(),
{
    if sorted.len() == 0 || sorted.last().slot_number <= x.slot_number {
        sorted.push(x)
    } else {
        insert_slot(sorted.drop_last(), x).push(sorted.last())
    }
}

/// `slots` in ascending order of slot number; slots of one number keep
/// their order.
pub open spec fn sort_slots(slots: Seq<SlotModel>) -> Seq<SlotModel>
    decreases slots.len(),
{
    if slots.len() == 0 {
        slots
    } else {
        insert_slot(sort_slots(slots.drop_last()), slots.last())
    }
}

/// The body of a section: its slots in ascending order.
pub open spec fn section_body(slots: Seq<SlotModel>) -> Seq<char> {
    slots_text(sort_slots(slots), slots.len() as int)
}

/// The text of a section, wrapper included.
pub open spec fn section_text(slots: Seq<SlotModel>) -> Seq<char> {
    "Inventory   = {"@ + section_body(slots) + "}"@
}

/// Some slot of `slots` has the number `n`.
pub open spec fn has_slot(slots: Seq<SlotModel>, n: int) -> bool {
    exists|i: int| 0 <= i < slots.len() && (#[trigger] slots[i]).slot_number == n
}

/// `slots` without the slots of number `n`.
pub open spec fn without_slot(slots: Seq<SlotModel>, n: int) -> Seq<SlotModel>
    decreases slots.len(),
{
    if slots.len() == 0 {
        slots
    } else if slots.last().slot_number == n {
        without_slot(slots.drop_last(), n)
    } else {
        without_slot(slots.drop_last(), n).push(slots.last())
    }
}

/// `slots` after `item` was put into slot `n`: what the slot held before is
/// gone, and the slots stand in ascending order.
pub open spec fn with_slot(slots: Seq<SlotModel>, n: int, item: ItemModel) -> Seq<SlotModel> {
    sort_slots(without_slot(slots, n).push(SlotModel { slot_number: n, item }))
}

/// Where `insert_slot` puts `x`: at the position `j` behind which every
/// number is greater and before which the last is not.
pub proof fn lemma_insert_slot_at(sorted: Seq<SlotModel>, x: SlotModel, j: int)
    requires
        0 <= j <= sorted.len(),
        forall|k: int| j <= k < sorted.len() ==> (#[trigger] sorted[k]).slot_number > x.slot_number,
        j > 0 ==> sorted[j - 1].slot_number <= x.slot_number,
    ensures
        insert_slot(sorted, x) == sorted.insert(j, x),
    decreases sorted.len() - j,
{
    if j == sorted.len() {
        assert(sorted.push(x) =~= sorted.insert(j, x));
    } else {
        assert(sorted.last() == sorted[sorted.len() - 1]);
        lemma_insert_slot_at(sorted.drop_last(), x, j);
        assert(sorted.drop_last().insert(j, x).push(sorted.last()) =~= sorted.insert(j, x));
    }
}

/// Sorting keeps the number of slots.
pub proof fn lemma_sort_slots_len(slots: Seq<SlotModel>)
    ensures
        sort_slots(slots).len() == slots.len(),
    decreases slots.len(),
{
    if slots.len() > 0 {
        lemma_sort_slots_len(slots.drop_last());
        lemma_insert_slot_len(sort_slots(slots.drop_last()), slots.last());
    }
}

pub proof fn lemma_insert_slot_len(sorted: Seq<SlotModel>, x: SlotModel)
    ensures
        insert_slot(sorted, x).len() == sorted.len() + 1,
    decreases sorted.len(),
{
    if sorted.len() > 0 && sorted.last().slot_number > x.slot_number {
        lemma_insert_slot_len(sorted.drop_last(), x);
    }
}

} // verus!
