//! Items, slots and the inventory section: reading them from text and
//! writing them back.
//!
//! ```text
//! Inventory   = {1 Content={3354},
//!                3 Content={2854 Content={2853, 3031 Amount=40}},
//!                10 Content={2854 Content={3449 Amount=100, 3155 Charges=35}}}
//! ```

use crate::braces::find_closing;
use crate::chars::{
    find_pattern, lemma_digits_end_bounds, lemma_skip_spaces_bounds, scan_digits,
    scan_separators, scan_spaces, skip_spaces, starts_with_at, to_chars,
};
use crate::decimal::{push_decimal, read_number};
use crate::error::{DemonaxError, ItemError};
use crate::grammar::{
    amount_key, amount_text, attribute_at, attribute_value, attributes_end, charges_text,
    content_block, content_key, find_attribute, has_slot, insert_slot, item_text, items_text,
    lemma_content_block_bounds, lemma_insert_slot_at, lemma_slot_bounds, parse_item_spec,
    parse_items_spec, parse_slots_spec, section_text, slot_text, slots_text, sort_slots,
    top_level_comma, with_slot, without_slot, ItemModel, SlotModel,
};
use crate::laws::law_set_slot_occupies;
use crate::sorting::{ascending, numbered};
use vstd::prelude::*;
use vstd::slice::slice_subrange;
use vstd::string::StringExecFns;

verus! {

/// An item of the inventory; a container holds further items.
#[derive(Debug, PartialEq)]
pub struct InventoryItem {
    pub type_id: i32,
    pub amount: Option<i32>,
    pub charges: Option<i32>,
    pub contents: Vec<InventoryItem>,
}

/// A numbered position of the inventory and the item in it.
#[derive(Debug, Clone)]
pub struct InventorySlot {
    pub slot_number: i32,
    pub item: InventoryItem,
}

/// The inventory section of a player file.
#[derive(Debug, Clone)]
pub struct InventorySection {
    pub slots: Vec<InventorySlot>,
}

pub open spec fn option_int(o: Option<i32>) -> Option<int> {
    match o {
        Some(v) => Some(v as int),
        None => None,
    }
}

/// The value of an item: its numbers, and the values of its contents.
pub open spec fn item_model(item: InventoryItem) -> ItemModel
    decreases item,
{
    ItemModel {
        type_id: item.type_id as int,
        amount: option_int(item.amount),
        charges: option_int(item.charges),
        contents: Seq::new(
            item.contents.len() as nat,
            |i: int|
                if 0 <= i < item.contents.len() {
                    item_model(item.contents[i])
                } else {
                    arbitrary()
                },
        ),
    }
}

impl View for InventoryItem {
    type V = ItemModel;

    open spec fn view(&self) -> ItemModel {
        item_model(*self)
    }
}

impl View for InventorySlot {
    type V = SlotModel;

    open spec fn view(&self) -> SlotModel {
        SlotModel { slot_number: self.slot_number as int, item: self.item@ }
    }
}

impl View for InventorySection {
    type V = Seq<SlotModel>;

    open spec fn view(&self) -> Seq<SlotModel> {
        slot_models(self.slots@)
    }
}

/// The values of a sequence of items.
pub open spec fn item_models(items: Seq<InventoryItem>) -> Seq<ItemModel> {
    Seq::new(items.len(), |i: int| items[i]@)
}

/// The values of a sequence of slots.
pub open spec fn slot_models(slots: Seq<InventorySlot>) -> Seq<SlotModel> {
    Seq::new(slots.len(), |i: int| slots[i]@)
}

pub open spec fn item_result(r: Result<InventoryItem, ItemError>) -> Result<ItemModel, ItemError> {
    match r {
        Ok(item) => Ok(item@),
        Err(e) => Err(e),
    }
}

pub open spec fn items_result(r: Result<Vec<InventoryItem>, ItemError>) -> Result<
    Seq<ItemModel>,
    ItemError,
> {
    match r {
        Ok(items) => Ok(item_models(items@)),
        Err(e) => Err(e),
    }
}

pub open spec fn section_result(r: Result<InventorySection, DemonaxError>) -> Result<
    Seq<SlotModel>,
    DemonaxError,
> {
    match r {
        Ok(section) => Ok(section@),
        Err(e) => Err(e),
    }
}

impl Clone for InventoryItem {
    fn clone(&self) -> (copy: Self)
        ensures
            copy@ == self@,
        decreases self,
    {
        let mut contents: Vec<InventoryItem> = Vec::new();
        let mut i: usize = 0;
        while i < self.contents.len()
            invariant
                i <= self.contents.len(),
                contents@.len() == i,
                forall|k: int| 0 <= k < i ==> contents@[k]@ == self.contents@[k]@,
            decreases self.contents.len() - i,
        {
            contents.push(self.contents[i].clone());
            i += 1;
        }
        let copy = Self {
            type_id: self.type_id,
            amount: self.amount,
            charges: self.charges,
            contents,
        };
        assert(copy@.contents =~= self@.contents);
        copy
    }
}

impl InventoryItem {
    /// An item with nothing but a type id.
    pub fn new(type_id: i32) -> (item: Self)
        ensures
            item@ == (ItemModel {
                type_id: type_id as int,
                amount: None,
                charges: None,
                contents: Seq::empty(),
            }),
    {
        let item = Self { type_id, amount: None, charges: None, contents: Vec::new() };
        assert(item@.contents =~= Seq::empty());
        item
    }

    /// A stack of `amount` items.
    pub fn with_amount(type_id: i32, amount: i32) -> (item: Self)
        ensures
            item@ == (ItemModel {
                type_id: type_id as int,
                amount: Some(amount as int),
                charges: None,
                contents: Seq::empty(),
            }),
    {
        let item = Self { type_id, amount: Some(amount), charges: None, contents: Vec::new() };
        assert(item@.contents =~= Seq::empty());
        item
    }

    /// An item with `charges` charges left.
    pub fn with_charges(type_id: i32, charges: i32) -> (item: Self)
        ensures
            item@ == (ItemModel {
                type_id: type_id as int,
                amount: None,
                charges: Some(charges as int),
                contents: Seq::empty(),
            }),
    {
        let item = Self { type_id, amount: None, charges: Some(charges), contents: Vec::new() };
        assert(item@.contents =~= Seq::empty());
        item
    }

    /// A container that holds `contents`, in their order.
    pub fn container(type_id: i32, contents: Vec<InventoryItem>) -> (item: Self)
        ensures
            item@ == (ItemModel {
                type_id: type_id as int,
                amount: None,
                charges: None,
                contents: item_models(contents@),
            }),
    {
        let item = Self { type_id, amount: None, charges: None, contents };
        assert(item@.contents =~= item_models(contents@));
        item
    }

    /// Appends the text of the item to `out`.
    pub fn write(&self, out: &mut String)
        ensures
            final(out)@ == old(out)@ + item_text(self@),
        decreases self,
    {
        let ghost before = out@;
        push_decimal(out, self.type_id);
        if let Some(amount) = self.amount {
            out.append(" Amount=");
            push_decimal(out, amount);
        }
        if let Some(charges) = self.charges {
            out.append(" Charges=");
            push_decimal(out, charges);
        }
        let ghost head = crate::decimal::decimal(self.type_id as int) + amount_text(self@.amount)
            + charges_text(self@.charges);
        assert(out@ =~= before + head);
        if self.contents.len() > 0 {
            out.append(" Content={");
            let mut i: usize = 0;
            while i < self.contents.len()
                invariant
                    i <= self.contents.len(),
                    out@ == before + head + " Content={"@ + items_text(self@.contents, i as int),
                decreases self.contents.len() - i,
            {
                if i > 0 {
                    out.append(", ");
                }
                self.contents[i].write(out);
                assert(self@.contents[i as int] == self.contents[i as int]@);
                assert(out@ =~= before + head + " Content={"@ + items_text(
                    self@.contents,
                    i + 1,
                ));
                i += 1;
            }
            out.append("}");
            assert(out@ =~= before + item_text(self@));
        } else {
            assert(out@ =~= before + item_text(self@));
        }
    }

    /// The text of the item: its type id, then ` Amount=` and ` Charges=`
    /// where they are set, then its contents in ` Content={..}`.
    pub fn serialize(&self) -> (text: String)
        ensures
            text@ == item_text(self@),
    {
        let mut out = String::new();
        self.write(&mut out);
        assert(out@ =~= item_text(self@));
        out
    }
}

/// `done`, followed by what is read further on, unless that fails.
pub open spec fn prepend_items(
    done: Seq<ItemModel>,
    rest: Result<Seq<ItemModel>, ItemError>,
) -> Result<Seq<ItemModel>, ItemError> {
    match rest {
        Ok(items) => Ok(done + items),
        Err(e) => Err(e),
    }
}

/// `done`, followed by what is read further on, unless that fails.
pub open spec fn prepend_slots(
    done: Seq<SlotModel>,
    rest: Result<Seq<SlotModel>, DemonaxError>,
) -> Result<Seq<SlotModel>, DemonaxError> {
    match rest {
        Ok(slots) => Ok(done + slots),
        Err(e) => Err(e),
    }
}

/// The value of the first attribute token for `key` in `t`.
fn read_attribute(t: &[char], key: &[char]) -> (r: Option<i32>)
    ensures
        option_int(r) == attribute_value(t@, key@),
{
    let n: usize = t.len();
    let mut i: usize = 0;
    while i < n
        invariant
            i <= n,
            n == t@.len(),
            find_attribute(t@, key@, 0) == find_attribute(t@, key@, i as int),
        decreases n - i,
    {
        if starts_with_at(t, key, i) {
            let eq: usize = scan_spaces(t, i + key.len());
            if eq < n && t[eq] == '=' {
                let from: usize = scan_spaces(t, eq + 1);
                let to: usize = scan_digits(t, from);
                if from < to {
                    proof {
                        lemma_digits_end_bounds(t@, from as int);
                        assert(attribute_at(t@, key@, i as int) == Some((from as int, to as int)));
                    }
                    return read_number(t, from, to);
                }
            }
        }
        assert(attribute_at(t@, key@, i as int).is_none());
        i += 1;
    }
    None
}

/// The position of the first comma at or after `start` that stands outside
/// all braces opened from `start` on.
fn scan_top_level_comma(t: &[char], start: usize) -> (r: usize)
    requires
        start <= t@.len(),
    ensures
        r == top_level_comma(t@, start as int, 0),
        start <= r <= t@.len(),
{
    let n: usize = t.len();
    let mut depth: i128 = 0;
    let mut i: usize = start;
    while i < n
        invariant
            start <= i <= n,
            n == t@.len(),
            -(i - start) <= depth <= i - start,
            top_level_comma(t@, start as int, 0) == top_level_comma(t@, i as int, depth as int),
        decreases n - i,
    {
        let c: char = t[i];
        if c == ',' && depth == 0 {
            return i;
        }
        if c == '{' {
            depth += 1;
        } else if c == '}' {
            depth -= 1;
        }
        i += 1;
    }
    i
}

/// Reads one item from its text.
fn parse_item_chars(s: &[char]) -> (r: Result<InventoryItem, ItemError>)
    ensures
        item_result(r) == parse_item_spec(s@),
    decreases s@.len(), 0int,
{
    let n: usize = s.len();
    let start: usize = scan_spaces(s, 0);
    let end: usize = scan_digits(s, start);
    if start == end {
        return Err(ItemError::MissingTypeId);
    }
    proof {
        lemma_digits_end_bounds(s@, start as int);
        lemma_content_block_bounds(s@, end as int);
    }
    let type_id: i32 = match read_number(s, start, end) {
        Some(v) => v,
        None => {
            return Err(ItemError::TypeIdOutOfRange);
        },
    };
    let key = to_chars("Content=");
    let marker = find_pattern(s, key.as_slice(), end);
    let attributes_to: usize = match marker {
        Some(p) => p,
        None => n,
    };
    assert(attributes_to == attributes_end(s@, end as int));
    let attributes = slice_subrange(s, end, attributes_to);
    let amount_name = to_chars("Amount");
    let charges_name = to_chars("Charges");
    let amount = read_attribute(attributes, amount_name.as_slice());
    let charges = read_attribute(attributes, charges_name.as_slice());
    let mut contents: Vec<InventoryItem> = Vec::new();
    if let Some(p) = marker {
        let open: usize = scan_spaces(s, p + key.len());
        if open < n && s[open] == '{' {
            match find_closing(s, open + 1) {
                None => {
                    return Err(ItemError::UnbalancedBraces);
                },
                Some(close) => {
                    match parse_items_chars(slice_subrange(s, open + 1, close)) {
                        Ok(items) => {
                            contents = items;
                        },
                        Err(e) => {
                            return Err(e);
                        },
                    }
                },
            }
        }
    }
    let item = InventoryItem { type_id, amount, charges, contents };
    assert(item@.contents =~= item_models(contents@));
    assert(match content_block(s@, end as int) {
        Ok(Some((from, to))) => parse_items_spec(s@.subrange(from, to), 0) == Ok::<
            Seq<ItemModel>,
            ItemError,
        >(item@.contents),
        Ok(None) => item@.contents == Seq::<ItemModel>::empty(),
        Err(_) => false,
    });
    Ok(item)
}

/// Reads the items of a `Content={..}` block from the text between its braces.
fn parse_items_chars(t: &[char]) -> (r: Result<Vec<InventoryItem>, ItemError>)
    ensures
        items_result(r) == parse_items_spec(t@, 0),
    decreases t@.len(), 1int,
{
    let n: usize = t.len();
    let mut items: Vec<InventoryItem> = Vec::new();
    let mut pos: usize = 0;
    assert(item_models(items@) + Seq::<ItemModel>::empty() =~= Seq::<ItemModel>::empty());
    loop
        invariant
            pos <= n,
            n == t@.len(),
            parse_items_spec(t@, 0) == prepend_items(
                item_models(items@),
                parse_items_spec(t@, pos as int),
            ),
        decreases n - pos,
    {
        let comma: usize = scan_top_level_comma(t, pos);
        let piece = slice_subrange(t, pos, comma);
        let ghost done = item_models(items@);
        let ghost rest = if comma >= n {
            Ok(Seq::<ItemModel>::empty())
        } else {
            parse_items_spec(t@, comma + 1)
        };
        proof {
            lemma_skip_spaces_bounds(piece@, 0);
        }
        if scan_spaces(piece, 0) < piece.len() {
            match parse_item_chars(piece) {
                Ok(item) => {
                    items.push(item);
                    assert(item_models(items@) =~= done.push(item@));
                    assert forall|more: Seq<ItemModel>|
                        done + (seq![item@] + more) == #[trigger] (done.push(item@) + more) by {
                        assert(done + (seq![item@] + more) =~= done.push(item@) + more);
                    }
                    assert(done.push(item@) + Seq::<ItemModel>::empty() =~= done + seq![item@]);
                },
                Err(e) => {
                    return Err(e);
                },
            }
        } else {
            assert forall|more: Seq<ItemModel>|
                done + (Seq::<ItemModel>::empty() + more) == #[trigger] (done + more) by {
                assert(done + (Seq::<ItemModel>::empty() + more) =~= done + more);
            }
            assert(done + Seq::<ItemModel>::empty() =~= done);
        }
        if comma >= n {
            assert(item_models(items@) + Seq::<ItemModel>::empty() =~= item_models(items@));
            return Ok(items);
        }
        pos = comma + 1;
    }
}

/// Reads one item from the text between the braces of a slot or of a
/// `Content={..}` block: a type id, then optional `Amount=` and `Charges=`
/// attributes, then an optional `Content={..}` block of nested items.
pub fn parse_item(content: &str) -> (r: Result<InventoryItem, ItemError>)
    ensures
        item_result(r) == parse_item_spec(content@),
{
    let chars = to_chars(content);
    parse_item_chars(chars.as_slice())
}

/// Reads a list of items separated by commas; a comma inside braces does
/// not separate, and blank pieces are passed over.
pub fn parse_item_list(content: &str) -> (r: Result<Vec<InventoryItem>, ItemError>)
    ensures
        items_result(r) == parse_items_spec(content@, 0),
{
    let chars = to_chars(content);
    parse_items_chars(chars.as_slice())
}

impl InventorySlot {
    pub fn new(slot_number: i32, item: InventoryItem) -> (slot: Self)
        ensures
            slot@ == (SlotModel { slot_number: slot_number as int, item: item@ }),
    {
        Self { slot_number, item }
    }

    /// Appends the text of the slot to `out`.
    pub fn write(&self, out: &mut String)
        ensures
            final(out)@ == old(out)@ + slot_text(self@),
    {
        push_decimal(out, self.slot_number);
        out.append(" Content={");
        self.item.write(out);
        out.append("}");
        assert(out@ =~= old(out)@ + slot_text(self@));
    }

    /// The text of the slot: its number, then its item in ` Content={..}`.
    pub fn serialize(&self) -> (text: String)
        ensures
            text@ == slot_text(self@),
    {
        let mut out = String::new();
        self.write(&mut out);
        assert(out@ =~= slot_text(self@));
        out
    }
}

/// The slots that `order` picks from `slots`, in the order of `order`.
pub open spec fn picked(slots: Seq<SlotModel>, order: Seq<usize>) -> Seq<SlotModel> {
    Seq::new(order.len(), |k: int| slots[order[k] as int])
}

impl InventorySection {
    /// A section without slots.
    pub fn new() -> (section: Self)
        ensures
            section@ == Seq::<SlotModel>::empty(),
    {
        let section = Self { slots: Vec::new() };
        assert(section@ =~= Seq::<SlotModel>::empty());
        section
    }

    /// Reads a section from the text between the braces of
    /// `Inventory = {..}`. Blank text gives a section without slots. Reading
    /// ends, without an error, where no further slot number stands.
    pub fn parse(inventory_content: &str) -> (r: Result<Self, DemonaxError>)
        ensures
            section_result(r) == parse_slots_spec(inventory_content@, 0),
    {
        let chars = to_chars(inventory_content);
        let s = chars.as_slice();
        let key = to_chars("Content=");
        let n: usize = s.len();
        let mut slots: Vec<InventorySlot> = Vec::new();
        let mut pos: usize = 0;
        assert(slot_models(slots@) + Seq::<SlotModel>::empty() =~= Seq::<SlotModel>::empty());
        loop
            invariant
                pos <= n,
                n == s@.len(),
                s@ == inventory_content@,
                key@ == content_key(),
                parse_slots_spec(s@, 0) == prepend_slots(
                    slot_models(slots@),
                    parse_slots_spec(s@, pos as int),
                ),
            decreases n - pos,
        {
            let ghost done = slot_models(slots@);
            proof {
                lemma_slot_bounds(s@, pos as int);
            }
            let start: usize = scan_separators(s, pos);
            let end: usize = scan_digits(s, start);
            if start == end {
                assert(done + Seq::<SlotModel>::empty() =~= done);
                return Ok(Self { slots });
            }
            proof {
                lemma_digits_end_bounds(s@, start as int);
            }
            let slot: i32 = match read_number(s, start, end) {
                Some(v) => v,
                None => {
                    return Err(DemonaxError::SlotOutOfRange);
                },
            };
            let marker: usize = scan_spaces(s, end);
            if !starts_with_at(s, key.as_slice(), marker) {
                return Err(DemonaxError::MissingContent { slot });
            }
            let open: usize = scan_spaces(s, marker + key.len());
            if !(open < n && s[open] == '{') {
                return Err(DemonaxError::MissingContent { slot });
            }
            let close: usize = match find_closing(s, open + 1) {
                Some(e) => e,
                None => {
                    return Err(DemonaxError::UnbalancedSlot { slot });
                },
            };
            match parse_item_chars(slice_subrange(s, open + 1, close)) {
                Err(e) => {
                    return Err(DemonaxError::Item { slot, error: e });
                },
                Ok(item) => {
                    let ghost model = SlotModel { slot_number: slot as int, item: item@ };
                    slots.push(InventorySlot { slot_number: slot, item });
                    assert(slot_models(slots@) =~= done.push(model));
                    assert forall|more: Seq<SlotModel>|
                        done + (seq![model] + more) == #[trigger] (done.push(model) + more) by {
                        assert(done + (seq![model] + more) =~= done.push(model) + more);
                    }
                    pos = close + 1;
                },
            }
        }
    }

    /// Whether no slot of the section has the number `slot`.
    pub fn is_slot_empty(&self, slot: i32) -> (empty: bool)
        ensures
            empty == !has_slot(self@, slot as int),
    {
        let mut i: usize = 0;
        while i < self.slots.len()
            invariant
                i <= self.slots.len(),
                forall|k: int| 0 <= k < i ==> (#[trigger] self@[k]).slot_number != slot,
            decreases self.slots.len() - i,
        {
            if self.slots[i].slot_number == slot {
                assert(self@[i as int].slot_number == slot);
                return false;
            }
            i += 1;
        }
        true
    }

    /// Puts `item` into slot `slot`. Whatever the slot held before is
    /// dropped; afterwards the slots stand in ascending order.
    pub fn set_slot(&mut self, slot: i32, item: InventoryItem)
        ensures
            final(self)@ == with_slot(old(self)@, slot as int, item@),
            numbered(final(self)@, slot as int) == seq![
                SlotModel { slot_number: slot as int, item: item@ },
            ],
            ascending(final(self)@),
    {
        proof {
            law_set_slot_occupies(old(self)@, slot as int, item@);
        }
        let mut rest: Vec<InventorySlot> = Vec::new();
        std::mem::swap(&mut self.slots, &mut rest);
        let ghost before = slot_models(rest@);
        let ghost mut seen: int = 0;
        let mut sorted: Vec<InventorySlot> = Vec::new();
        assert(slot_models(sorted@) =~= sort_slots(without_slot(before.take(0), slot as int)));
        while rest.len() > 0
            invariant
                0 <= seen <= before.len(),
                slot_models(rest@) == before.skip(seen),
                slot_models(sorted@) == sort_slots(without_slot(before.take(seen), slot as int)),
            decreases rest.len(),
        {
            assert(slot_models(rest@).len() == rest@.len());
            let ghost views = slot_models(rest@);
            let x = rest.remove(0);
            proof {
                assert(x@ == views[0]);
                assert forall|k: int| 0 <= k < rest@.len() implies slot_models(rest@)[k]
                    == before.skip(seen + 1)[k] by {
                    assert(slot_models(rest@)[k] == views[k + 1]);
                }
                assert(slot_models(rest@) =~= before.skip(seen + 1));
                assert(before.take(seen + 1).drop_last() =~= before.take(seen));
                assert(before.take(seen + 1).last() == x@);
                seen = seen + 1;
            }
            if x.slot_number != slot {
                insert_sorted(&mut sorted, x);
                assert(without_slot(before.take(seen), slot as int).drop_last() =~= without_slot(
                    before.take(seen - 1),
                    slot as int,
                ));
            }
        }
        let ghost kept = without_slot(before, slot as int);
        assert(before.take(seen) =~= before);
        let fresh = InventorySlot { slot_number: slot, item };
        assert(kept.push(fresh@).drop_last() =~= kept);
        insert_sorted(&mut sorted, fresh);
        self.slots = sorted;
    }

    /// The text of the section: `Inventory   = {`, the slots in ascending
    /// order of their numbers, joined by a comma, a line break and fifteen
    /// spaces, then `}`.
    pub fn serialize(&self) -> (text: String)
        ensures
            text@ == section_text(self@),
    {
        let n: usize = self.slots.len();
        let mut order: Vec<usize> = Vec::new();
        let mut i: usize = 0;
        assert(picked(self@, order@) =~= sort_slots(self@.take(0)));
        while i < n
            invariant
                i <= n,
                n == self.slots@.len(),
                order@.len() == i,
                forall|k: int| 0 <= k < order@.len() ==> (#[trigger] order@[k]) < i,
                picked(self@, order@) == sort_slots(self@.take(i as int)),
            decreases n - i,
        {
            let number: i32 = self.slots[i].slot_number;
            let mut j: usize = order.len();
            while j > 0 && self.slots[order[j - 1]].slot_number > number
                invariant
                    j <= order@.len(),
                    i < n,
                    n == self.slots@.len(),
                    number == self@[i as int].slot_number,
                    forall|k: int| 0 <= k < order@.len() ==> (#[trigger] order@[k]) < i,
                    forall|k: int|
                        j <= k < order@.len() ==> (#[trigger] picked(self@, order@)[k]).slot_number
                            > number,
                decreases j,
            {
                assert(picked(self@, order@)[j - 1].slot_number > number);
                j -= 1;
            }
            proof {
                let sorted = picked(self@, order@);
                if j > 0 {
                    assert(sorted[j - 1].slot_number <= number);
                }
                lemma_insert_slot_at(sorted, self@[i as int], j as int);
                assert(self@.take(i + 1).drop_last() =~= self@.take(i as int));
                assert(self@.take(i + 1).last() == self@[i as int]);
            }
            let ghost sorted = picked(self@, order@);
            order.insert(j, i);
            assert(picked(self@, order@) =~= sorted.insert(j as int, self@[i as int]));
            i += 1;
        }
        assert(self@.take(n as int) =~= self@);
        let ghost sorted = sort_slots(self@);
        let mut out = String::new();
        out.append("Inventory   = {");
        let mut k: usize = 0;
        while k < n
            invariant
                k <= n,
                n == self.slots@.len(),
                order@.len() == n,
                forall|m: int| 0 <= m < order@.len() ==> (#[trigger] order@[m]) < n,
                picked(self@, order@) == sorted,
                out@ == "Inventory   = {"@ + slots_text(sorted, k as int),
            decreases n - k,
        {
            if k > 0 {
                out.append(",\n               ");
            }
            let at: usize = order[k];
            assert(sorted[k as int] == self@[at as int]);
            self.slots[at].write(&mut out);
            assert(out@ =~= "Inventory   = {"@ + slots_text(sorted, k + 1));
            k += 1;
        }
        out.append("}");
        assert(out@ =~= section_text(self@));
        out
    }
}

impl Default for InventorySection {
    fn default() -> (section: Self)
        ensures
            section@ == Seq::<SlotModel>::empty(),
    {
        Self::new()
    }
}

/// Puts `x` into the ascending `sorted`, behind every slot whose number is
/// not greater.
fn insert_sorted(sorted: &mut Vec<InventorySlot>, x: InventorySlot)
    ensures
        slot_models(final(sorted)@) == insert_slot(slot_models(old(sorted)@), x@),
{
    let ghost models = slot_models(sorted@);
    let mut j: usize = sorted.len();
    while j > 0 && sorted[j - 1].slot_number > x.slot_number
        invariant
            j <= sorted@.len(),
            models == slot_models(sorted@),
            forall|k: int| j <= k < sorted@.len() ==> (#[trigger] models[k]).slot_number
                > x.slot_number,
        decreases j,
    {
        assert(models[j - 1].slot_number > x.slot_number);
        j -= 1;
    }
    proof {
        if j > 0 {
            assert(models[j - 1].slot_number <= x.slot_number);
        }
        lemma_insert_slot_at(models, x@, j as int);
    }
    let ghost model = x@;
    sorted.insert(j, x);
    assert(slot_models(sorted@) =~= models.insert(j as int, model));
}

} // verus!
