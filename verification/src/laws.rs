//! What holds of the library as a whole: each law relates several of its
//! functions, over the definitions that their contracts are stated in.

use crate::braces::closing_from;
use crate::chars::{has_at, is_space, skip_spaces};
use crate::decimal::decimal;
use crate::document::{
    find_introducer, introducer_at, introducer_key, lemma_byte_offset_monotone,
    lemma_locate_bounds, locate_spec, spliced_bytes, valid_span, Located,
};
use crate::offsets::{
    byte_offset, lemma_encode_concat, lemma_encode_split, lemma_offset_is_boundary,
};
use vstd::utf8::encode_utf8;
use crate::error::{DemonaxError, ItemError};
use crate::grammar::{
    has_slot, item_text, items_text, lemma_sort_slots_len, parse_item_spec, parse_items_spec,
    parse_slots_spec, section_body, section_text, slot_text, slots_text, sort_slots,
    top_level_comma, with_slot, without_slot, ItemModel, SlotModel,
};
use crate::present::{gift_spec, GiftOutcome};
use crate::rewriting::lemma_relocated;
use crate::roundtrip::{
    lemma_decimal_text, lemma_item_text_sealed, lemma_parsed_slots_readable, lemma_plain_concat,
    lemma_read_item, lemma_read_items, lemma_read_slots, readable, readable_item, readable_items,
    readable_slots, slot_separator,
};
use crate::scanning::{
    balance, balanced, lemma_balance_concat, lemma_balance_one, lemma_balanced_concat,
    lemma_braceless_balance, lemma_closing_over, lemma_sealed_after_plain, lemma_sealed_block,
    lemma_spaces_run, plain, sealed,
};
use crate::sorting::{
    ascending, lemma_has_slot_numbered, lemma_numbered_push, lemma_sort_ascending,
    lemma_sort_fixed, lemma_sort_members, lemma_sort_multiset, lemma_sort_numbered,
    lemma_without_members, lemma_without_numbered, numbered,
};
use vstd::prelude::*;

verus! {

/// The text of a slot is sealed; the text of the slots of a section is
/// balanced.
proof fn lemma_slots_text_balanced(slots: Seq<SlotModel>, n: int)
    requires
        readable_slots(slots),
        0 <= n <= slots.len(),
    ensures
        balanced(slots_text(slots, n)),
    decreases n,
{
    if n == 0 {
        lemma_braceless_balance(slots_text(slots, n));
    } else {
        let slot = slots[n - 1];
        reveal_strlit(" Content={");
        reveal_strlit("}");
        reveal_strlit(",\n               ");
        lemma_decimal_text(slot.slot_number);
        lemma_item_text_sealed(slot.item);
        let intro = " Content={"@.take(9);
        assert(plain(intro));
        lemma_plain_concat(decimal(slot.slot_number), intro);
        lemma_sealed_block(item_text(slot.item));
        lemma_sealed_after_plain(
            decimal(slot.slot_number) + intro,
            seq!['{'] + item_text(slot.item) + seq!['}'],
        );
        assert(slot_text(slot) =~= (decimal(slot.slot_number) + intro) + (seq!['{'] + item_text(
            slot.item,
        ) + seq!['}']));
        if n > 1 {
            lemma_slots_text_balanced(slots, n - 1);
            lemma_braceless_balance(slot_separator());
            lemma_balanced_concat(slots_text(slots, n - 1), slot_separator());
            lemma_balanced_concat(slots_text(slots, n - 1) + slot_separator(), slot_text(slot));
        }
    }
}

/// Sorting keeps a section readable.
proof fn lemma_sort_readable(slots: Seq<SlotModel>)
    requires
        readable_slots(slots),
    ensures
        readable_slots(sort_slots(slots)),
{
    let sorted = sort_slots(slots);
    assert forall|i: int| 0 <= i < sorted.len() implies readable(
        (#[trigger] sorted[i]).slot_number,
    ) && readable_item(sorted[i].item) by {
        lemma_sort_members(slots, i);
        let m = choose|m: int| 0 <= m < slots.len() && slots[m] == sorted[i];
        assert(readable(slots[m].slot_number));
    }
}

/// **An item is read back from its text.** For every item whose numbers
/// lie between zero and the largest `i32`, reading the text that the item
/// is written as gives the item: the same type id, amount and charges, and
/// the same contents in the same order, to every depth.
pub proof fn law_item_read_back(item: ItemModel)
    requires
        readable_item(item),
    ensures
        parse_item_spec(item_text(item)) == Ok::<ItemModel, ItemError>(item),
{
    lemma_read_item(item, Seq::empty());
    assert(Seq::<char>::empty() + item_text(item) =~= item_text(item));
}

/// **A list of items is read back from its text.** The texts of readable
/// items, joined by `", "`, denote those items in their order: a comma
/// inside the contents of one of them separates nothing.
pub proof fn law_items_read_back(items: Seq<ItemModel>)
    requires
        readable_items(items),
    ensures
        parse_items_spec(items_text(items, items.len() as int), 0) == Ok::<
            Seq<ItemModel>,
            ItemError,
        >(items),
{
    if items.len() == 0 {
        let empty = items_text(items, 0);
        assert(top_level_comma(empty, 0, 0) == 0);
        assert(empty.subrange(0, 0) =~= empty);
        assert(skip_spaces(empty, 0) == 0);
        assert(items =~= Seq::<ItemModel>::empty());
    } else {
        lemma_read_items(items, 0);
        assert(items.skip(0) =~= items);
    }
}

/// **A section is read back from its text.** For every section whose slot
/// numbers and items are readable: in the text that the section is written
/// as, the section is located from the first character to the last; the
/// text between the braces is the body of the section; and reading that
/// body gives the slots of the section in ascending order of their numbers.
pub proof fn law_section_read_back(slots: Seq<SlotModel>)
    requires
        readable_slots(slots),
    ensures
        locate_spec(section_text(slots)) == Ok::<Located, DemonaxError>(
            Located { start: 0, content_start: 15, close: section_text(slots).len() - 1 },
        ),
        section_text(slots).subrange(15, section_text(slots).len() - 1) == section_body(slots),
        parse_slots_spec(section_body(slots), 0) == Ok::<Seq<SlotModel>, DemonaxError>(
            sort_slots(slots),
        ),
{
    let sorted = sort_slots(slots);
    let body = section_body(slots);
    let w = section_text(slots);
    lemma_sort_slots_len(slots);
    lemma_sort_readable(slots);
    // reading the body
    lemma_read_slots(sorted, 0);
    assert(slots_text(sorted, 0).len() == 0);
    assert(sorted.skip(0) =~= sorted);
    // locating the section
    reveal_strlit("Inventory   = {");
    reveal_strlit("Inventory");
    reveal_strlit("}");
    assert(w.subrange(0, 9) =~= introducer_key());
    assert(w[9] == ' ' && w[10] == ' ' && w[11] == ' ' && w[12] == '=' && w[13] == ' ' && w[14]
        == '{');
    assert(is_space(' '));
    assert(!is_space('='));
    assert(!is_space('{'));
    assert forall|k: int| 9 <= k < 12 implies is_space(#[trigger] w[k]) by {}
    lemma_spaces_run(w, 9, 12);
    assert forall|k: int| 13 <= k < 14 implies is_space(#[trigger] w[k]) by {}
    lemma_spaces_run(w, 13, 14);
    assert(introducer_at(w, 0) == Some(15int));
    assert(find_introducer(w, 0) == Some((0int, 15int)));
    assert(has_at(w, body, 15)) by {
        assert(w.subrange(15, 15 + body.len() as int) =~= body);
    }
    lemma_slots_text_balanced(sorted, sorted.len() as int);
    lemma_closing_over(w, 15, body, 1);
    let close = 15 + body.len() as int;
    assert(w[close] == '}');
    assert(closing_from(w, close, 1) == Some(close));
}

/// **Round trip.** Whatever text a section was read from, writing the
/// section and reading it again gives the same slots with the same items:
/// the slots that were read, in ascending order of their numbers, each as
/// often as before. Writing once more gives the same text again.
pub proof fn law_round_trip(text: Seq<char>)
    requires
        parse_slots_spec(text, 0) is Ok,
    ensures
        ({
            let slots = parse_slots_spec(text, 0).unwrap();
            let written = section_text(slots);
            &&& locate_spec(written) matches Ok(at) && at.start == 0 && at.close + 1
                == written.len() && written.subrange(at.content_start, at.close) == section_body(
                slots,
            )
            &&& parse_slots_spec(section_body(slots), 0) == Ok::<Seq<SlotModel>, DemonaxError>(
                sort_slots(slots),
            )
            &&& sort_slots(slots).to_multiset() == slots.to_multiset()
            &&& section_text(sort_slots(slots)) == written
        }),
{
    let slots = parse_slots_spec(text, 0).unwrap();
    lemma_parsed_slots_readable(text, 0);
    law_section_read_back(slots);
    lemma_sort_multiset(slots);
    lemma_sort_ascending(slots);
    lemma_sort_fixed(sort_slots(slots));
    lemma_sort_slots_len(slots);
}

/// **Slot overwrite.** After an item was put into slot `n` and then another
/// one into the same slot, the section has exactly one slot of number `n`,
/// and it holds the second item. The slots of every other number are the
/// same as before, in the same order.
pub proof fn law_slot_overwrite(slots: Seq<SlotModel>, n: int, first: ItemModel, second: ItemModel)
    ensures
        numbered(with_slot(with_slot(slots, n, first), n, second), n) == seq![
            SlotModel { slot_number: n, item: second },
        ],
        forall|m: int|
            m != n ==> #[trigger] numbered(with_slot(with_slot(slots, n, first), n, second), m)
                == numbered(slots, m),
        ascending(with_slot(with_slot(slots, n, first), n, second)),
{
    let once = with_slot(slots, n, first);
    let twice = with_slot(once, n, second);
    let a = SlotModel { slot_number: n, item: first };
    let b = SlotModel { slot_number: n, item: second };
    lemma_sort_numbered(without_slot(once, n).push(b), n);
    lemma_numbered_push(without_slot(once, n), b, n);
    lemma_without_numbered(once, n, n);
    assert(numbered(twice, n) =~= seq![b]);
    assert forall|m: int| m != n implies #[trigger] numbered(twice, m) == numbered(slots, m) by {
        lemma_sort_numbered(without_slot(once, n).push(b), m);
        lemma_numbered_push(without_slot(once, n), b, m);
        lemma_without_numbered(once, n, m);
        lemma_sort_numbered(without_slot(slots, n).push(a), m);
        lemma_numbered_push(without_slot(slots, n), a, m);
        lemma_without_numbered(slots, n, m);
    }
    lemma_sort_ascending(without_slot(once, n).push(b));
}

/// **A slot that was set is taken.** After an item was put into slot `n`,
/// the section has exactly one slot of that number, holding the item, and
/// the slot is no longer empty.
pub proof fn law_set_slot_occupies(slots: Seq<SlotModel>, n: int, item: ItemModel)
    ensures
        numbered(with_slot(slots, n, item), n) == seq![SlotModel { slot_number: n, item }],
        has_slot(with_slot(slots, n, item), n),
        ascending(with_slot(slots, n, item)),
{
    let x = SlotModel { slot_number: n, item };
    lemma_sort_numbered(without_slot(slots, n).push(x), n);
    lemma_numbered_push(without_slot(slots, n), x, n);
    lemma_without_numbered(slots, n, n);
    assert(numbered(with_slot(slots, n, item), n) =~= seq![x]);
    lemma_has_slot_numbered(with_slot(slots, n, item), n);
    lemma_sort_ascending(without_slot(slots, n).push(x));
}

/// **Splice locality.** Replacing the span `start..end` of a document
/// leaves every byte before `start` and every byte from `end` on as it
/// was; between them stands the replacement, whatever it is.
pub proof fn law_splice_local(document: Seq<u8>, start: int, end: int, replacement: Seq<u8>)
    requires
        0 <= start <= end <= document.len(),
    ensures
        ({
            let out = spliced_bytes(document, start, end, replacement);
            &&& out.len() == start + replacement.len() + (document.len() - end)
            &&& forall|i: int| 0 <= i < start ==> #[trigger] out[i] == document[i]
            &&& forall|i: int|
                0 <= i < replacement.len() ==> #[trigger] out[start + i] == replacement[i]
            &&& forall|i: int|
                end <= i < document.len() ==> out[start + replacement.len() + (i - end)]
                    == #[trigger] document[i]
        }),
{
}

/// **Replacing the section is local.** Where the inventory section of a
/// document is located, its span in bytes runs from the byte offset of the
/// key to the byte offset behind the closing brace and cuts no character;
/// and the document with another text in place of the section is, byte for
/// byte, the old document spliced at that span. So by splice locality every
/// byte before the key and every byte behind the closing brace stays.
pub proof fn law_replace_local(document: Seq<char>, replacement: Seq<char>)
    requires
        locate_spec(document) is Ok,
    ensures
        ({
            let at = locate_spec(document).unwrap();
            let start = byte_offset(document, at.start) as int;
            let end = byte_offset(document, at.close + 1) as int;
            &&& valid_span(encode_utf8(document), start, end)
            &&& encode_utf8(document.take(at.start) + replacement + document.skip(at.close + 1))
                == spliced_bytes(encode_utf8(document), start, end, encode_utf8(replacement))
        }),
{
    let at = locate_spec(document).unwrap();
    let head = document.take(at.start);
    let tail = document.skip(at.close + 1);
    lemma_locate_bounds(document);
    lemma_offset_is_boundary(document, at.start);
    lemma_offset_is_boundary(document, at.close + 1);
    lemma_encode_split(document, at.start);
    lemma_encode_split(document, at.close + 1);
    lemma_byte_offset_monotone(document, at.start, at.close + 1);
    lemma_encode_concat(head + replacement, tail);
    lemma_encode_concat(head, replacement);
}

/// **An occupied slot ends the run.** Where the inventory of a document is
/// located and read and already has a slot of the target number, the
/// outcome is `SlotOccupied` and there is no new text: the document stays
/// as it is.
pub proof fn law_occupied_slot(document: Seq<char>, name: Seq<char>, gift: ItemModel, slot: int)
    requires
        locate_spec(document) is Ok,
        parse_slots_spec(
            document.subrange(
                locate_spec(document).unwrap().content_start,
                locate_spec(document).unwrap().close,
            ),
            0,
        ) matches Ok(slots) && has_slot(slots, slot),
    ensures
        gift_spec(document, name, gift, slot) == (
            GiftOutcome::SlotOccupied { player_name: name },
            None::<Seq<char>>,
        ),
{
}

/// A section stays readable when a readable item is put into a readable
/// slot.
proof fn lemma_with_slot_readable(slots: Seq<SlotModel>, n: int, item: ItemModel)
    requires
        readable_slots(slots),
        readable(n),
        readable_item(item),
    ensures
        readable_slots(with_slot(slots, n, item)),
{
    let kept = without_slot(slots, n);
    let x = SlotModel { slot_number: n, item };
    let all = kept.push(x);
    assert forall|i: int| 0 <= i < all.len() implies readable((#[trigger] all[i]).slot_number)
        && readable_item(all[i].item) by {
        if i < kept.len() {
            lemma_without_members(slots, n, i);
            let m = choose|m: int| 0 <= m < slots.len() && slots[m] == kept[i];
            assert(readable(slots[m].slot_number));
        }
    }
    lemma_sort_readable(all);
}

/// **A gift can be read back.** Where a gift run puts a readable present
/// into a readable slot, the new document is the old one with only its
/// inventory section replaced; the section is located in it where it was
/// located before; and reading it gives the slots that were read before, in
/// ascending order, with exactly one slot of the target number, which holds
/// the present.
pub proof fn law_gift_read_back(document: Seq<char>, name: Seq<char>, gift: ItemModel, slot: int)
    requires
        readable_item(gift),
        readable(slot),
        gift_spec(document, name, gift, slot).1 is Some,
    ensures
        ({
            let at = locate_spec(document).unwrap();
            let slots = parse_slots_spec(document.subrange(at.content_start, at.close), 0).unwrap();
            let placed = with_slot(slots, slot, gift);
            let rewritten = gift_spec(document, name, gift, slot).1.unwrap();
            let close = at.start + section_text(placed).len() - 1;
            &&& gift_spec(document, name, gift, slot).0 == GiftOutcome::Gifted { player_name: name }
            &&& rewritten.take(at.start) == document.take(at.start)
            &&& rewritten.skip(close + 1) == document.skip(at.close + 1)
            &&& locate_spec(rewritten) == Ok::<Located, DemonaxError>(
                Located { start: at.start, content_start: at.start + 15, close },
            )
            &&& parse_slots_spec(rewritten.subrange(at.start + 15, close), 0) == Ok::<
                Seq<SlotModel>,
                DemonaxError,
            >(placed)
            &&& numbered(placed, slot) == seq![SlotModel { slot_number: slot, item: gift }]
            &&& forall|m: int| m != slot ==> #[trigger] numbered(placed, m) == numbered(slots, m)
        }),
{
    let at = locate_spec(document).unwrap();
    let content = document.subrange(at.content_start, at.close);
    let slots = parse_slots_spec(content, 0).unwrap();
    let placed = with_slot(slots, slot, gift);
    let rewritten = gift_spec(document, name, gift, slot).1.unwrap();
    let w = section_text(placed);
    let x = SlotModel { slot_number: slot, item: gift };
    lemma_locate_bounds(document);
    lemma_parsed_slots_readable(content, 0);
    lemma_with_slot_readable(slots, slot, gift);
    // the new document, piece by piece
    assert(rewritten == document.take(at.start) + w + document.skip(at.close + 1));
    assert(rewritten.take(at.start) =~= document.take(at.start));
    assert(rewritten.skip(at.start + w.len()) =~= document.skip(at.close + 1));
    assert(has_at(rewritten, w, at.start)) by {
        assert(rewritten.subrange(at.start, at.start + w.len()) =~= w);
    }
    // the section is found where it was
    lemma_sort_slots_len(placed);
    lemma_sort_readable(placed);
    lemma_slots_text_balanced(sort_slots(placed), placed.len() as int);
    lemma_relocated(document, at.start, rewritten, placed);
    // and read as it was written
    law_section_read_back(placed);
    lemma_sort_ascending(without_slot(slots, slot).push(x));
    lemma_sort_fixed(placed);
    // the present is in its slot, the other slots are as they were
    law_set_slot_occupies(slots, slot, gift);
    assert forall|m: int| m != slot implies #[trigger] numbered(placed, m) == numbered(
        slots,
        m,
    ) by {
        lemma_sort_numbered(without_slot(slots, slot).push(x), m);
        lemma_numbered_push(without_slot(slots, slot), x, m);
        lemma_without_numbered(slots, slot, m);
    }
}

/// **A comma inside braces separates nothing.** The comma at which a list
/// of items is split stands outside all braces: between the start of a
/// piece and the comma that ends it, every brace that is opened is closed.
pub proof fn law_split_outside_braces(text: Seq<char>, from: int, depth: int)
    requires
        0 <= from <= text.len(),
    ensures
        ({
            let comma = top_level_comma(text, from, depth);
            &&& from <= comma <= text.len()
            &&& comma < text.len() ==> text[comma] == ',' && depth + balance(
                text.subrange(from, comma),
            ) == 0
            &&& forall|p: int|
                from <= p < comma && text[p] == ',' ==> depth + balance(
                    #[trigger] text.subrange(from, p),
                ) != 0
        }),
    decreases text.len() - from,
{
    let comma = top_level_comma(text, from, depth);
    assert(text.subrange(from, from) =~= Seq::<char>::empty());
    if from < text.len() && !(text[from] == ',' && depth == 0) {
        let c = text[from];
        law_split_outside_braces(text, from + 1, depth + crate::braces::brace_delta(c));
        lemma_balance_one(c);
        assert forall|p: int| from < p <= comma implies balance(
            #[trigger] text.subrange(from, p),
        ) == crate::braces::brace_delta(c) + balance(text.subrange(from + 1, p)) by {
            assert(text.subrange(from, p) =~= seq![c] + text.subrange(from + 1, p));
            lemma_balance_concat(seq![c], text.subrange(from + 1, p));
        }
    }
}

} // verus!
