use demonax_core::error::{DemonaxError, ItemError};
use demonax_core::inventory::{
    parse_item, parse_item_list, InventoryItem, InventorySection, InventorySlot,
};

#[test]
fn test_parse_empty_inventory() {
    let inv = InventorySection::parse("").unwrap();
    assert!(inv.slots.is_empty());
}

#[test]
fn test_parse_simple_inventory() {
    let content = "1 Content={3354}";
    let inv = InventorySection::parse(content).unwrap();
    assert_eq!(inv.slots.len(), 1);
    assert_eq!(inv.slots[0].slot_number, 1);
    assert_eq!(inv.slots[0].item.type_id, 3354);
}

#[test]
fn test_parse_inventory_with_amount() {
    let content = "1 Content={3031 Amount=40}";
    let inv = InventorySection::parse(content).unwrap();
    assert_eq!(inv.slots[0].item.type_id, 3031);
    assert_eq!(inv.slots[0].item.amount, Some(40));
}

#[test]
fn test_parse_inventory_with_charges() {
    let content = "1 Content={3155 Charges=35}";
    let inv = InventorySection::parse(content).unwrap();
    assert_eq!(inv.slots[0].item.type_id, 3155);
    assert_eq!(inv.slots[0].item.charges, Some(35));
}

#[test]
fn test_parse_container_with_contents() {
    let content = "3 Content={2854 Content={2853, 3031 Amount=40}}";
    let inv = InventorySection::parse(content).unwrap();
    assert_eq!(inv.slots[0].slot_number, 3);
    assert_eq!(inv.slots[0].item.type_id, 2854);
    assert_eq!(inv.slots[0].item.contents.len(), 2);
    assert_eq!(inv.slots[0].item.contents[0].type_id, 2853);
    assert_eq!(inv.slots[0].item.contents[1].type_id, 3031);
    assert_eq!(inv.slots[0].item.contents[1].amount, Some(40));
}

#[test]
fn test_serialize_simple_item() {
    let item = InventoryItem::new(3354);
    assert_eq!(item.serialize(), "3354");
}

#[test]
fn test_serialize_item_with_amount() {
    let item = InventoryItem::with_amount(3031, 40);
    assert_eq!(item.serialize(), "3031 Amount=40");
}

#[test]
fn test_serialize_container() {
    let item = InventoryItem::container(
        2854,
        vec![InventoryItem::new(2853), InventoryItem::with_amount(3031, 40)],
    );
    assert_eq!(item.serialize(), "2854 Content={2853, 3031 Amount=40}");
}

#[test]
fn test_serialize_empty_inventory() {
    let inv = InventorySection::new();
    assert_eq!(inv.serialize(), "Inventory   = {}");
}

#[test]
fn test_is_slot_empty() {
    let mut inv = InventorySection::new();
    assert!(inv.is_slot_empty(10));

    inv.set_slot(10, InventoryItem::new(3354));
    assert!(!inv.is_slot_empty(10));
    assert!(inv.is_slot_empty(5));
}

#[test]
fn test_roundtrip_complex_inventory() {
    let original = "1 Content={3354},\n               3 Content={2854 Content={2853, 3031 Amount=40}},\n               10 Content={2854 Content={3449 Amount=100, 3155 Charges=35}}";
    let inv = InventorySection::parse(original).unwrap();

    assert_eq!(inv.slots.len(), 3);
    assert_eq!(inv.slots[0].slot_number, 1);
    assert_eq!(inv.slots[1].slot_number, 3);
    assert_eq!(inv.slots[2].slot_number, 10);
}

#[test]
fn roundtrip_renders_the_same_text_again() {
    let original = "1 Content={3354},\n               3 Content={2854 Content={2853, 3031 Amount=40}},\n               10 Content={2854 Content={3449 Amount=100, 3155 Charges=35}}";
    let inv = InventorySection::parse(original).unwrap();
    let text = inv.serialize();
    assert_eq!(text, format!("Inventory   = {{{}}}", original));
    let body = &text["Inventory   = {".len()..text.len() - 1];
    let again = InventorySection::parse(body).unwrap();
    assert_eq!(again.slots.len(), 3);
    for (a, b) in inv.slots.iter().zip(again.slots.iter()) {
        assert_eq!(a.slot_number, b.slot_number);
        assert_eq!(a.item, b.item);
    }
}

#[test]
fn roundtrip_of_irregular_spacing_keeps_the_tree() {
    let source = "  7   Content= { 2854  Charges = 5  Amount =3 Content={ 1 , ,2 Content={3,4} } } , 2 Content={9}";
    let first = InventorySection::parse(source).unwrap();
    assert_eq!(first.slots.len(), 2);
    assert_eq!(first.slots[0].slot_number, 7);
    let text = first.serialize();
    assert_eq!(
        text,
        "Inventory   = {2 Content={9},\n               7 Content={2854 Amount=3 Charges=5 Content={1, 2 Content={3, 4}}}}"
    );
    let body = &text["Inventory   = {".len()..text.len() - 1];
    let second = InventorySection::parse(body).unwrap();
    assert_eq!(second.slots.len(), 2);
    assert_eq!(second.slots[0].slot_number, 2);
    assert_eq!(second.slots[1].slot_number, 7);
    assert_eq!(second.slots[1].item, first.slots[0].item);
    assert_eq!(second.slots[0].item, first.slots[1].item);
}

#[test]
fn depth_is_preserved() {
    let inv = InventorySection::parse("3 Content={2854 Content={2853, 3031 Amount=40}}").unwrap();
    assert_eq!(inv.slots.len(), 1);
    assert_eq!(inv.slots[0].slot_number, 3);
    let expected = InventoryItem::container(
        2854,
        vec![InventoryItem::new(2853), InventoryItem::with_amount(3031, 40)],
    );
    assert_eq!(inv.slots[0].item, expected);
}

#[test]
fn attribute_of_nested_item_is_not_the_containers() {
    let item = parse_item("2854 Content={3031 Amount=40, 3155 Charges=35}").unwrap();
    assert_eq!(item.amount, None);
    assert_eq!(item.charges, None);
    assert_eq!(item.contents[0].amount, Some(40));
    assert_eq!(item.contents[1].charges, Some(35));
}

#[test]
fn comma_inside_nested_content_does_not_split() {
    let items = parse_item_list("1 Content={2, 3}, 4 Content={5 Content={6, 7}, 8}").unwrap();
    assert_eq!(items.len(), 2);
    assert_eq!(items[0].type_id, 1);
    assert_eq!(items[0].contents.len(), 2);
    assert_eq!(items[1].type_id, 4);
    assert_eq!(items[1].contents.len(), 2);
    assert_eq!(items[1].contents[0].contents.len(), 2);
    assert_eq!(items[1].contents[1].type_id, 8);

    let inv = InventorySection::parse("1 Content={10 Content={11, 12}}, 2 Content={20}").unwrap();
    assert_eq!(inv.slots.len(), 2);
    assert_eq!(inv.slots[0].item.contents.len(), 2);
}

#[test]
fn blank_pieces_of_a_list_are_skipped() {
    let items = parse_item_list(" 1,, 2 , ").unwrap();
    assert_eq!(items.len(), 2);
    assert_eq!(items[0], InventoryItem::new(1));
    assert_eq!(items[1], InventoryItem::new(2));
    assert!(parse_item_list("").unwrap().is_empty());
    assert!(parse_item_list("   ").unwrap().is_empty());
}

#[test]
fn whitespace_only_inventory_has_no_slots() {
    assert!(InventorySection::parse("  \n\t ").unwrap().slots.is_empty());
}

#[test]
fn reading_stops_at_trailing_garbage() {
    let inv = InventorySection::parse("1 Content={3354}, garbage 2 Content={5}").unwrap();
    assert_eq!(inv.slots.len(), 1);
    assert_eq!(inv.slots[0].slot_number, 1);
}

#[test]
fn slot_overwrite_keeps_one_slot_with_the_latest_item() {
    let mut inv = InventorySection::parse("1 Content={3354}, 20 Content={7}").unwrap();
    inv.set_slot(10, InventoryItem::new(100));
    inv.set_slot(10, InventoryItem::with_charges(200, 3));
    let tens: Vec<&InventorySlot> = inv.slots.iter().filter(|s| s.slot_number == 10).collect();
    assert_eq!(tens.len(), 1);
    assert_eq!(tens[0].item, InventoryItem::with_charges(200, 3));
    assert_eq!(inv.slots.len(), 3);
    assert_eq!(inv.slots[0].slot_number, 1);
    assert_eq!(inv.slots[1].slot_number, 10);
    assert_eq!(inv.slots[2].slot_number, 20);
}

#[test]
fn set_slot_sorts_slots_read_out_of_order() {
    let mut inv = InventorySection::parse("5 Content={50}, 2 Content={20}, 9 Content={90}").unwrap();
    assert_eq!(inv.slots[0].slot_number, 5);
    inv.set_slot(3, InventoryItem::new(30));
    let numbers: Vec<i32> = inv.slots.iter().map(|s| s.slot_number).collect();
    assert_eq!(numbers, vec![2, 3, 5, 9]);
}

#[test]
fn serialize_emits_slots_in_ascending_order() {
    let inv = InventorySection {
        slots: vec![
            InventorySlot::new(10, InventoryItem::new(1)),
            InventorySlot::new(2, InventoryItem::with_amount(3, 4)),
        ],
    };
    assert_eq!(
        inv.serialize(),
        "Inventory   = {2 Content={3 Amount=4},\n               10 Content={1}}"
    );
}

#[test]
fn serialize_item_emits_amount_before_charges() {
    let item = InventoryItem {
        type_id: 5,
        amount: Some(0),
        charges: Some(12),
        contents: vec![InventoryItem::new(6)],
    };
    assert_eq!(item.serialize(), "5 Amount=0 Charges=12 Content={6}");
    let read = parse_item("5 Charges=12 Amount=0 Content={6}").unwrap();
    assert_eq!(read, item);
}

#[test]
fn serialize_slot_wraps_the_item() {
    let slot = InventorySlot::new(3, InventoryItem::with_charges(3155, 35));
    assert_eq!(slot.serialize(), "3 Content={3155 Charges=35}");
}

#[test]
fn serialize_negative_and_extreme_numbers() {
    assert_eq!(InventoryItem::new(-7).serialize(), "-7");
    assert_eq!(InventoryItem::new(i32::MIN).serialize(), "-2147483648");
    assert_eq!(InventoryItem::with_amount(i32::MAX, 0).serialize(), "2147483647 Amount=0");
}

#[test]
fn unbalanced_braces_are_rejected() {
    let r = InventorySection::parse("1 Content={2854 Content={2853}");
    assert_eq!(r.err(), Some(DemonaxError::UnbalancedSlot { slot: 1 }));
}

#[test]
fn unbalanced_item_is_rejected() {
    assert_eq!(parse_item("2854 Content={2853").err(), Some(ItemError::UnbalancedBraces));
    assert_eq!(
        parse_item_list("1, 2 Content={3 Content={4}").err(),
        Some(ItemError::UnbalancedBraces)
    );
}

#[test]
fn missing_type_id_is_rejected() {
    assert_eq!(parse_item("").err(), Some(ItemError::MissingTypeId));
    assert_eq!(parse_item("Amount=4").err(), Some(ItemError::MissingTypeId));
    assert_eq!(
        InventorySection::parse("4 Content={x}").err(),
        Some(DemonaxError::Item { slot: 4, error: ItemError::MissingTypeId })
    );
    assert_eq!(
        InventorySection::parse("4 Content={1 Content={2, y}}").err(),
        Some(DemonaxError::Item { slot: 4, error: ItemError::MissingTypeId })
    );
}

#[test]
fn numbers_beyond_i32_are_rejected() {
    assert_eq!(parse_item("2147483647").unwrap().type_id, 2147483647);
    assert_eq!(parse_item("2147483648").err(), Some(ItemError::TypeIdOutOfRange));
    assert_eq!(parse_item("99999999999999999999999").err(), Some(ItemError::TypeIdOutOfRange));
    assert_eq!(
        InventorySection::parse("2147483648 Content={1}").err(),
        Some(DemonaxError::SlotOutOfRange)
    );
    assert_eq!(
        InventorySection::parse("1 Content={2147483648}").err(),
        Some(DemonaxError::Item { slot: 1, error: ItemError::TypeIdOutOfRange })
    );
    assert_eq!(parse_item("5 Amount=2147483648").unwrap().amount, None);
    assert_eq!(parse_item("5 Amount=0002147483647").unwrap().amount, Some(2147483647));
}

#[test]
fn missing_content_is_rejected() {
    assert_eq!(
        InventorySection::parse("1 Contents={3354}").err(),
        Some(DemonaxError::MissingContent { slot: 1 })
    );
    assert_eq!(
        InventorySection::parse("1 Content=3354").err(),
        Some(DemonaxError::MissingContent { slot: 1 })
    );
    assert_eq!(
        InventorySection::parse("1 Content={3354}, 12").err(),
        Some(DemonaxError::MissingContent { slot: 12 })
    );
}

#[test]
fn only_the_first_attribute_counts() {
    let item = parse_item("7 Amount=1 Amount=2 Charges = 3 Charges=4").unwrap();
    assert_eq!(item.amount, Some(1));
    assert_eq!(item.charges, Some(3));
    let odd = parse_item("7 Amount= Amount=9").unwrap();
    assert_eq!(odd.amount, Some(9));
}

#[test]
fn content_marker_without_brace_gives_no_contents() {
    let item = parse_item("7 Content=8").unwrap();
    assert_eq!(item, InventoryItem::new(7));
}

#[test]
fn error_messages_name_the_slot() {
    assert_eq!(
        DemonaxError::MissingContent { slot: 12 }.message(),
        "Parse error: Expected 'Content={' in slot 12"
    );
    assert_eq!(
        DemonaxError::Item { slot: 3, error: ItemError::MissingTypeId }.message(),
        "Parse error: Expected type ID at start of item in slot 3"
    );
    assert_eq!(DemonaxError::SectionNotFound.message(), "Parse error: Inventory section not found");
    assert_eq!(ItemError::UnbalancedBraces.message(), "Unmatched braces in item");
}

#[test]
fn clone_copies_the_whole_tree() {
    let item = parse_item("1 Amount=2 Content={3 Content={4 Charges=5}, 6}").unwrap();
    let copy = item.clone();
    assert_eq!(copy, item);
    assert_eq!(copy.serialize(), "1 Amount=2 Content={3 Content={4 Charges=5}, 6}");
}

#[test]
fn every_error_has_its_message() {
    assert_eq!(
        DemonaxError::UnbalancedSection.message(),
        "Parse error: Unmatched braces in inventory section"
    );
    assert_eq!(DemonaxError::SlotOutOfRange.message(), "Parse error: Invalid slot number");
    assert_eq!(
        DemonaxError::UnbalancedSlot { slot: -3 }.message(),
        "Parse error: Unmatched braces in slot -3"
    );
    assert_eq!(
        DemonaxError::Item { slot: 0, error: ItemError::TypeIdOutOfRange }.message(),
        "Parse error: Invalid type ID in slot 0"
    );
    assert_eq!(
        DemonaxError::Item { slot: 2147483647, error: ItemError::UnbalancedBraces }.message(),
        "Parse error: Unmatched braces in item in slot 2147483647"
    );
    assert_eq!(
        DemonaxError::SpanOutOfRange.message(),
        "Validation error: Span outside the document"
    );
    assert_eq!(DemonaxError::Undecodable.message(), "Parse error: Failed to decode Latin1 text");
    assert_eq!(
        DemonaxError::Unencodable.message(),
        "Failed to encode file content to Windows-1252"
    );
    assert_eq!(DemonaxError::TooLarge.message(), "Validation error: Content too large");
    assert_eq!(
        DemonaxError::MissingMultiUse.message(),
        "Parse error: Could not find BEGIN \"MultiUse\" in moveuse.dat"
    );
    assert_eq!(
        DemonaxError::BakingBeforeMultiUse.message(),
        "Parse error: BEGIN \"Baking\" appears before BEGIN \"MultiUse\""
    );
    assert_eq!(ItemError::MissingTypeId.message(), "Expected type ID at start of item");
    assert_eq!(ItemError::TypeIdOutOfRange.message(), "Invalid type ID");
}

#[test]
fn unicode_whitespace_is_whitespace() {
    let inv = InventorySection::parse("\u{a0}1\u{2003}Content=\u{3000}{\u{a0}7\u{a0}}").unwrap();
    assert_eq!(inv.slots.len(), 1);
    assert_eq!(inv.slots[0].item, InventoryItem::new(7));
}
