use demonax_core::document::extract_inventory_section;
use demonax_core::inventory::{InventoryItem, InventorySection};
use demonax_core::latin1::{decode_latin1, encode_latin1};
use demonax_core::error::DemonaxError;
use demonax_core::present::{
    apply_present, apply_present_as, apply_present_to_bytes, extract_player_name,
    name_or_unknown, ContainerConfig, GiftResult, GiftSummary, PresentConfig, PresentItemConfig,
};

fn sample_config() -> PresentConfig {
    PresentConfig {
        container: ContainerConfig { type_id: 2854 },
        items: vec![
            PresentItemConfig { type_id: 3726, amount: Some(99), charges: None },
            PresentItemConfig { type_id: 3155, amount: None, charges: Some(35) },
        ],
    }
}

fn small_config() -> PresentConfig {
    PresentConfig {
        container: ContainerConfig { type_id: 2854 },
        items: vec![PresentItemConfig { type_id: 3726, amount: Some(99), charges: None }],
    }
}

#[test]
fn test_config_to_inventory_item() {
    let config = sample_config();
    let item = config.to_inventory_item();

    assert_eq!(item.type_id, 2854);
    assert_eq!(item.contents.len(), 2);
    assert_eq!(item.contents[0].type_id, 3726);
    assert_eq!(item.contents[0].amount, Some(99));
    assert_eq!(item.contents[1].type_id, 3155);
    assert_eq!(item.contents[1].charges, Some(35));
}

#[test]
fn test_inventory_item_serialization() {
    let config = sample_config();
    let item = config.to_inventory_item();
    let serialized = item.serialize();

    assert_eq!(serialized, "2854 Content={3726 Amount=99, 3155 Charges=35}");
}

#[test]
fn present_without_items_is_a_plain_container() {
    let config = PresentConfig { container: ContainerConfig { type_id: 9 }, items: vec![] };
    assert_eq!(config.to_inventory_item(), InventoryItem::new(9));
}

#[test]
fn end_to_end_gift() {
    let doc = "Name = \"Bob\"\nInventory   = {1 Content={3354}}\n";
    let (result, rewritten) = apply_present(doc, &small_config(), 10);
    assert!(result.is_gifted());
    assert!(!result.is_skipped());
    assert_eq!(result.player_name(), "Bob");
    assert_eq!(
        rewritten.unwrap(),
        "Name = \"Bob\"\nInventory   = {1 Content={3354},\n               10 Content={2854 Content={3726 Amount=99}}}\n"
    );
}

#[test]
fn end_to_end_gift_on_bytes() {
    let doc = b"Name = \"Bob\"\nInventory   = {1 Content={3354}}\n";
    let (result, bytes) = apply_present_to_bytes("bob.usr", doc, &small_config(), 10, false);
    assert!(matches!(&result, GiftResult::Gifted { player_name } if player_name == "Bob"));
    let expected: &[u8] = b"Name = \"Bob\"\nInventory   = {1 Content={3354},\n               10 Content={2854 Content={3726 Amount=99}}}\n";
    assert_eq!(bytes.unwrap(), expected);
}

#[test]
fn gift_on_bytes_keeps_legacy_characters() {
    let mut doc: Vec<u8> = b"Name = \"Zo".to_vec();
    doc.push(0xEB);
    doc.extend_from_slice(b"\"\nInventory = {}\nGuild = \"");
    doc.push(0x80);
    doc.extend_from_slice(b"\"\n");
    let (result, bytes) = apply_present_to_bytes("zoe.usr", &doc, &small_config(), 10, false);
    assert_eq!(result.player_name(), "Zo\u{eb}");
    assert!(result.is_gifted());
    let mut expected: Vec<u8> = b"Name = \"Zo".to_vec();
    expected.push(0xEB);
    expected.extend_from_slice(
        b"\"\nInventory   = {10 Content={2854 Content={3726 Amount=99}}}\nGuild = \"",
    );
    expected.push(0x80);
    expected.extend_from_slice(b"\"\n");
    assert_eq!(bytes.unwrap(), expected);
}

#[test]
fn dry_run_writes_nothing() {
    let doc = b"Name = \"Bob\"\nInventory   = {1 Content={3354}}\n";
    let (result, bytes) = apply_present_to_bytes("bob.usr", doc, &small_config(), 10, true);
    assert!(result.is_gifted());
    assert!(bytes.is_none());
}

#[test]
fn occupied_slot_short_circuits() {
    let doc = "Name = \"Ann\"\nInventory   = {10 Content={3354}}\n";
    let (result, rewritten) = apply_present(doc, &small_config(), 10);
    assert!(result.is_skipped());
    assert!(!result.is_gifted());
    assert_eq!(result.player_name(), "Ann");
    assert!(rewritten.is_none());

    let (result, bytes) = apply_present_to_bytes("ann.usr", doc.as_bytes(), &small_config(), 10, false);
    assert!(matches!(&result, GiftResult::SlotOccupied { player_name } if player_name == "Ann"));
    assert!(bytes.is_none());
}

#[test]
fn gift_reports_missing_section() {
    let (result, rewritten) = apply_present("Name = \"Cy\"\n", &small_config(), 10);
    match result {
        GiftResult::Error { player_name, error } => {
            assert_eq!(player_name, "Cy");
            assert_eq!(error, "Failed to extract inventory: Parse error: Inventory section not found");
        }
        other => panic!("unexpected {:?}", other),
    }
    assert!(rewritten.is_none());
}

#[test]
fn gift_reports_unbalanced_section() {
    let (result, _) = apply_present("Inventory = {1 Content={2}", &small_config(), 10);
    match result {
        GiftResult::Error { player_name, error } => {
            assert_eq!(player_name, "Unknown");
            assert_eq!(
                error,
                "Failed to extract inventory: Parse error: Unmatched braces in inventory section"
            );
        }
        other => panic!("unexpected {:?}", other),
    }
}

#[test]
fn gift_reports_parse_failure() {
    let (result, rewritten) = apply_present("Inventory = {4 Content={x}}", &small_config(), 10);
    match result {
        GiftResult::Error { player_name, error } => {
            assert_eq!(player_name, "Unknown");
            assert_eq!(
                error,
                "Failed to parse inventory: Parse error: Expected type ID at start of item in slot 4"
            );
        }
        other => panic!("unexpected {:?}", other),
    }
    assert!(rewritten.is_none());
}

#[test]
fn gift_reports_unencodable_text() {
    // Behind a byte order mark the file is read as UTF-8, and may then hold
    // a character that the legacy code page lacks.
    let mut doc: Vec<u8> = vec![0xEF, 0xBB, 0xBF];
    doc.extend_from_slice("Name = \"Bob\"\nInventory = {}\nNote = \"\u{4e2d}\"\n".as_bytes());
    let (result, bytes) = apply_present_to_bytes("bob.usr", &doc, &small_config(), 10, false);
    match result {
        GiftResult::Error { player_name, error } => {
            assert_eq!(player_name, "Bob");
            assert_eq!(error, "Failed to encode file content to Windows-1252");
        }
        other => panic!("unexpected {:?}", other),
    }
    assert!(bytes.is_none());
    assert_eq!(encode_latin1("\u{4e2d}").err(), Some(DemonaxError::Unencodable));

    // In a dry run nothing is encoded, so nothing fails.
    let (result, bytes) = apply_present_to_bytes("bob.usr", &doc, &small_config(), 10, true);
    assert!(result.is_gifted());
    assert!(bytes.is_none());
}

#[test]
fn name_under_which_a_gift_is_reported_can_be_given() {
    let (result, _) = apply_present_as("Given".to_string(), "Inventory={}", &small_config(), 1);
    assert!(matches!(&result, GiftResult::Gifted { player_name } if player_name == "Given"));
}

#[test]
fn player_name_is_read_from_the_name_line() {
    assert_eq!(extract_player_name("Name = \"Bob\"\n"), "Bob");
    assert_eq!(extract_player_name("ID = 1\nName=\"Sir Lancelot\"\nX"), "Sir Lancelot");
    assert_eq!(extract_player_name("Name = \"\"\nName = \"Second\""), "Second");
    assert_eq!(extract_player_name("no name here"), "Unknown");
    assert_eq!(extract_player_name(""), "Unknown");
}

#[test]
fn name_or_unknown_falls_back() {
    assert_eq!(name_or_unknown(Some("Eve".to_string())), "Eve");
    assert_eq!(name_or_unknown(None), "Unknown");
}

#[test]
fn latin1_decodes_and_encodes_single_bytes() {
    assert_eq!(decode_latin1(&[0x41, 0xE9, 0x80]).unwrap(), "A\u{e9}\u{20ac}");
    assert_eq!(encode_latin1("A\u{e9}\u{20ac}").unwrap(), vec![0x41, 0xE9, 0x80]);
    assert_eq!(decode_latin1(b"").unwrap(), "");
    assert_eq!(encode_latin1("").unwrap(), Vec::<u8>::new());
}

#[test]
fn latin1_reports_malformed_input_behind_a_byte_order_mark() {
    assert_eq!(decode_latin1(&[0xEF, 0xBB, 0xBF, 0xFF]).err(), Some(DemonaxError::Undecodable));
    assert_eq!(decode_latin1(&[0xEF, 0xBB, 0xBF, 0x41]).unwrap(), "A");
}

#[test]
fn unreadable_bytes_are_reported_under_the_source() {
    let (result, bytes) =
        apply_present_to_bytes("players/7.usr", &[0xEF, 0xBB, 0xBF, 0xFF], &small_config(), 10, false);
    match result {
        GiftResult::Error { player_name, error } => {
            assert_eq!(player_name, "players/7.usr");
            assert_eq!(error, "Failed to read file: Parse error: Failed to decode Latin1 text");
        }
        other => panic!("unexpected {:?}", other),
    }
    assert!(bytes.is_none());
}

#[test]
fn summary_counts_each_category() {
    let mut summary = GiftSummary::new();
    assert_eq!(summary.total_processed, 0);
    summary.add_result(&GiftResult::Gifted { player_name: "a".to_string() });
    summary.add_result(&GiftResult::Gifted { player_name: "b".to_string() });
    summary.add_result(&GiftResult::SlotOccupied { player_name: "c".to_string() });
    summary.add_result(&GiftResult::Error { player_name: "d".to_string(), error: "e".to_string() });
    assert_eq!(summary.total_processed, 4);
    assert_eq!(summary.gifted, 2);
    assert_eq!(summary.skipped, 1);
    assert_eq!(summary.errors, 1);
    let fresh = GiftSummary::default();
    assert_eq!(fresh.total_processed + fresh.gifted + fresh.skipped + fresh.errors, 0);
}

#[test]
fn gifted_document_reads_back_with_the_present_in_its_slot() {
    let doc = "Inventory = {7}\nName = \"Kay\"\nInventory   = {12 Content={5}, 3 Content={2854 Content={1, 2}}}\nEnd";
    // The first `Inventory = {` introduces the section, whatever it holds.
    let (result, _) = apply_present(doc, &small_config(), 10);
    assert!(matches!(&result, GiftResult::Error { player_name, .. } if player_name == "Kay"));

    let doc = "Name = \"Kay\"\nInventory   = {12 Content={5}, 3 Content={2854 Content={1, 2}}}\nEnd";
    let (result, rewritten) = apply_present(doc, &small_config(), 10);
    assert!(result.is_gifted());
    let rewritten = rewritten.unwrap();
    let (content, start, end) = extract_inventory_section(&rewritten).unwrap();
    assert_eq!(start, 13);
    assert_eq!(&rewritten[..start], &doc[..13]);
    assert_eq!(&rewritten[end..], "\nEnd");
    let section = InventorySection::parse(&content).unwrap();
    let numbers: Vec<i32> = section.slots.iter().map(|s| s.slot_number).collect();
    assert_eq!(numbers, vec![3, 10, 12]);
    assert_eq!(section.slots[1].item, small_config().to_inventory_item());
    assert_eq!(
        section.slots[0].item,
        InventoryItem::container(2854, vec![InventoryItem::new(1), InventoryItem::new(2)])
    );
}
