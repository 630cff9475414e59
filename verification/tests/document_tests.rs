use demonax_core::document::{extract_inventory_section, replace_inventory_section, splice};
use demonax_core::error::DemonaxError;

#[test]
fn extract_finds_content_and_byte_span() {
    let doc = "Name = \"Bob\"\nInventory   = {1 Content={3354}}\nLevel = 3\n";
    let (content, start, end) = extract_inventory_section(doc).unwrap();
    assert_eq!(content, "1 Content={3354}");
    assert_eq!(start, 13);
    assert_eq!(&doc[start..end], "Inventory   = {1 Content={3354}}");
}

#[test]
fn extract_counts_bytes_not_characters() {
    let doc = "Name = \"Zo\u{eb}\"\nInventory={7 Content={1 Content={2, 3}}} \u{20ac}";
    let (content, start, end) = extract_inventory_section(doc).unwrap();
    assert_eq!(content, "7 Content={1 Content={2, 3}}");
    assert_eq!(start, 14);
    assert_eq!(&doc[start..end], "Inventory={7 Content={1 Content={2, 3}}}");
}

#[test]
fn extract_allows_whitespace_in_the_introducer() {
    let doc = "x Inventory \t=\n {  }y";
    let (content, start, end) = extract_inventory_section(doc).unwrap();
    assert_eq!(content, "  ");
    assert_eq!(start, 2);
    assert_eq!(end, doc.len() - 1);
}

#[test]
fn extract_takes_the_first_introducer() {
    let doc = "Inventory = 5\nInventory = {1 Content={2}}\nInventory = {3 Content={4}}";
    let (content, start, _) = extract_inventory_section(doc).unwrap();
    assert_eq!(content, "1 Content={2}");
    assert_eq!(start, 14);
}

#[test]
fn extract_fails_without_a_section() {
    assert_eq!(extract_inventory_section("Name = \"Bob\"\n").err(), Some(DemonaxError::SectionNotFound));
    assert_eq!(extract_inventory_section("").err(), Some(DemonaxError::SectionNotFound));
    assert_eq!(extract_inventory_section("Inventory = ").err(), Some(DemonaxError::SectionNotFound));
}

#[test]
fn extract_fails_on_unbalanced_braces() {
    assert_eq!(
        extract_inventory_section("Inventory = {1 Content={3354}\n").err(),
        Some(DemonaxError::UnbalancedSection)
    );
}

#[test]
fn replace_keeps_everything_outside_the_section() {
    let doc = "Name = \"Bob\"\nInventory   = {1 Content={3354}}\nLevel = 3\n";
    let out = replace_inventory_section(doc, "Inventory   = {}").unwrap();
    assert_eq!(out, "Name = \"Bob\"\nInventory   = {}\nLevel = 3\n");
}

#[test]
fn replace_with_arbitrary_text_is_local() {
    let doc = "\u{e9}t\u{e9} Inventory = {{}{{}}} tail \u{20ac}";
    let out = replace_inventory_section(doc, "<<\u{fc}>>").unwrap();
    assert_eq!(out, "\u{e9}t\u{e9} <<\u{fc}>> tail \u{20ac}");
}

#[test]
fn replace_fails_where_extract_fails() {
    assert_eq!(replace_inventory_section("nothing", "x").err(), Some(DemonaxError::SectionNotFound));
    assert_eq!(
        replace_inventory_section("Inventory={", "x").err(),
        Some(DemonaxError::UnbalancedSection)
    );
}

#[test]
fn splice_replaces_a_byte_span() {
    assert_eq!(splice("hello world", 6, 11, "there").unwrap(), "hello there");
    assert_eq!(splice("abc", 0, 0, "x").unwrap(), "xabc");
    assert_eq!(splice("abc", 3, 3, "x").unwrap(), "abcx");
    assert_eq!(splice("abc", 0, 3, "").unwrap(), "");
}

#[test]
fn splice_rejects_spans_outside_the_document() {
    assert_eq!(splice("abc", 2, 4, "x").err(), Some(DemonaxError::SpanOutOfRange));
    assert_eq!(splice("abc", 2, 1, "x").err(), Some(DemonaxError::SpanOutOfRange));
    assert_eq!(splice("abc", 4, 4, "x").err(), Some(DemonaxError::SpanOutOfRange));
}

#[test]
fn splice_rejects_spans_that_cut_a_character() {
    let doc = "a\u{e9}b";
    assert_eq!(splice(doc, 2, 3, "x").err(), Some(DemonaxError::SpanOutOfRange));
    assert_eq!(splice(doc, 1, 2, "x").err(), Some(DemonaxError::SpanOutOfRange));
    assert_eq!(splice(doc, 1, 3, "x").unwrap(), "axb");
}
