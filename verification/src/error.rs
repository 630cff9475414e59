//! What can go wrong while an inventory is located, read or edited.

use crate::decimal::{decimal, push_decimal};
use vstd::prelude::*;
use vstd::string::StringExecFns;

verus! {

/// Why the text of one item could not be read.
#[derive(Debug, Clone, Copy, PartialEq, Eq, Structural)]
pub enum ItemError {
    /// No digit stands where the type id should be.
    MissingTypeId,
    /// The type id is too large for an `i32`.
    TypeIdOutOfRange,
    /// A `Content={` block is never closed.
    UnbalancedBraces,
}

/// The failures of the library. Each names the slot it was found in where
/// there is one.
#[derive(Debug, Clone, Copy, PartialEq, Eq, Structural)]
pub enum DemonaxError {
    /// The document holds no `Inventory = {`.
    SectionNotFound,
    /// The braces of the inventory section never balance.
    UnbalancedSection,
    /// A slot number is too large for an `i32`.
    SlotOutOfRange,
    /// The slot number is not followed by `Content=` and `{`.
    MissingContent { slot: i32 },
    /// The braces of the slot never balance.
    UnbalancedSlot { slot: i32 },
    /// The item of the slot could not be read.
    Item { slot: i32, error: ItemError },
    /// A span does not lie on character boundaries of its document.
    SpanOutOfRange,
    /// The bytes of a file are no text in the legacy code page.
    Undecodable,
    /// A text holds a character that the legacy code page lacks.
    Unencodable,
    /// A file or a text is too large to be converted on this machine.
    TooLarge,
    /// The rule file has no line with `BEGIN "MultiUse"`.
    MissingMultiUse,
    /// The rule file has no line with `BEGIN "Baking"`.
    MissingBaking,
    /// `BEGIN "Baking"` does not stand below `BEGIN "MultiUse"`.
    BakingBeforeMultiUse,
}

/// What `ItemError::message` says.
pub open spec fn item_error_text(e: ItemError) -> Seq<char> {
    match e {
        ItemError::MissingTypeId => "Expected type ID at start of item"@,
        ItemError::TypeIdOutOfRange => "Invalid type ID"@,
        ItemError::UnbalancedBraces => "Unmatched braces in item"@,
    }
}

/// What `DemonaxError::message` says.
pub open spec fn error_text(e: DemonaxError) -> Seq<char> {
    match e {
        DemonaxError::SectionNotFound => "Parse error: Inventory section not found"@,
        DemonaxError::UnbalancedSection => "Parse error: Unmatched braces in inventory section"@,
        DemonaxError::SlotOutOfRange => "Parse error: Invalid slot number"@,
        DemonaxError::MissingContent { slot } => "Parse error: Expected 'Content={' in slot "@
            + decimal(slot as int),
        DemonaxError::UnbalancedSlot { slot } => "Parse error: Unmatched braces in slot "@
            + decimal(slot as int),
        DemonaxError::Item { slot, error } => "Parse error: "@ + item_error_text(error)
            + " in slot "@ + decimal(slot as int),
        DemonaxError::SpanOutOfRange => "Validation error: Span outside the document"@,
        DemonaxError::Undecodable => "Parse error: Failed to decode Latin1 text"@,
        DemonaxError::Unencodable => "Failed to encode file content to Windows-1252"@,
        DemonaxError::TooLarge => "Validation error: Content too large"@,
        DemonaxError::MissingMultiUse =>
            "Parse error: Could not find BEGIN \"MultiUse\" in moveuse.dat"@,
        DemonaxError::MissingBaking => "Parse error: Could not find BEGIN \"Baking\" in moveuse.dat"@,
        DemonaxError::BakingBeforeMultiUse =>
            "Parse error: BEGIN \"Baking\" appears before BEGIN \"MultiUse\""@,
    }
}

impl ItemError {
    /// The failure in words.
    pub fn message(&self) -> (text: String)
        ensures
            text@ == item_error_text(*self),
    {
        match self {
            ItemError::MissingTypeId => String::from_str("Expected type ID at start of item"),
            ItemError::TypeIdOutOfRange => String::from_str("Invalid type ID"),
            ItemError::UnbalancedBraces => String::from_str("Unmatched braces in item"),
        }
    }
}

impl DemonaxError {
    /// The failure in words, with the slot it concerns.
    pub fn message(&self) -> (text: String)
        ensures
            text@ == error_text(*self),
    {
        match self {
            DemonaxError::SectionNotFound => String::from_str(
                "Parse error: Inventory section not found",
            ),
            DemonaxError::UnbalancedSection => String::from_str(
                "Parse error: Unmatched braces in inventory section",
            ),
            DemonaxError::SlotOutOfRange => String::from_str("Parse error: Invalid slot number"),
            DemonaxError::MissingContent { slot } => {
                let mut text = String::from_str("Parse error: Expected 'Content={' in slot ");
                push_decimal(&mut text, *slot);
                text
            },
            DemonaxError::UnbalancedSlot { slot } => {
                let mut text = String::from_str("Parse error: Unmatched braces in slot ");
                push_decimal(&mut text, *slot);
                text
            },
            DemonaxError::Item { slot, error } => {
                let mut text = String::from_str("Parse error: ");
                let reason = error.message();
                text.append(reason.as_str());
                text.append(" in slot ");
                push_decimal(&mut text, *slot);
                text
            },
            DemonaxError::SpanOutOfRange => String::from_str(
                "Validation error: Span outside the document",
            ),
            DemonaxError::Undecodable => String::from_str(
                "Parse error: Failed to decode Latin1 text",
            ),
            DemonaxError::Unencodable => String::from_str(
                "Failed to encode file content to Windows-1252",
            ),
            DemonaxError::TooLarge => String::from_str("Validation error: Content too large"),
            DemonaxError::MissingMultiUse => String::from_str(
                "Parse error: Could not find BEGIN \"MultiUse\" in moveuse.dat",
            ),
            DemonaxError::MissingBaking => String::from_str(
                "Parse error: Could not find BEGIN \"Baking\" in moveuse.dat",
            ),
            DemonaxError::BakingBeforeMultiUse => String::from_str(
                "Parse error: BEGIN \"Baking\" appears before BEGIN \"MultiUse\"",
            ),
        }
    }
}

} // verus!
