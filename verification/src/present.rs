//! Presents: a container with a fixed list of items, put into one slot of a
//! player's inventory unless that slot is taken.

use crate::document::{extract_inventory_section, locate_spec, replace_inventory_section};
use crate::error::error_text;
use crate::grammar::{has_slot, parse_slots_spec, section_text, with_slot, ItemModel};
use crate::inventory::{option_int, InventoryItem, InventorySection};
use crate::latin1::{
    bytes_view, decode_latin1, decode_outcome, encode_latin1, encode_outcome, windows_1252_decoded,
    windows_1252_encoded,
};
use crate::offsets::byte_len;
use vstd::prelude::*;
use vstd::string::StringExecFns;

verus! {

/// The container of a present.
#[derive(Debug, Clone)]
pub struct ContainerConfig {
    pub type_id: i32,
}

/// One item inside a present.
#[derive(Debug, Clone)]
pub struct PresentItemConfig {
    pub type_id: i32,
    pub amount: Option<i32>,
    pub charges: Option<i32>,
}

/// A present: its container and what the container holds, in order.
#[derive(Debug, Clone)]
pub struct PresentConfig {
    pub container: ContainerConfig,
    pub items: Vec<PresentItemConfig>,
}

/// What became of one player file.
#[derive(Debug, Clone)]
pub enum GiftResult {
    /// The present was put into the slot.
    Gifted { player_name: String },
    /// The slot was taken; the file stays as it is.
    SlotOccupied { player_name: String },
    /// The file could not be processed.
    Error { player_name: String, error: String },
}

/// A `GiftResult` as a value.
pub enum GiftOutcome {
    Gifted { player_name: Seq<char> },
    SlotOccupied { player_name: Seq<char> },
    Error { player_name: Seq<char>, error: Seq<char> },
}

impl View for GiftResult {
    type V = GiftOutcome;

    open spec fn view(&self) -> GiftOutcome {
        match self {
            GiftResult::Gifted { player_name } => GiftOutcome::Gifted { player_name: player_name@ },
            GiftResult::SlotOccupied { player_name } => GiftOutcome::SlotOccupied {
                player_name: player_name@,
            },
            GiftResult::Error { player_name, error } => GiftOutcome::Error {
                player_name: player_name@,
                error: error@,
            },
        }
    }
}

impl GiftOutcome {
    /// The name that the outcome was reported under.
    pub open spec fn name(self) -> Seq<char> {
        match self {
            GiftOutcome::Gifted { player_name } => player_name,
            GiftOutcome::SlotOccupied { player_name } => player_name,
            GiftOutcome::Error { player_name, .. } => player_name,
        }
    }
}

/// The counts of a run over many files.
#[derive(Debug)]
pub struct GiftSummary {
    pub total_processed: usize,
    pub gifted: usize,
    pub skipped: usize,
    pub errors: usize,
}

/// The item that a present stands for: the container, holding one plain
/// item for each entry of the list.
pub open spec fn present_model(config: PresentConfig) -> ItemModel {
    ItemModel {
        type_id: config.container.type_id as int,
        amount: None,
        charges: None,
        contents: Seq::new(
            config.items@.len(),
            |i: int|
                ItemModel {
                    type_id: config.items@[i].type_id as int,
                    amount: option_int(config.items@[i].amount),
                    charges: option_int(config.items@[i].charges),
                    contents: Seq::empty(),
                },
        ),
    }
}

impl PresentConfig {
    /// The present as an inventory item.
    pub fn to_inventory_item(&self) -> (item: InventoryItem)
        ensures
            item@ == present_model(*self),
    {
        let mut contents: Vec<InventoryItem> = Vec::new();
        let mut i: usize = 0;
        while i < self.items.len()
            invariant
                i <= self.items@.len(),
                contents@.len() == i,
                forall|k: int|
                    0 <= k < i ==> (#[trigger] contents@[k])@ == present_model(*self).contents[k],
            decreases self.items@.len() - i,
        {
            let entry = &self.items[i];
            let item = InventoryItem {
                type_id: entry.type_id,
                amount: entry.amount,
                charges: entry.charges,
                contents: Vec::new(),
            };
            assert(item@.contents =~= Seq::<ItemModel>::empty());
            contents.push(item);
            i += 1;
        }
        let item = InventoryItem::container(self.container.type_id, contents);
        assert(item@.contents =~= present_model(*self).contents);
        item
    }
}

impl GiftResult {
    pub fn is_gifted(&self) -> (r: bool)
        ensures
            r == (self@ is Gifted),
    {
        match self {
            GiftResult::Gifted { .. } => true,
            _ => false,
        }
    }

    pub fn is_skipped(&self) -> (r: bool)
        ensures
            r == (self@ is SlotOccupied),
    {
        match self {
            GiftResult::SlotOccupied { .. } => true,
            _ => false,
        }
    }

    pub fn player_name(&self) -> (name: &str)
        ensures
            name@ == self@.name(),
    {
        match self {
            GiftResult::Gifted { player_name } => player_name.as_str(),
            GiftResult::SlotOccupied { player_name } => player_name.as_str(),
            GiftResult::Error { player_name, .. } => player_name.as_str(),
        }
    }
}

impl GiftSummary {
    /// The counts before the first file.
    pub fn new() -> (summary: Self)
        ensures
            summary.total_processed == 0,
            summary.gifted == 0,
            summary.skipped == 0,
            summary.errors == 0,
    {
        Self { total_processed: 0, gifted: 0, skipped: 0, errors: 0 }
    }

    /// Counts one more file, under what became of it.
    pub fn add_result(&mut self, result: &GiftResult)
        requires
            old(self).total_processed < usize::MAX,
            result@ is Gifted ==> old(self).gifted < usize::MAX,
            result@ is SlotOccupied ==> old(self).skipped < usize::MAX,
            result@ is Error ==> old(self).errors < usize::MAX,
        ensures
            final(self).total_processed == old(self).total_processed + 1,
            final(self).gifted == old(self).gifted + (if result@ is Gifted {
                1int
            } else {
                0
            }),
            final(self).skipped == old(self).skipped + (if result@ is SlotOccupied {
                1int
            } else {
                0
            }),
            final(self).errors == old(self).errors + (if result@ is Error {
                1int
            } else {
                0
            }),
    {
        self.total_processed += 1;
        match result {
            GiftResult::Gifted { .. } => {
                self.gifted += 1;
            },
            GiftResult::SlotOccupied { .. } => {
                self.skipped += 1;
            },
            GiftResult::Error { .. } => {
                self.errors += 1;
            },
        }
    }
}

impl Default for GiftSummary {
    fn default() -> (summary: Self)
        ensures
            summary.total_processed == 0,
            summary.gifted == 0,
            summary.skipped == 0,
            summary.errors == 0,
    {
        Self::new()
    }
}

// ------------------------------------------------------------ player name

/// The pattern of the line that names the player: `Name = "..."`.
pub open spec fn name_pattern() -> Seq<char> {
    "Name\\s*=\\s*\"([^\"]+)\""@
}

/// The name used where a file names no player.
pub open spec fn unknown_player() -> Seq<char> {
    "Unknown"@
}

/// What the first capture group of the leftmost match of `pattern` in
/// `haystack` holds, by the rules of the `regex` crate; `None` where
/// `pattern` is no regular expression, where nothing matches, or where the
/// group took no part in the match.
pub uninterp spec fn regex_first_group(pattern: Seq<char>, haystack: Seq<char>) -> Option<
    Seq<char>,
>;

pub open spec fn option_text(o: Option<String>) -> Option<Seq<char>> {
    match o {
        Some(s) => Some(s@),
        None => None,
    }
}

/// Runs `regex::Regex::new` on `pattern` and `Regex::captures` on
/// `haystack`, and copies the text of capture group 1. The contract only
/// gives that text its name: matching is a function of the two texts.
#[verifier::external_body]
fn first_group(pattern: &str, haystack: &str) -> (r: Option<String>)
    ensures
        option_text(r) == regex_first_group(pattern@, haystack@),
{
    let re = regex::Regex::new(pattern).ok()?;
    let caps = re.captures(haystack)?;
    match caps.get(1) {
        Some(group) => Some(group.as_str().to_string()),
        None => None,
    }
}

/// The name under which a file is reported, given what the name pattern
/// captured in it.
pub open spec fn display_name(captured: Option<Seq<char>>) -> Seq<char> {
    match captured {
        Some(name) => name,
        None => unknown_player(),
    }
}

/// The name under which a file is reported: what the name pattern captured,
/// or `Unknown`.
pub fn name_or_unknown(captured: Option<String>) -> (name: String)
    ensures
        name@ == display_name(option_text(captured)),
{
    match captured {
        Some(name) => name,
        None => String::from_str("Unknown"),
    }
}

/// The player's name as the file gives it in its `Name = "..."` line, or
/// `Unknown` where it has no such line.
pub fn extract_player_name(content: &str) -> (name: String)
    ensures
        name@ == display_name(regex_first_group(name_pattern(), content@)),
{
    name_or_unknown(first_group("Name\\s*=\\s*\"([^\"]+)\"", content))
}

// --------------------------------------------------------------- the gift

/// What a gift run makes of a document: the outcome, and the new text of
/// the document where the present was put in.
pub open spec fn gift_spec(document: Seq<char>, name: Seq<char>, gift: ItemModel, slot: int) -> (
    GiftOutcome,
    Option<Seq<char>>,
) {
    match locate_spec(document) {
        Err(e) => (
            GiftOutcome::Error {
                player_name: name,
                error: "Failed to extract inventory: "@ + error_text(e),
            },
            None,
        ),
        Ok(at) => match parse_slots_spec(document.subrange(at.content_start, at.close), 0) {
            Err(e) => (
                GiftOutcome::Error {
                    player_name: name,
                    error: "Failed to parse inventory: "@ + error_text(e),
                },
                None,
            ),
            Ok(slots) => if has_slot(slots, slot) {
                (GiftOutcome::SlotOccupied { player_name: name }, None)
            } else {
                (
                    GiftOutcome::Gifted { player_name: name },
                    Some(
                        document.take(at.start) + section_text(with_slot(slots, slot, gift))
                            + document.skip(at.close + 1),
                    ),
                )
            },
        },
    }
}

/// Puts the present into slot `target_slot` of the inventory in `content`,
/// under the name `player_name`. Returns the outcome and, where the present
/// was put in, the new text of the file: the old text with only the
/// inventory section replaced.
pub fn apply_present_as(
    player_name: String,
    content: &str,
    config: &PresentConfig,
    target_slot: i32,
) -> (r: (GiftResult, Option<String>))
    ensures
        (r.0@, option_text(r.1)) == gift_spec(
            content@,
            player_name@,
            present_model(*config),
            target_slot as int,
        ),
{
    let (inventory_text, _, _) = match extract_inventory_section(content) {
        Ok(found) => found,
        Err(e) => {
            let mut error = String::from_str("Failed to extract inventory: ");
            let reason = e.message();
            error.append(reason.as_str());
            return (GiftResult::Error { player_name, error }, None);
        },
    };
    let mut inventory = match InventorySection::parse(inventory_text.as_str()) {
        Ok(section) => section,
        Err(e) => {
            let mut error = String::from_str("Failed to parse inventory: ");
            let reason = e.message();
            error.append(reason.as_str());
            return (GiftResult::Error { player_name, error }, None);
        },
    };
    if !inventory.is_slot_empty(target_slot) {
        return (GiftResult::SlotOccupied { player_name }, None);
    }
    inventory.set_slot(target_slot, config.to_inventory_item());
    let new_inventory = inventory.serialize();
    match replace_inventory_section(content, new_inventory.as_str()) {
        Ok(text) => (GiftResult::Gifted { player_name }, Some(text)),
        Err(e) => {
            let mut error = String::from_str("Failed to replace inventory: ");
            let reason = e.message();
            error.append(reason.as_str());
            (GiftResult::Error { player_name, error }, None)
        },
    }
}

/// Puts the present into slot `target_slot` of the inventory in `content`.
/// The outcome carries the player's name as the file gives it.
pub fn apply_present(content: &str, config: &PresentConfig, target_slot: i32) -> (r: (
    GiftResult,
    Option<String>,
))
    ensures
        (r.0@, option_text(r.1)) == gift_spec(
            content@,
            display_name(regex_first_group(name_pattern(), content@)),
            present_model(*config),
            target_slot as int,
        ),
{
    apply_present_as(extract_player_name(content), content, config, target_slot)
}

/// What a gift run makes of the bytes of a file: the outcome, and the bytes
/// to write back where there are any. `source` names the file where it
/// cannot be read; in a dry run nothing is encoded and nothing is to be
/// written.
pub open spec fn gift_bytes_spec(
    source: Seq<char>,
    bytes: Seq<u8>,
    gift: ItemModel,
    slot: int,
    dry_run: bool,
) -> (GiftOutcome, Option<Seq<u8>>) {
    match decode_outcome(bytes.len(), windows_1252_decoded(bytes)) {
        Err(e) => (
            GiftOutcome::Error {
                player_name: source,
                error: "Failed to read file: "@ + error_text(e),
            },
            None,
        ),
        Ok(content) => {
            let name = display_name(regex_first_group(name_pattern(), content));
            let (outcome, rewritten) = gift_spec(content, name, gift, slot);
            match rewritten {
                None => (outcome, None),
                Some(text) => if dry_run {
                    (outcome, None)
                } else {
                    match encode_outcome(byte_len(text), windows_1252_encoded(text)) {
                        Ok(encoded) => (outcome, Some(encoded)),
                        Err(e) => (
                            GiftOutcome::Error { player_name: name, error: error_text(e) },
                            None,
                        ),
                    }
                },
            }
        },
    }
}

/// One gift run on the bytes of a player file: decodes them, puts the
/// present into slot `target_slot` unless the slot is taken, and encodes
/// the new text. Returns the outcome and the bytes to write back, if any.
pub fn apply_present_to_bytes(
    source: &str,
    bytes: &[u8],
    config: &PresentConfig,
    target_slot: i32,
    dry_run: bool,
) -> (r: (GiftResult, Option<Vec<u8>>))
    ensures
        (r.0@, bytes_view(r.1)) == gift_bytes_spec(
            source@,
            bytes@,
            present_model(*config),
            target_slot as int,
            dry_run,
        ),
{
    let content = match decode_latin1(bytes) {
        Ok(text) => text,
        Err(e) => {
            let mut error = String::from_str("Failed to read file: ");
            let reason = e.message();
            error.append(reason.as_str());
            return (GiftResult::Error { player_name: String::from_str(source), error }, None);
        },
    };
    let (result, rewritten) = apply_present(content.as_str(), config, target_slot);
    match rewritten {
        None => (result, None),
        Some(text) => {
            if dry_run {
                return (result, None);
            }
            match encode_latin1(text.as_str()) {
                Ok(encoded) => (result, Some(encoded)),
                Err(e) => {
                    let player_name = String::from_str(result.player_name());
                    (GiftResult::Error { player_name, error: e.message() }, None)
                },
            }
        },
    }
}

} // verus!
