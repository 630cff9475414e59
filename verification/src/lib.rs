//! Parsing, editing and rendering of the inventory section of player save
//! files, with the rules of a gift run on top, and the harvesting rules of
//! the rule file.
//!
//! The text formats are defined in [`grammar`], [`document`] and
//! [`harvesting`] as functions on sequences of characters; the executable
//! functions in [`inventory`], [`document`], [`present`] and [`harvesting`]
//! compute exactly those. What holds across functions is stated in [`laws`].

pub mod braces;
pub mod chars;
pub mod decimal;
pub mod document;
pub mod error;
pub mod grammar;
pub mod harvesting;
pub mod inventory;
pub mod latin1;
pub mod laws;
pub mod offsets;
pub mod present;
pub mod rewriting;
pub mod roundtrip;
pub mod scanning;
pub mod sorting;

pub use document::{extract_inventory_section, replace_inventory_section, splice};
pub use error::{DemonaxError, ItemError};
pub use harvesting::{
    generate_all_harvesting_rules, generate_harvesting_rule, insert_harvesting_rules,
    HarvestingData,
};
pub use inventory::{InventoryItem, InventorySection, InventorySlot};
