//! Character translation in the manner of `tr`.
//!
//! A search sequence and a replacement sequence are brought to equal length,
//! turned into a table from character to character, and the table is applied
//! to a text, character by character. In delete mode the characters of the
//! search sequence are removed from the text instead.
//!
//! Every string is treated as its sequence of characters (`Seq<char>`), and
//! every contract is stated over these sequences.

pub mod config;
pub mod error;
pub mod normalize;
pub mod quotes;
pub mod table;
pub mod text;
pub mod transform;

pub use crate::config::{parse_config, Config};
pub use crate::error::RttrError;
pub use crate::normalize::normalize_char_arrays;
pub use crate::quotes::{starts_and_ends_with_one_of, strip_from_start_and_end};
pub use crate::table::{create_character_mapping_table, MappingTable};
pub use crate::transform::{
    delete, replace_multiple_multiple, replace_multiple_single, replace_single_single, run,
    translate,
};
