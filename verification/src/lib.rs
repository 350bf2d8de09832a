//! A bridge between a localization catalog and the tables in which translators review it.
//!
//! A catalog is projected into one table per target language, an edited table is read back
//! into per-key records, the records are merged into the catalog, and completeness statistics
//! are computed per language. Reading and writing files is left to the caller: every function
//! here works on plain values.
use vstd::prelude::*;

pub mod catalog;
pub mod config;
pub mod document;
pub mod docx_metadata;
pub mod docx_writer;
pub mod error;
pub mod extension_determiner;
pub mod round_trip;
pub mod text;
pub mod xcstrings_docx_merger;
pub mod xcstrings_metadata;

verus! {

/// Header label of the column that holds the catalog key.
pub const KEY_KEY: &'static str = "Key";

/// Header label of the column that holds the plural category.
pub const KEY_VARIATION: &'static str = "Variation";

/// Header label of the column that holds the comment for translators.
pub const KEY_COMMENT: &'static str = "Comment";

/// Header label of the optional column that holds the translation state.
pub const KEY_STATE: &'static str = "State";

/// Text of the plural-category cell of an entry that has no plural forms.
pub const NO_VARIATION: &'static str = "N/A";

} // verus!
