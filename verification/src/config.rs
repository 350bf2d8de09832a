//! What the plain tables are made from and made into.
use vstd::prelude::*;

use crate::document::{SpecTable, Table};

verus! {

/// The choices of the plain tables.
#[derive(Clone, Debug, PartialEq, Eq)]
pub struct Config {
    /// Would normally be 'en'
    pub base_language_code: String,
}

/// The plain table of one language.
#[derive(Clone, Debug, PartialEq, Eq)]
pub struct Converted {
    pub table: Table,
    pub language: String,
}

/// What a `Converted` holds.
pub struct SpecConverted {
    pub table: SpecTable,
    pub language: Seq<char>,
}

impl View for Converted {
    type V = SpecConverted;

    open spec fn view(&self) -> SpecConverted {
        SpecConverted { table: self.table@, language: self.language@ }
    }
}

} // verus!
