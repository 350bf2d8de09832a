//! What a table of one language means for a catalog.
pub mod read;
