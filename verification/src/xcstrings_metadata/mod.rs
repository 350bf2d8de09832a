//! How much of a catalog each language has translated.
pub mod read;
