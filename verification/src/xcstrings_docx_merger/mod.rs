//! Reading an edited table back, and merging what it holds into the catalog.
pub mod convert;
pub mod docx_extractor;
