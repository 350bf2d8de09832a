//! Telling a table document from a catalog file.
use vstd::prelude::*;

use crate::document::{Document, SpecDocument};
use crate::xcstrings_docx_merger::docx_extractor::{document_extraction, extract};

verus! {

/// What a file holds.
#[derive(Clone, Copy, Debug, PartialEq, Eq, Structural)]
pub enum Export {
    XCStrings,
    Docx,
    Other,
}

/// The view of an optional borrowed document.
pub open spec fn borrowed_document_view(document: Option<&Document>) -> Option<SpecDocument> {
    match document {
        Some(d) => Some(d@),
        None => None,
    }
}

/// What a file holds: a table document where it reads as a document whose one table can
/// be extracted, else a catalog where it reads as one, else something other.
pub open spec fn file_kind(document: Option<SpecDocument>, reads_as_catalog: bool) -> Export {
    if document matches Some(d) && document_extraction(d) is Ok {
        Export::Docx
    } else if reads_as_catalog {
        Export::XCStrings
    } else {
        Export::Other
    }
}

/// Tells what a file holds from the document that was read from it, if one was, and from
/// whether it reads as a catalog.
pub fn extension_determiner(document: Option<&Document>, reads_as_catalog: bool) -> (r: Export)
    ensures
        r == file_kind(borrowed_document_view(document), reads_as_catalog),
{
    let is_table = match document {
        Some(d) => extract(d).is_ok(),
        None => false,
    };
    if is_table {
        Export::Docx
    } else if reads_as_catalog {
        Export::XCStrings
    } else {
        Export::Other
    }
}

} // verus!
