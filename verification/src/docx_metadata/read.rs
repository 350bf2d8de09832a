//! Holding the records of a table against a catalog: do their keys fit, and how far is the
//! language of the table translated.
use vstd::prelude::*;
use vstd::string::*;

use crate::catalog::{Parsed, SpecCatalog, SpecParsed};
use crate::error::{is_outcome, ConvertError};
use crate::text::{first_index_of, is_blank, position_of, same_text, trim, views_of};
use crate::xcstrings_docx_merger::docx_extractor::{
    ExtractContainer, SpecExtract, SpecExtractContainer,
};
use crate::xcstrings_metadata::read::{extract, statistics, SpecExport};

verus! {

/// How the language of a table stands in a catalog.
#[derive(Clone, Debug, PartialEq, Eq)]
pub enum TranslatedStatus {
    /// The catalog does not list the language.
    NotYetInXcstrings,
    /// The catalog lists the language with this many units, localized or not.
    Translated(usize),
    /// There is no catalog to hold the table against.
    NoXcstringsFile,
    /// The table has these keys, which the catalog has not.
    NoMatchingXcstringsKey(Vec<String>),
}

/// What a `TranslatedStatus` holds.
pub enum SpecTranslatedStatus {
    NotYetInXcstrings,
    Translated(nat),
    NoXcstringsFile,
    NoMatchingXcstringsKey(Seq<Seq<char>>),
}

impl View for TranslatedStatus {
    type V = SpecTranslatedStatus;

    open spec fn view(&self) -> SpecTranslatedStatus {
        match self {
            TranslatedStatus::NotYetInXcstrings => SpecTranslatedStatus::NotYetInXcstrings,
            TranslatedStatus::Translated(units) => SpecTranslatedStatus::Translated(*units as nat),
            TranslatedStatus::NoXcstringsFile => SpecTranslatedStatus::NoXcstringsFile,
            TranslatedStatus::NoMatchingXcstringsKey(keys) => {
                SpecTranslatedStatus::NoMatchingXcstringsKey(views_of(keys@))
            },
        }
    }
}

/// What is known of a table of one language.
#[derive(Clone, Debug, PartialEq, Eq)]
pub struct Export {
    pub language_code: String,
    pub localized_keys: usize,
    pub translated_status: TranslatedStatus,
}

/// What an `Export` holds.
pub struct SpecReport {
    pub language_code: Seq<char>,
    pub localized_keys: nat,
    pub translated_status: SpecTranslatedStatus,
}

impl View for Export {
    type V = SpecReport;

    open spec fn view(&self) -> SpecReport {
        SpecReport {
            language_code: self.language_code@,
            localized_keys: self.localized_keys as nat,
            translated_status: self.translated_status@,
        }
    }
}

/// The keys of the first `n` records that the catalog does not have, each once, in the
/// order in which the records bring them up.
pub open spec fn unknown_keys(catalog: SpecCatalog, records: Seq<SpecExtract>, n: int) -> Seq<
    Seq<char>,
>
    decreases n,
{
    if n <= 0 {
        Seq::empty()
    } else {
        let before = unknown_keys(catalog, records, n - 1);
        let key = records[n - 1].key;
        if !catalog.has_key(key) && first_index_of(before, key) == before.len() {
            before.push(key)
        } else {
            before
        }
    }
}

/// How many of the first `n` records hold a translation: a text that is not blank.
pub open spec fn filled_records(records: Seq<SpecExtract>, n: int) -> nat
    decreases n,
{
    if n <= 0 {
        0
    } else {
        filled_records(records, n - 1) + if is_blank(records[n - 1].translated) {
            0nat
        } else {
            1nat
        }
    }
}

/// The language codes of the given statistics, in order.
pub open spec fn export_codes(exports: Seq<SpecExport>) -> Seq<Seq<char>> {
    Seq::new(exports.len(), |i: int| exports[i].language_code)
}

/// How the language of a table stands in a catalog, or the message of the error that the
/// statistics of the catalog give rise to.
///
/// Without a catalog there is nothing to say. A table with a key that the catalog has
/// not does not fit it, and its unknown keys are told. Otherwise the language is either
/// not yet listed, or listed with the units that the statistics count for it.
pub open spec fn status_of(extraction: SpecExtractContainer, parsed: Option<SpecParsed>) -> Result<
    SpecTranslatedStatus,
    Seq<char>,
> {
    match parsed {
        None => Ok(SpecTranslatedStatus::NoXcstringsFile),
        Some(p) => {
            let unknown = unknown_keys(
                p.catalog,
                extraction.extracted,
                extraction.extracted.len() as int,
            );
            if unknown.len() > 0 {
                Ok(SpecTranslatedStatus::NoMatchingXcstringsKey(unknown))
            } else {
                match statistics(p) {
                    Err(message) => Err(message),
                    Ok(container) => {
                        let i = first_index_of(
                            export_codes(container.export),
                            extraction.language_code,
                        );
                        if i < container.export.len() {
                            Ok(
                                SpecTranslatedStatus::Translated(
                                    container.export[i].localized_keys
                                        + container.export[i].not_localized_keys,
                                ),
                            )
                        } else {
                            Ok(SpecTranslatedStatus::NotYetInXcstrings)
                        }
                    },
                }
            }
        },
    }
}

/// What is known of a table, or the message of the error.
pub open spec fn report_of(extraction: SpecExtractContainer, parsed: Option<SpecParsed>) -> Result<
    SpecReport,
    Seq<char>,
> {
    match status_of(extraction, parsed) {
        Err(message) => Err(message),
        Ok(status) => Ok(
            SpecReport {
                language_code: extraction.language_code,
                localized_keys: filled_records(
                    extraction.extracted,
                    extraction.extracted.len() as int,
                ),
                translated_status: status,
            },
        ),
    }
}

/// The view of an optional borrowed catalog with its listing.
pub open spec fn borrowed_parsed_view(parsed: Option<&Parsed>) -> Option<SpecParsed> {
    match parsed {
        Some(p) => Some(p@),
        None => None,
    }
}

/// How the language of a table stands in a catalog.
#[verifier::loop_isolation(false)]
pub fn translated_status(extracted: &ExtractContainer, parsed: Option<&Parsed>) -> (r: Result<
    TranslatedStatus,
    ConvertError,
>)
    requires
        parsed matches Some(p) ==> crate::xcstrings_metadata::read::counts_fit(p@),
    ensures
        is_outcome(r, status_of(extracted@, borrowed_parsed_view(parsed))),
{
    let reference = match parsed {
        Some(p) => p,
        None => {
            return Ok(TranslatedStatus::NoXcstringsFile);
        },
    };
    let ghost records = extracted@.extracted;
    let mut unknown: Vec<String> = Vec::new();
    let mut n: usize = 0;
    while n < extracted.extracted.len()
        invariant
            n <= extracted.extracted.len(),
            records == extracted@.extracted,
            views_of(unknown@) =~= unknown_keys(reference@.catalog, records, n as int),
        decreases extracted.extracted.len() - n,
    {
        let key = extracted.extracted[n].key.as_str();
        assert(key@ == records[n as int].key);
        if reference.catalog.find(key).is_none() && position_of(&unknown, key) == unknown.len() {
            let ghost before = views_of(unknown@);
            unknown.push(key.to_owned());
            assert(views_of(unknown@) =~= before.push(key@));
        }
        n = n + 1;
    }
    if unknown.len() > 0 {
        return Ok(TranslatedStatus::NoMatchingXcstringsKey(unknown));
    }
    let container = match extract(reference) {
        Ok(container) => container,
        Err(e) => {
            return Err(e);
        },
    };
    let ghost codes = export_codes(container@.export);
    let mut i: usize = 0;
    while i < container.export.len()
        invariant
            i <= container.export.len(),
            codes == export_codes(container@.export),
            forall|j: int| 0 <= j < i ==> #[trigger] codes[j] != extracted@.language_code,
            forall|j: int|
                0 <= j < container.export.len() ==> (#[trigger] container.export[j]).localized_keys
                    + container.export[j].not_localized_keys <= usize::MAX,
        decreases container.export.len() - i,
    {
        let export = &container.export[i];
        assert(export@ == container@.export[i as int]);
        if same_text(export.language_code.as_str(), extracted.language_code.as_str()) {
            proof {
                crate::text::lemma_first_index_of_is(codes, extracted@.language_code, i as int);
            }
            return Ok(TranslatedStatus::Translated(export.localized_keys + export.not_localized_keys));
        }
        i = i + 1;
    }
    proof {
        crate::text::lemma_first_index_of_is(codes, extracted@.language_code, i as int);
    }
    Ok(TranslatedStatus::NotYetInXcstrings)
}

/// How many records hold a translation.
pub fn count_filled(extracted: &ExtractContainer) -> (r: usize)
    ensures
        r == filled_records(extracted@.extracted, extracted@.extracted.len() as int),
{
    let mut filled: usize = 0;
    let mut n: usize = 0;
    while n < extracted.extracted.len()
        invariant
            n <= extracted.extracted.len(),
            filled <= n,
            filled == filled_records(extracted@.extracted, n as int),
        decreases extracted.extracted.len() - n,
    {
        assert(extracted.extracted[n as int]@ == extracted@.extracted[n as int]);
        if !trim(extracted.extracted[n].translated.as_str()).is_empty() {
            filled = filled + 1;
        }
        n = n + 1;
    }
    filled
}

/// Tells what is known of a table of one language: its language, the number of its
/// records that hold a translation, and how the language stands in the catalog, where
/// there is one.
pub fn read(extracted: &ExtractContainer, parsed: Option<&Parsed>) -> (r: Result<
    Export,
    ConvertError,
>)
    requires
        parsed matches Some(p) ==> crate::xcstrings_metadata::read::counts_fit(p@),
    ensures
        is_outcome(r, report_of(extracted@, borrowed_parsed_view(parsed))),
{
    let translated_status = match translated_status(extracted, parsed) {
        Ok(status) => status,
        Err(e) => {
            return Err(e);
        },
    };
    Ok(
        Export {
            language_code: extracted.language_code.clone(),
            localized_keys: count_filled(extracted),
            translated_status,
        },
    )
}

} // verus!
