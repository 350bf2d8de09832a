//! Merging the records of a table into the catalog.
use vstd::prelude::*;
use vstd::string::*;

use crate::catalog::{
    Catalog, Localization, PluralCategory, PluralForms, SpecCatalog, SpecCatalogEntry,
    SpecLocalization, SpecPluralForms, SpecStringUnit, SpecTranslationGroup, StringUnit,
    TranslationGroup, TranslationState,
};
use crate::error::ConvertError;
use crate::text::{is_blank, lemma_first_index_of, lemma_first_index_of_push, trim, trimmed};
use crate::xcstrings_docx_merger::docx_extractor::{Extract, ExtractContainer, SpecExtract};

pub use crate::document::extract_text_from_table_row_content;

verus! {

/// How many records of a merge held a translation and how many held none.
#[derive(Clone, Debug, PartialEq, Eq)]
pub struct Export {
    pub keys_translated: usize,
    pub keys_to_translate: usize,
}

/// The unit that a translator's text becomes: the text without the white space at its
/// ends, new where nothing is left of it and translated otherwise.
pub open spec fn merged_unit(text: Seq<char>) -> SpecStringUnit {
    SpecStringUnit {
        value: trimmed(text),
        state: if trimmed(text).len() == 0 {
            TranslationState::New
        } else {
            TranslationState::Translated
        },
    }
}

/// The translation that a key has in a language once `unit` is written into it for
/// `variation`, or nothing where the kinds do not fit.
///
/// A record without a category fits a simple translation and replaces its unit; a record
/// with a category fits a pluralized translation and sets the unit of its category,
/// whatever the other categories hold. A key without a translation in the language gets
/// the one that the record fits.
pub open spec fn merged_group(
    existing: Option<SpecTranslationGroup>,
    variation: Option<PluralCategory>,
    unit: SpecStringUnit,
) -> Option<SpecTranslationGroup> {
    match (existing, variation) {
        (None, None) => Some(SpecTranslationGroup::Simple(unit)),
        (None, Some(c)) => Some(
            SpecTranslationGroup::Pluralized(SpecPluralForms::empty().set(c, unit)),
        ),
        (Some(SpecTranslationGroup::Simple(_)), None) => Some(SpecTranslationGroup::Simple(unit)),
        (Some(SpecTranslationGroup::Pluralized(forms)), Some(c)) => Some(
            SpecTranslationGroup::Pluralized(forms.set(c, unit)),
        ),
        (Some(SpecTranslationGroup::Simple(_)), Some(_)) => None,
        (Some(SpecTranslationGroup::Pluralized(_)), None) => None,
    }
}

/// The entry with `group` as its translation into `language`: in place of the one it had,
/// or behind the others where it had none.
pub open spec fn entry_with_group(
    entry: SpecCatalogEntry,
    language: Seq<char>,
    group: SpecTranslationGroup,
) -> SpecCatalogEntry {
    let j = entry.find(language);
    let localization = SpecLocalization { language: language, group: group };
    SpecCatalogEntry {
        localizations: if j < entry.localizations.len() {
            entry.localizations.update(j, localization)
        } else {
            entry.localizations.push(localization)
        },
        ..entry
    }
}

/// The catalog with `group` as the translation of entry `i` into `language`.
pub open spec fn catalog_with_group(
    catalog: SpecCatalog,
    i: int,
    language: Seq<char>,
    group: SpecTranslationGroup,
) -> SpecCatalog {
    SpecCatalog {
        entries: catalog.entries.update(i, entry_with_group(catalog.entries[i], language, group)),
        ..catalog
    }
}

/// The message of the error for a record whose key the catalog does not have.
pub open spec fn no_matching_key_message(key: Seq<char>) -> Seq<char> {
    "There is no matching key for: "@ + key
}

/// The message of the error for a record with a category whose key has a simple
/// translation.
pub open spec fn expected_no_variation_message(key: Seq<char>) -> Seq<char> {
    "Expected no variation for key: "@ + key
}

/// The message of the error for a record without a category whose key has a pluralized
/// translation.
pub open spec fn expected_variation_message(key: Seq<char>) -> Seq<char> {
    "Expected variation for key: "@ + key
}

/// The catalog after one record has been merged into it, or the message of the error that
/// the record gives rise to.
pub open spec fn merge_record(catalog: SpecCatalog, language: Seq<char>, record: SpecExtract)
    -> Result<SpecCatalog, Seq<char>> {
    if !catalog.has_key(record.key) {
        Err(no_matching_key_message(record.key))
    } else {
        let i = catalog.find(record.key);
        let existing = catalog.entries[i].group(language);
        match merged_group(existing, record.variation, merged_unit(record.translated)) {
            Some(group) => Ok(catalog_with_group(catalog, i, language, group)),
            None => if record.variation is Some {
                Err(expected_no_variation_message(record.key))
            } else {
                Err(expected_variation_message(record.key))
            },
        }
    }
}

/// Where a merge stands: the catalog, the two counts, and the message of the error that
/// stopped it, if one did.
pub struct SpecMerge {
    pub catalog: SpecCatalog,
    pub keys_translated: nat,
    pub keys_to_translate: nat,
    pub error: Option<Seq<char>>,
}

/// Where the merge of the first `n` records stands. The records are merged in order, a
/// later one over an earlier one, and the first error stops the merge with the catalog as
/// the records before it left it.
pub open spec fn merge_records(
    catalog: SpecCatalog,
    language: Seq<char>,
    records: Seq<SpecExtract>,
    n: int,
) -> SpecMerge
    decreases n,
{
    if n <= 0 {
        SpecMerge { catalog: catalog, keys_translated: 0, keys_to_translate: 0, error: None }
    } else {
        let before = merge_records(catalog, language, records, n - 1);
        if before.error is Some {
            before
        } else {
            match merge_record(before.catalog, language, records[n - 1]) {
                Err(message) => SpecMerge { error: Some(message), ..before },
                Ok(merged) => if merged_unit(records[n - 1].translated).state
                    == TranslationState::Translated {
                    SpecMerge {
                        catalog: merged,
                        keys_translated: before.keys_translated + 1,
                        ..before
                    }
                } else {
                    SpecMerge {
                        catalog: merged,
                        keys_to_translate: before.keys_to_translate + 1,
                        ..before
                    }
                },
            }
        }
    }
}

/// The unit that a translator's text becomes.
pub fn unit_of_text(text: &str) -> (unit: StringUnit)
    ensures
        unit@ == merged_unit(text@),
        is_blank(text@) <==> unit.state == TranslationState::New,
        !is_blank(text@) <==> unit.state == TranslationState::Translated,
{
    let value = trim(text);
    let state = if value.is_empty() {
        TranslationState::New
    } else {
        TranslationState::Translated
    };
    StringUnit { value: value.to_owned(), state }
}

/// Merges one record into the catalog and tells the state of the unit it wrote. On an
/// error the catalog is left as it was.
pub fn merge_one(catalog: &mut Catalog, language: &str, record: &Extract) -> (r: Result<
    TranslationState,
    ConvertError,
>)
    ensures
        match merge_record(old(catalog)@, language@, record@) {
            Ok(merged) => final(catalog)@ == merged && r == Ok::<TranslationState, ConvertError>(
                merged_unit(record@.translated).state,
            ),
            Err(message) => final(catalog)@ == old(catalog)@ && r is Err && r->Err_0@ == message,
        },
{
    let ghost start = catalog@;
    let i = match catalog.find(record.key.as_str()) {
        Some(i) => i,
        None => {
            return Err(ConvertError::with_key("There is no matching key for: ", record.key.as_str()));
        },
    };
    let found = catalog.entries[i].find(language);
    let ghost existing = start.entries[i as int].group(language@);
    proof {
        lemma_first_index_of(start.entries[i as int].languages(), language@);
    }
    match found {
        Some(j) => {
            let fits = match &catalog.entries[i].localizations[j].group {
                TranslationGroup::Simple(_) => record.variation.is_none(),
                TranslationGroup::Pluralized(_) => record.variation.is_some(),
            };
            if !fits {
                if record.variation.is_some() {
                    return Err(
                        ConvertError::with_key("Expected no variation for key: ", record.key.as_str()),
                    );
                } else {
                    return Err(ConvertError::with_key("Expected variation for key: ", record.key.as_str()));
                }
            }
        },
        None => {},
    }
    let unit = unit_of_text(record.translated.as_str());
    let state = unit.state;
    let ghost group = merged_group(existing, record@.variation, unit@)->Some_0;
    match found {
        Some(j) => {
            let localization = &mut catalog.entries[i].localizations[j];
            match record.variation {
                None => {
                    localization.group = TranslationGroup::Simple(unit);
                },
                Some(c) => {
                    match &mut localization.group {
                        TranslationGroup::Pluralized(forms) => {
                            forms.set(c, unit);
                        },
                        TranslationGroup::Simple(_) => {},
                    }
                },
            }
            proof {
                let after = catalog@.entries[i as int];
                let want = entry_with_group(start.entries[i as int], language@, group);
                assert(start.entries[i as int].languages()[j as int] == language@);
                assert(after.localizations[j as int].language == language@);
                assert(after.localizations[j as int].group == group);
                assert(after.localizations =~= want.localizations);
                assert(catalog@.entries =~= start.entries.update(i as int, want));
            }
        },
        None => {
            let group = match record.variation {
                None => TranslationGroup::Simple(unit),
                Some(c) => {
                    let mut forms = PluralForms::new();
                    forms.set(c, unit);
                    TranslationGroup::Pluralized(forms)
                },
            };
            catalog.entries[i].localizations.push(
                Localization { language: language.to_owned(), group },
            );
            proof {
                let after = catalog@.entries[i as int];
                let want = entry_with_group(start.entries[i as int], language@, group@);
                assert(after.localizations =~= want.localizations);
                assert(catalog@.entries =~= start.entries.update(i as int, want));
            }
        },
    }
    Ok(state)
}

/// Merges the records of a table into the catalog, in their order, and counts the records
/// that held a translation and those that held none.
///
/// The first record that does not fit the catalog stops the merge with its error; the
/// records before it have been merged by then.
pub fn merge(catalog: &mut Catalog, extracted: &ExtractContainer) -> (r: Result<
    Export,
    ConvertError,
>)
    ensures
        ({
            let merged = merge_records(
                old(catalog)@,
                extracted@.language_code,
                extracted@.extracted,
                extracted@.extracted.len() as int,
            );
            &&& final(catalog)@ == merged.catalog
            &&& match r {
                Ok(export) => merged.error is None && export.keys_translated
                    == merged.keys_translated && export.keys_to_translate
                    == merged.keys_to_translate,
                Err(e) => merged.error == Some(e@),
            }
        }),
{
    let ghost start = catalog@;
    let ghost language = extracted@.language_code;
    let ghost records = extracted@.extracted;
    let mut keys_translated: usize = 0;
    let mut keys_to_translate: usize = 0;
    let mut n: usize = 0;
    while n < extracted.extracted.len()
        invariant
            n <= extracted.extracted.len(),
            start == old(catalog)@,
            language == extracted@.language_code,
            records == extracted@.extracted,
            keys_translated + keys_to_translate == n,
            merge_records(start, language, records, n as int) == (SpecMerge {
                catalog: catalog@,
                keys_translated: keys_translated as nat,
                keys_to_translate: keys_to_translate as nat,
                error: None,
            }),
        decreases extracted.extracted.len() - n,
    {
        let record = &extracted.extracted[n];
        assert(record@ == records[n as int]);
        match merge_one(catalog, extracted.language_code.as_str(), record) {
            Ok(state) => {
                if state == TranslationState::Translated {
                    keys_translated = keys_translated + 1;
                } else {
                    keys_to_translate = keys_to_translate + 1;
                }
            },
            Err(e) => {
                proof {
                    assert(merge_records(start, language, records, n + 1).error == Some(e@));
                    assert(merge_records(start, language, records, n + 1).catalog == catalog@);
                    lemma_merge_records_error(
                        start,
                        language,
                        records,
                        n + 1,
                        records.len() as int,
                    );
                }
                return Err(e);
            },
        }
        n = n + 1;
    }
    Ok(Export { keys_translated, keys_to_translate })
}

/// Once a record has stopped a merge, the records behind it change nothing.
pub proof fn lemma_merge_records_error(
    catalog: SpecCatalog,
    language: Seq<char>,
    records: Seq<SpecExtract>,
    n: int,
    m: int,
)
    requires
        n <= m,
        merge_records(catalog, language, records, n).error is Some,
    ensures
        merge_records(catalog, language, records, m) == merge_records(
            catalog,
            language,
            records,
            n,
        ),
    decreases m - n,
{
    if n < m {
        lemma_merge_records_error(catalog, language, records, n, m - 1);
    }
}

/// A text that is blank becomes a new unit without text; any other text becomes a
/// translated unit.
pub proof fn lemma_merged_unit_state(text: Seq<char>)
    ensures
        is_blank(text) ==> merged_unit(text) == (SpecStringUnit {
            value: Seq::empty(),
            state: TranslationState::New,
        }),
        !is_blank(text) ==> merged_unit(text).state == TranslationState::Translated,
{
    if is_blank(text) {
        assert(trimmed(text) =~= Seq::empty());
    }
}

/// What a text becomes, it becomes again: a unit that a merge wrote is left as it is when
/// its own text is merged.
pub proof fn lemma_merged_unit_settled(text: Seq<char>)
    ensures
        merged_unit(merged_unit(text).value) == merged_unit(text),
{
    crate::text::lemma_trimmed_is_trimmed(text);
}

/// An entry with a new translation into one language has that translation, and for every
/// other language the translation it had.
pub proof fn lemma_entry_with_group(
    entry: SpecCatalogEntry,
    language: Seq<char>,
    group: SpecTranslationGroup,
    other: Seq<char>,
)
    ensures
        entry_with_group(entry, language, group).key == entry.key,
        entry_with_group(entry, language, group).group(language) == Some(group),
        other != language ==> entry_with_group(entry, language, group).group(other)
            == entry.group(other),
{
    let after = entry_with_group(entry, language, group);
    let j = entry.find(language);
    lemma_first_index_of(entry.languages(), language);
    lemma_first_index_of(entry.languages(), other);
    if j < entry.localizations.len() {
        assert(after.languages() =~= entry.languages());
    } else {
        assert(after.languages() =~= entry.languages().push(language));
        lemma_first_index_of_push(entry.languages(), language, language);
        lemma_first_index_of_push(entry.languages(), language, other);
    }
}

/// A catalog with a new translation of one key into one language has the keys it had,
/// that translation, and for every other key and language the translation it had.
pub proof fn lemma_catalog_with_group(
    catalog: SpecCatalog,
    key: Seq<char>,
    language: Seq<char>,
    group: SpecTranslationGroup,
    other_key: Seq<char>,
    other_language: Seq<char>,
)
    requires
        catalog.has_key(key),
    ensures
        ({
            let after = catalog_with_group(catalog, catalog.find(key), language, group);
            &&& after.keys() == catalog.keys()
            &&& after.source_language == catalog.source_language
            &&& after.group(key, language) == Some(group)
            &&& other_key != key || other_language != language ==> after.group(
                other_key,
                other_language,
            ) == catalog.group(other_key, other_language)
        }),
{
    let i = catalog.find(key);
    let after = catalog_with_group(catalog, i, language, group);
    lemma_first_index_of(catalog.keys(), key);
    lemma_first_index_of(catalog.keys(), other_key);
    lemma_entry_with_group(catalog.entries[i], language, group, other_language);
    assert(after.keys() =~= catalog.keys());
}

/// What one merged record changes: its key has the record's text as its unit in the
/// language, for the category of the record, and every other unit of the catalog is the
/// one it was. The catalog keeps its keys.
pub proof fn lemma_merge_record_writes(
    catalog: SpecCatalog,
    language: Seq<char>,
    record: SpecExtract,
    key: Seq<char>,
    other_language: Seq<char>,
    category: Option<PluralCategory>,
)
    requires
        merge_record(catalog, language, record) is Ok,
    ensures
        ({
            let after = merge_record(catalog, language, record)->Ok_0;
            &&& after.keys() == catalog.keys()
            &&& after.source_language == catalog.source_language
            &&& after.unit(key, other_language, category) == if key == record.key
                && other_language == language && category == record.variation {
                Some(merged_unit(record.translated))
            } else {
                catalog.unit(key, other_language, category)
            }
            &&& key != record.key || other_language != language ==> after.group(
                key,
                other_language,
            ) == catalog.group(key, other_language)
            &&& after.group(record.key, language) == merged_group(
                catalog.group(record.key, language),
                record.variation,
                merged_unit(record.translated),
            )
        }),
{
    let unit = merged_unit(record.translated);
    let existing = catalog.entries[catalog.find(record.key)].group(language);
    let group = merged_group(existing, record.variation, unit)->Some_0;
    lemma_catalog_with_group(catalog, record.key, language, group, key, other_language);
    if let Some(c) = category {
        crate::catalog::lemma_labels_distinct(c);
    }
    if let Some(c) = record.variation {
        crate::catalog::lemma_labels_distinct(c);
    }
}

} // verus!
