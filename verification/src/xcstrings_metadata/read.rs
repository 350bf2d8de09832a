//! The statistics of a catalog: for each language of its listing, the units that are
//! localized and those that are not.
use vstd::prelude::*;
use vstd::string::*;

use crate::catalog::{
    entry_keys, find_entry, translation_of, Parsed, PluralCategory, SpecCatalog,
    SpecLocalizedEntry, SpecParsed, SpecPluralForms, SpecStringUnit, SpecTranslationGroup,
    TranslationGroup, TranslationState, CATEGORY_COUNT,
};
use crate::error::{is_outcome, ConvertError};
use crate::text::{lemma_first_index_of, same_text};

verus! {

/// The statistics of one language.
#[derive(Clone, Debug, PartialEq, Eq)]
pub struct Export {
    pub language_code: String,
    pub word_count: usize,
    pub localized_keys: usize,
    pub not_localized_keys: usize,
}

/// What an `Export` holds.
pub struct SpecExport {
    pub language_code: Seq<char>,
    pub word_count: usize,
    pub localized_keys: nat,
    pub not_localized_keys: nat,
}

impl View for Export {
    type V = SpecExport;

    open spec fn view(&self) -> SpecExport {
        SpecExport {
            language_code: self.language_code@,
            word_count: self.word_count,
            localized_keys: self.localized_keys as nat,
            not_localized_keys: self.not_localized_keys as nat,
        }
    }
}

/// The statistics of every language of a listing, and the source language of the
/// catalog.
#[derive(Clone, Debug, PartialEq, Eq)]
pub struct ExportContainer {
    pub export: Vec<Export>,
    pub base_language: String,
}

/// What an `ExportContainer` holds.
pub struct SpecExportContainer {
    pub export: Seq<SpecExport>,
    pub base_language: Seq<char>,
}

impl View for ExportContainer {
    type V = SpecExportContainer;

    open spec fn view(&self) -> SpecExportContainer {
        SpecExportContainer {
            export: exports_view(self.export@),
            base_language: self.base_language@,
        }
    }
}

/// What the given statistics hold, in order.
pub open spec fn exports_view(exports: Seq<Export>) -> Seq<SpecExport> {
    Seq::new(exports.len(), |i: int| exports[i]@)
}

/// Whether a unit counts as localized: it is translated, or it belongs to the source
/// language, whose units always count.
pub open spec fn is_localized(unit: SpecStringUnit, is_source: bool) -> bool {
    unit.state == TranslationState::Translated || is_source
}

/// How many of the first `n` categories are present in `forms` with a localized unit.
pub open spec fn localized_forms(forms: SpecPluralForms, is_source: bool, n: int) -> nat
    decreases n,
{
    if n <= 0 {
        0
    } else {
        localized_forms(forms, is_source, n - 1) + match forms.get(PluralCategory::at(n - 1)) {
            Some(unit) => if is_localized(unit, is_source) {
                1nat
            } else {
                0nat
            },
            None => 0nat,
        }
    }
}

/// How many units of a translation are localized.
pub open spec fn localized_units(group: SpecTranslationGroup, is_source: bool) -> nat {
    match group {
        SpecTranslationGroup::Simple(unit) => if is_localized(unit, is_source) {
            1
        } else {
            0
        },
        SpecTranslationGroup::Pluralized(forms) => localized_forms(
            forms,
            is_source,
            CATEGORY_COUNT as int,
        ),
    }
}

/// How many units the first `n` entries of a language hold that are localized.
pub open spec fn own_localized(entries: Seq<SpecLocalizedEntry>, is_source: bool, n: int) -> nat
    decreases n,
{
    if n <= 0 {
        0
    } else {
        own_localized(entries, is_source, n - 1) + localized_units(
            entries[n - 1].translation,
            is_source,
        )
    }
}

/// How many units the first `n` entries of a language hold.
pub open spec fn own_units(entries: Seq<SpecLocalizedEntry>, n: int) -> nat
    decreases n,
{
    if n <= 0 {
        0
    } else {
        own_units(entries, n - 1) + entries[n - 1].translation.unit_count()
    }
}

/// Whether entry `i` of a language takes its key out of the keys that are still to be
/// covered: the catalog has the key, and no entry before `i` has taken it.
pub open spec fn takes_key(catalog: SpecCatalog, entries: Seq<SpecLocalizedEntry>, i: int) -> bool {
    catalog.has_key(entries[i].key) && find_entry(entries, entries[i].key) == i
}

/// The key of the first of the first `n` entries that does not take its key, if there is
/// one.
pub open spec fn first_bad_key(catalog: SpecCatalog, entries: Seq<SpecLocalizedEntry>, n: int)
    -> Option<Seq<char>>
    decreases n,
{
    if n <= 0 {
        None
    } else {
        match first_bad_key(catalog, entries, n - 1) {
            Some(key) => Some(key),
            None => if takes_key(catalog, entries, n - 1) {
                None
            } else {
                Some(entries[n - 1].key)
            },
        }
    }
}

/// Whether the key of entry `i` of the catalog is left over for a language: no entry of
/// the language has it. A key that the catalog holds twice is left over at its first
/// entry only.
pub open spec fn is_left_over(catalog: SpecCatalog, entries: Seq<SpecLocalizedEntry>, i: int)
    -> bool {
    catalog.find(catalog.entries[i].key) == i && find_entry(entries, catalog.entries[i].key)
        == entries.len()
}

/// How many units a key that is left over stands for: as many as the source language has
/// for it, and one where the source language does not have the key.
pub open spec fn left_over_weight(source: Seq<SpecLocalizedEntry>, key: Seq<char>) -> nat {
    match translation_of(source, key) {
        Some(group) => group.unit_count(),
        None => 1,
    }
}

/// How many units the keys stand for that are left over among the first `n` entries of
/// the catalog.
pub open spec fn left_over_units(
    catalog: SpecCatalog,
    entries: Seq<SpecLocalizedEntry>,
    source: Seq<SpecLocalizedEntry>,
    n: int,
) -> nat
    decreases n,
{
    if n <= 0 {
        0
    } else {
        left_over_units(catalog, entries, source, n - 1) + if is_left_over(
            catalog,
            entries,
            n - 1,
        ) {
            left_over_weight(source, catalog.entries[n - 1].key)
        } else {
            0
        }
    }
}

/// The message of the error for an entry of a language whose key is not to be covered.
pub open spec fn no_key_found_message(key: Seq<char>) -> Seq<char> {
    "No key found for: "@ + key
}

/// The statistics of listing `i`, or the message of the error that it gives rise to.
///
/// Every entry of the language has to take its key. Its units count as localized or not
/// one by one. Every key of the catalog that is left over counts as not localized, with
/// the units that the source language has for it.
pub open spec fn language_statistics(parsed: SpecParsed, i: int) -> Result<SpecExport, Seq<char>> {
    let language = parsed.localized.languages[i];
    let entries = language.entries;
    let n = entries.len() as int;
    let is_source = language.language == parsed.catalog.source_language;
    let source = parsed.localized.entries_of(parsed.catalog.source_language);
    match first_bad_key(parsed.catalog, entries, n) {
        Some(key) => Err(no_key_found_message(key)),
        None => Ok(
            SpecExport {
                language_code: language.language,
                word_count: language.word_count,
                localized_keys: own_localized(entries, is_source, n),
                not_localized_keys: (own_units(entries, n) - own_localized(entries, is_source, n)
                    + left_over_units(
                    parsed.catalog,
                    entries,
                    source,
                    parsed.catalog.entries.len() as int,
                )) as nat,
            },
        ),
    }
}

/// The statistics of the first `n` listings, in order, or the message of the first error.
pub open spec fn statistics_upto(parsed: SpecParsed, n: int) -> Result<Seq<SpecExport>, Seq<char>>
    decreases n,
{
    if n <= 0 {
        Ok(Seq::empty())
    } else {
        match statistics_upto(parsed, n - 1) {
            Err(message) => Err(message),
            Ok(exports) => match language_statistics(parsed, n - 1) {
                Err(message) => Err(message),
                Ok(export) => Ok(exports.push(export)),
            },
        }
    }
}

/// The statistics of a catalog, or the message of the first error.
pub open spec fn statistics(parsed: SpecParsed) -> Result<SpecExportContainer, Seq<char>> {
    match statistics_upto(parsed, parsed.localized.languages.len() as int) {
        Err(message) => Err(message),
        Ok(exports) => Ok(
            SpecExportContainer { export: exports, base_language: parsed.catalog.source_language },
        ),
    }
}

/// Whether the counts of every language fit the machine's numbers: six units for every
/// entry of the language and every key of the catalog.
pub open spec fn counts_fit(parsed: SpecParsed) -> bool {
    forall|i: int|
        0 <= i < parsed.localized.languages.len() ==> CATEGORY_COUNT * ((
        #[trigger] parsed.localized.languages[i]).entries.len() + parsed.catalog.entries.len())
            <= usize::MAX
}

/// A translation has no more localized units than units, and no more than six of those.
pub proof fn lemma_units_bounded(group: SpecTranslationGroup, is_source: bool)
    ensures
        localized_units(group, is_source) <= group.unit_count() <= CATEGORY_COUNT,
{
    match group {
        SpecTranslationGroup::Simple(_) => {},
        SpecTranslationGroup::Pluralized(forms) => {
            lemma_forms_bounded(forms, is_source, CATEGORY_COUNT as int);
        },
    }
}

/// Among the first `n` categories no more are localized than present, and no more than
/// `n` are present.
pub proof fn lemma_forms_bounded(forms: SpecPluralForms, is_source: bool, n: int)
    requires
        0 <= n,
    ensures
        localized_forms(forms, is_source, n) <= forms.count_below(n) <= n,
    decreases n,
{
    if n > 0 {
        lemma_forms_bounded(forms, is_source, n - 1);
    }
}

/// Counts the units of a translation: those that are localized, and all.
fn tally(group: &TranslationGroup, is_source: bool) -> (r: (usize, usize))
    ensures
        r.0 == localized_units(group@, is_source),
        r.1 == group@.unit_count(),
        r.0 <= r.1 <= CATEGORY_COUNT,
{
    match group {
        TranslationGroup::Simple(unit) => {
            if unit.state == TranslationState::Translated || is_source {
                (1, 1)
            } else {
                (0, 1)
            }
        },
        TranslationGroup::Pluralized(forms) => {
            let mut localized: usize = 0;
            let mut units: usize = 0;
            let mut i: usize = 0;
            while i < CATEGORY_COUNT
                invariant
                    i <= CATEGORY_COUNT,
                    localized <= units <= i,
                    localized == localized_forms(forms@, is_source, i as int),
                    units == forms@.count_below(i as int),
                decreases CATEGORY_COUNT - i,
            {
                match forms.get(PluralCategory::from_index(i)) {
                    Some(unit) => {
                        units = units + 1;
                        if unit.state == TranslationState::Translated || is_source {
                            localized = localized + 1;
                        }
                    },
                    None => {},
                }
                i = i + 1;
            }
            (localized, units)
        },
    }
}

/// Once an entry has failed to take its key, the entries behind it do not change the
/// outcome.
pub proof fn lemma_first_bad_key_stays(
    catalog: SpecCatalog,
    entries: Seq<SpecLocalizedEntry>,
    n: int,
    m: int,
)
    requires
        n <= m,
        first_bad_key(catalog, entries, n) is Some,
    ensures
        first_bad_key(catalog, entries, m) == first_bad_key(catalog, entries, n),
    decreases m - n,
{
    if n < m {
        lemma_first_bad_key_stays(catalog, entries, n, m - 1);
    }
}

/// Computes the statistics of listing `index`.
pub fn language_export(parsed: &Parsed, index: usize) -> (r: Result<Export, ConvertError>)
    requires
        index < parsed.localized.languages.len(),
        CATEGORY_COUNT * (parsed.localized.languages[index as int].entries.len()
            + parsed.catalog.entries.len()) <= usize::MAX,
    ensures
        is_outcome(r, language_statistics(parsed@, index as int)),
        r matches Ok(export) ==> export.localized_keys + export.not_localized_keys <= usize::MAX,
{
    let catalog = &parsed.catalog;
    let language = &parsed.localized.languages[index];
    let is_source = same_text(language.language.as_str(), catalog.source_language.as_str());
    let ghost entries = language@.entries;
    let ghost source = parsed@.localized.entries_of(parsed@.catalog.source_language);
    assert(language@ == parsed@.localized.languages[index as int]);
    let mut localized: usize = 0;
    let mut units: usize = 0;
    let mut i: usize = 0;
    while i < language.entries.len()
        invariant
            i <= language.entries.len(),
            entries == language@.entries,
            catalog == &parsed.catalog,
            index < parsed.localized.languages.len(),
            language == &parsed.localized.languages[index as int],
            CATEGORY_COUNT * language.entries.len() <= usize::MAX,
            first_bad_key(catalog@, entries, i as int) is None,
            localized == own_localized(entries, is_source, i as int),
            units == own_units(entries, i as int),
            localized <= units <= CATEGORY_COUNT * i,
        decreases language.entries.len() - i,
    {
        let entry = &language.entries[i];
        assert(entry@ == entries[i as int]);
        let key = entry.key.as_str();
        let takes = catalog.find(key).is_some() && language.find(key) == Some(i);
        if !takes {
            proof {
                assert(first_bad_key(catalog@, entries, i + 1) == Some(key@));
                lemma_first_bad_key_stays(catalog@, entries, i + 1, entries.len() as int);
            }
            return Err(ConvertError::with_key("No key found for: ", key));
        }
        let (l, u) = tally(&entry.translation, is_source);
        localized = localized + l;
        units = units + u;
        i = i + 1;
    }
    let source_index = parsed.localized.find(catalog.source_language.as_str());
    let mut left_over: usize = 0;
    let mut c: usize = 0;
    while c < catalog.entries.len()
        invariant
            c <= catalog.entries.len(),
            entries == language@.entries,
            catalog == &parsed.catalog,
            language == &parsed.localized.languages[index as int],
            index < parsed.localized.languages.len(),
            source == parsed@.localized.entries_of(parsed@.catalog.source_language),
            match source_index {
                Some(s) => s < parsed.localized.languages.len() && s == parsed@.localized.find(
                    parsed@.catalog.source_language,
                ),
                None => parsed@.localized.find(parsed@.catalog.source_language)
                    == parsed.localized.languages.len(),
            },
            CATEGORY_COUNT * catalog.entries.len() <= usize::MAX,
            left_over == left_over_units(catalog@, entries, source, c as int),
            left_over <= CATEGORY_COUNT * c,
        decreases catalog.entries.len() - c,
    {
        let key = catalog.entries[c].key.as_str();
        assert(key@ == catalog@.entries[c as int].key);
        if catalog.find(key) == Some(c) && language.find(key).is_none() {
            let weight = match source_index {
                Some(s) => {
                    let listing = &parsed.localized.languages[s];
                    assert(listing@.entries == source);
                    match listing.find(key) {
                        Some(k) => {
                            assert(listing.entries[k as int]@ == source[k as int]);
                            tally(&listing.entries[k].translation, false).1
                        },
                        None => 1,
                    }
                },
                None => 1,
            };
            left_over = left_over + weight;
        }
        c = c + 1;
    }
    Ok(
        Export {
            language_code: language.language.clone(),
            word_count: language.word_count,
            localized_keys: localized,
            not_localized_keys: units - localized + left_over,
        },
    )
}

/// Computes the statistics of a catalog for every language of its listing.
///
/// A language whose entries do not agree with the keys of the catalog stops the
/// computation with its error.
pub fn extract(parsed: &Parsed) -> (r: Result<ExportContainer, ConvertError>)
    requires
        counts_fit(parsed@),
    ensures
        is_outcome(r, statistics(parsed@)),
        r matches Ok(container) ==> forall|i: int|
            0 <= i < container.export.len() ==> (#[trigger] container.export[i]).localized_keys
                + container.export[i].not_localized_keys <= usize::MAX,
{
    let mut export: Vec<Export> = Vec::new();
    let mut i: usize = 0;
    while i < parsed.localized.languages.len()
        invariant
            i <= parsed.localized.languages.len(),
            counts_fit(parsed@),
            statistics_upto(parsed@, i as int) is Ok,
            statistics_upto(parsed@, i as int)->Ok_0 =~= exports_view(export@),
            forall|j: int|
                0 <= j < export.len() ==> (#[trigger] export[j]).localized_keys
                    + export[j].not_localized_keys <= usize::MAX,
        decreases parsed.localized.languages.len() - i,
    {
        assert(parsed@.localized.languages[i as int].entries.len()
            == parsed.localized.languages[i as int].entries.len());
        let ghost before = exports_view(export@);
        match language_export(parsed, i) {
            Ok(one) => {
                export.push(one);
                assert(exports_view(export@) =~= before.push(one@));
            },
            Err(e) => {
                proof {
                    lemma_statistics_error(
                        parsed@,
                        i + 1,
                        parsed.localized.languages.len() as int,
                    );
                }
                return Err(e);
            },
        }
        i = i + 1;
    }
    Ok(ExportContainer { export, base_language: parsed.catalog.source_language.clone() })
}

/// Once a language has given rise to an error, the languages behind it do not change the
/// outcome.
pub proof fn lemma_statistics_error(parsed: SpecParsed, n: int, m: int)
    requires
        n <= m,
        statistics_upto(parsed, n) is Err,
    ensures
        statistics_upto(parsed, m) == statistics_upto(parsed, n),
    decreases m - n,
{
    if n < m {
        lemma_statistics_error(parsed, n, m - 1);
    }
}

/// Where no entry of a language fails to take its key, every one of them takes it.
pub proof fn lemma_all_keys_taken(
    catalog: SpecCatalog,
    entries: Seq<SpecLocalizedEntry>,
    n: int,
    i: int,
)
    requires
        0 <= i < n,
        first_bad_key(catalog, entries, n) is None,
    ensures
        takes_key(catalog, entries, i),
    decreases n,
{
    if i < n - 1 {
        lemma_all_keys_taken(catalog, entries, n - 1, i);
    }
}

/// The statistics of a language count every key of the catalog once: either with the one
/// entry of the language that has the key, or as left over, at one entry of the catalog.
/// They count no other key.
///
/// For a language whose statistics exist, and any key: the key is a key of the catalog
/// if and only if an entry of the language has it or it is left over, and never both; a
/// second entry of the language with the key does not exist, and the key is left over at
/// no entry of the catalog but the first that has it.
pub proof fn lemma_key_counted_once(
    catalog: SpecCatalog,
    entries: Seq<SpecLocalizedEntry>,
    key: Seq<char>,
)
    requires
        first_bad_key(catalog, entries, entries.len() as int) is None,
    ensures
        ({
            let own = find_entry(entries, key) < entries.len();
            let left_over = catalog.has_key(key) && is_left_over(
                catalog,
                entries,
                catalog.find(key),
            );
            &&& catalog.has_key(key) <==> own || left_over
            &&& !(own && left_over)
            &&& forall|i: int|
                0 <= i < entries.len() && (#[trigger] entries[i]).key == key ==> i == find_entry(
                    entries,
                    key,
                )
            &&& forall|c: int|
                0 <= c < catalog.entries.len() && (#[trigger] catalog.entries[c]).key == key
                    && is_left_over(catalog, entries, c) ==> c == catalog.find(key)
        }),
{
    let n = entries.len() as int;
    lemma_first_index_of(entry_keys(entries), key);
    lemma_first_index_of(catalog.keys(), key);
    let first = find_entry(entries, key);
    if first < n {
        lemma_all_keys_taken(catalog, entries, n, first);
        assert(entry_keys(entries)[first] == key);
    }
    assert forall|i: int| 0 <= i < n && (#[trigger] entries[i]).key == key implies i
        == find_entry(entries, key) by {
        lemma_all_keys_taken(catalog, entries, n, i);
    }
    if catalog.has_key(key) {
        assert(catalog.keys()[catalog.find(key)] == key);
    }
}

/// What the statistics count for a language adds up: the units of its own entries, each
/// either localized or not, and the units that the left-over keys stand for.
pub proof fn lemma_statistics_total(parsed: SpecParsed, i: int)
    requires
        0 <= i < parsed.localized.languages.len(),
        language_statistics(parsed, i) is Ok,
    ensures
        ({
            let export = language_statistics(parsed, i)->Ok_0;
            let entries = parsed.localized.languages[i].entries;
            export.localized_keys + export.not_localized_keys == own_units(
                entries,
                entries.len() as int,
            ) + left_over_units(
                parsed.catalog,
                entries,
                parsed.localized.entries_of(parsed.catalog.source_language),
                parsed.catalog.entries.len() as int,
            )
        }),
{
    let language = parsed.localized.languages[i];
    let is_source = language.language == parsed.catalog.source_language;
    lemma_own_bounded(language.entries, is_source, language.entries.len() as int);
}

/// The entries of a language hold no more localized units than units.
pub proof fn lemma_own_bounded(entries: Seq<SpecLocalizedEntry>, is_source: bool, n: int)
    ensures
        own_localized(entries, is_source, n) <= own_units(entries, n),
    decreases n,
{
    if n > 0 {
        lemma_own_bounded(entries, is_source, n - 1);
        lemma_units_bounded(entries[n - 1].translation, is_source);
    }
}

/// Every unit of the source language counts as localized.
pub proof fn lemma_source_fully_localized(entries: Seq<SpecLocalizedEntry>, n: int)
    ensures
        own_localized(entries, true, n) == own_units(entries, n),
    decreases n,
{
    if n > 0 {
        lemma_source_fully_localized(entries, n - 1);
        match entries[n - 1].translation {
            SpecTranslationGroup::Simple(_) => {},
            SpecTranslationGroup::Pluralized(forms) => {
                lemma_source_forms(forms, CATEGORY_COUNT as int);
            },
        }
    }
}

/// Every category of the source language that is present counts as localized.
pub proof fn lemma_source_forms(forms: SpecPluralForms, n: int)
    ensures
        localized_forms(forms, true, n) == forms.count_below(n),
    decreases n,
{
    if n > 0 {
        lemma_source_forms(forms, n - 1);
    }
}

} // verus!
