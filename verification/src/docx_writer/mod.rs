//! Projecting a catalog into one table per target language.
//!
//! Besides the tables for translators, which `convert::convert` makes, there are plain
//! tables: one for each language that the catalog has texts in, with a row for each text
//! of that language and nothing for what the language lacks.
use vstd::prelude::*;
use vstd::string::*;

use crate::catalog::{
    translation_of, LocalizationView, LocalizedEntry, PluralCategory, PluralForms,
    SpecLocalizationView, SpecLocalizedEntry, SpecPluralForms, SpecStringUnit,
    SpecTranslationGroup, StringUnit, TranslationGroup, CATEGORY_COUNT,
};
use crate::config::{Config, Converted, SpecConverted};
use crate::document::{
    create_label_cell, label_cell, rows_view, SpecTable, SpecTableRow, SpecTableRowContent, Table,
    TableRow, TableRowContent,
};
use crate::text::same_text;
use crate::NO_VARIATION;

pub mod config;
pub mod convert;

verus! {

/// The line that tells the base text of one category.
pub open spec fn form_line(category: PluralCategory, unit: SpecStringUnit) -> Seq<char> {
    "Variation: "@ + category.label() + ", translation: "@ + unit.value
}

/// The base texts of those of the first `n` categories that are present, one line for
/// each.
pub open spec fn forms_text(forms: SpecPluralForms, n: int) -> Seq<char>
    decreases n,
{
    if n <= 0 {
        Seq::empty()
    } else {
        let before = forms_text(forms, n - 1);
        match forms.get(PluralCategory::at(n - 1)) {
            Some(unit) => if forms.count_below(n - 1) > 0 {
                before + seq!['\n'] + form_line(PluralCategory::at(n - 1), unit)
            } else {
                before + form_line(PluralCategory::at(n - 1), unit)
            },
            None => before,
        }
    }
}

/// The base text for a category of the language of a plain table: the text of the
/// category in the base language, or all texts of the base language where it does not
/// have the category.
pub open spec fn plain_base_text(base: SpecPluralForms, category: PluralCategory) -> Seq<char> {
    match base.get(category) {
        Some(unit) => unit.value,
        None => forms_text(base, CATEGORY_COUNT as int),
    }
}

/// The header row of a plain table.
pub open spec fn plain_header(base_language: Seq<char>, language: Seq<char>) -> SpecTableRow {
    seq![
        SpecTableRowContent::TableCell(label_cell("key"@)),
        SpecTableRowContent::TableCell(label_cell("variation"@)),
        SpecTableRowContent::TableCell(label_cell("state"@)),
        SpecTableRowContent::TableCell(label_cell(base_language)),
        SpecTableRowContent::TableCell(label_cell(language)),
    ]
}

/// A row of a plain table: key, plural category, the name of the state, the base text
/// and the text.
pub open spec fn plain_row(
    key: Seq<char>,
    variation: Seq<char>,
    unit: SpecStringUnit,
    base_value: Seq<char>,
) -> SpecTableRow {
    seq![
        SpecTableRowContent::TableCell(label_cell(key)),
        SpecTableRowContent::TableCell(label_cell(variation)),
        SpecTableRowContent::TableCell(label_cell(unit.state.label())),
        SpecTableRowContent::TableCell(label_cell(base_value)),
        SpecTableRowContent::TableCell(label_cell(unit.value)),
    ]
}

/// The rows of a pluralized entry for those of the first `n` categories that the entry
/// has, in the fixed order of the categories.
pub open spec fn plain_plural_rows(
    key: Seq<char>,
    forms: SpecPluralForms,
    base: SpecPluralForms,
    n: int,
) -> SpecTable
    decreases n,
{
    if n <= 0 {
        Seq::empty()
    } else {
        let category = PluralCategory::at(n - 1);
        let before = plain_plural_rows(key, forms, base, n - 1);
        match forms.get(category) {
            Some(unit) => before.push(
                plain_row(key, category.label(), unit, plain_base_text(base, category)),
            ),
            None => before,
        }
    }
}

/// Whether the base language has a translation of the key of `entry`, of the kind of the
/// translation of `entry`.
pub open spec fn has_base(entry: SpecLocalizedEntry, base: Seq<SpecLocalizedEntry>) -> bool {
    translation_of(base, entry.key) matches Some(group) && (group is Pluralized
        <==> entry.translation is Pluralized)
}

/// The rows of one entry of a language: one row for a simple entry, one row for each
/// category of a pluralized one.
pub open spec fn plain_entry_rows(entry: SpecLocalizedEntry, base: Seq<SpecLocalizedEntry>)
    -> SpecTable {
    match (entry.translation, translation_of(base, entry.key)) {
        (
            SpecTranslationGroup::Simple(unit),
            Some(SpecTranslationGroup::Simple(base_unit)),
        ) => seq![plain_row(entry.key, NO_VARIATION@, unit, base_unit.value)],
        (
            SpecTranslationGroup::Pluralized(forms),
            Some(SpecTranslationGroup::Pluralized(base_forms)),
        ) => plain_plural_rows(entry.key, forms, base_forms, CATEGORY_COUNT as int),
        _ => Seq::empty(),
    }
}

/// The rows of the first `n` entries of a language, in the order of the entries.
pub open spec fn plain_rows(
    entries: Seq<SpecLocalizedEntry>,
    base: Seq<SpecLocalizedEntry>,
    n: int,
) -> SpecTable
    decreases n,
{
    if n <= 0 {
        Seq::empty()
    } else {
        plain_rows(entries, base, n - 1) + plain_entry_rows(entries[n - 1], base)
    }
}

/// The plain table of listing `i`: the header row, then the rows of its entries.
pub open spec fn plain_table(view: SpecLocalizationView, base_language: Seq<char>, i: int)
    -> SpecConverted {
    let listing = view.languages[i];
    SpecConverted {
        table: seq![plain_header(base_language, listing.language)] + plain_rows(
            listing.entries,
            view.entries_of(base_language),
            listing.entries.len() as int,
        ),
        language: listing.language,
    }
}

/// The plain tables of the first `n` listings, in order: one for each but those of the
/// base language.
pub open spec fn plain_tables(view: SpecLocalizationView, base_language: Seq<char>, n: int)
    -> Seq<SpecConverted>
    decreases n,
{
    if n <= 0 {
        Seq::empty()
    } else {
        let before = plain_tables(view, base_language, n - 1);
        if view.languages[n - 1].language == base_language {
            before
        } else {
            before.push(plain_table(view, base_language, n - 1))
        }
    }
}

/// Whether plain tables can be made of a listing: the base language is listed, and it
/// has every key that another language has, with a translation of the same kind.
pub open spec fn plain_ready(view: SpecLocalizationView, base_language: Seq<char>) -> bool {
    &&& view.find(base_language) < view.languages.len()
    &&& forall|i: int, j: int|
        0 <= i < view.languages.len() && view.languages[i].language != base_language && 0 <= j
            < view.languages[i].entries.len() ==> has_base(
            #[trigger] view.languages[i].entries[j],
            view.entries_of(base_language),
        )
}

/// What the given tables hold, in order.
pub open spec fn converted_view(converted: Seq<Converted>) -> Seq<SpecConverted> {
    Seq::new(converted.len(), |i: int| converted[i]@)
}

/// Makes a row of a plain table.
fn make_plain_row(key: &str, variation: &str, unit: &StringUnit, base_value: &str) -> (row:
    TableRow)
    ensures
        row@ == plain_row(key@, variation@, unit@, base_value@),
{
    let mut cells: Vec<TableRowContent> = Vec::new();
    cells.push(TableRowContent::TableCell(create_label_cell(key)));
    cells.push(TableRowContent::TableCell(create_label_cell(variation)));
    cells.push(TableRowContent::TableCell(create_label_cell(unit.state.as_str())));
    cells.push(TableRowContent::TableCell(create_label_cell(base_value)));
    cells.push(TableRowContent::TableCell(create_label_cell(unit.value.as_str())));
    let row = TableRow { cells };
    assert(row@ =~= plain_row(key@, variation@, unit@, base_value@));
    row
}

/// All base texts of a pluralized translation, one line for each category.
fn text_of_forms(forms: &PluralForms) -> (r: String)
    ensures
        r@ == forms_text(forms@, CATEGORY_COUNT as int),
{
    let mut out = String::new();
    let mut seen: usize = 0;
    let mut i: usize = 0;
    while i < CATEGORY_COUNT
        invariant
            i <= CATEGORY_COUNT,
            seen <= i,
            seen == forms@.count_below(i as int),
            out@ == forms_text(forms@, i as int),
        decreases CATEGORY_COUNT - i,
    {
        let category = PluralCategory::from_index(i);
        match forms.get(category) {
            Some(unit) => {
                if seen > 0 {
                    out.append("\n");
                    proof {
                        reveal_strlit("\n");
                        assert("\n"@ =~= seq!['\n']);
                    }
                }
                out.append("Variation: ");
                out.append(category.android_key());
                out.append(", translation: ");
                out.append(unit.value.as_str());
                assert(out@ =~= forms_text(forms@, i + 1));
                seen = seen + 1;
            },
            None => {},
        }
        i = i + 1;
    }
    out
}

/// Appends the rows of one entry of a language to `rows`.
fn push_plain_rows(
    rows: &mut Vec<TableRow>,
    entry: &LocalizedEntry,
    base: &TranslationGroup,
    Ghost(base_entries): Ghost<Seq<SpecLocalizedEntry>>,
)
    requires
        translation_of(base_entries, entry@.key) == Some(base@),
        has_base(entry@, base_entries),
    ensures
        rows_view(final(rows)@) == rows_view(old(rows)@) + plain_entry_rows(entry@, base_entries),
{
    let ghost start = rows_view(rows@);
    match (&entry.translation, base) {
        (TranslationGroup::Simple(unit), TranslationGroup::Simple(base_unit)) => {
            let row = make_plain_row(
                entry.key.as_str(),
                NO_VARIATION,
                unit,
                base_unit.value.as_str(),
            );
            rows.push(row);
            assert(rows_view(rows@) =~= start + plain_entry_rows(entry@, base_entries));
        },
        (TranslationGroup::Pluralized(forms), TranslationGroup::Pluralized(base_forms)) => {
            let all = text_of_forms(base_forms);
            let mut i: usize = 0;
            while i < CATEGORY_COUNT
                invariant
                    i <= CATEGORY_COUNT,
                    all@ == forms_text(base_forms@, CATEGORY_COUNT as int),
                    rows_view(rows@) =~= start + plain_plural_rows(
                        entry@.key,
                        forms@,
                        base_forms@,
                        i as int,
                    ),
                decreases CATEGORY_COUNT - i,
            {
                let category = PluralCategory::from_index(i);
                match forms.get(category) {
                    Some(unit) => {
                        let base_value = match base_forms.get(category) {
                            Some(base_unit) => base_unit.value.as_str(),
                            None => all.as_str(),
                        };
                        let row = make_plain_row(
                            entry.key.as_str(),
                            category.android_key(),
                            unit,
                            base_value,
                        );
                        let ghost before = rows_view(rows@);
                        rows.push(row);
                        assert(rows_view(rows@) =~= before.push(row@));
                    },
                    None => {},
                }
                i = i + 1;
            }
        },
        _ => {},
    }
}

/// Makes the plain table of each language of a listing but the base language: a row for
/// each text that the language has, beside the text of the base language.
///
/// The base language has to be listed with every key that another language has, and with
/// a translation of the same kind.
pub fn convert(localized_per_language: &LocalizationView, config: &Config) -> (r: Vec<Converted>)
    requires
        plain_ready(localized_per_language@, config.base_language_code@),
    ensures
        converted_view(r@) == plain_tables(
            localized_per_language@,
            config.base_language_code@,
            localized_per_language.languages.len() as int,
        ),
{
    let view = localized_per_language;
    let base_language = config.base_language_code.as_str();
    let mut out: Vec<Converted> = Vec::new();
    let b = match view.find(base_language) {
        Some(b) => b,
        None => {
            return out;
        },
    };
    let base = &view.languages[b];
    let ghost base_entries = view@.entries_of(base_language@);
    assert(base@.entries == base_entries);
    let mut i: usize = 0;
    while i < view.languages.len()
        invariant
            i <= view.languages.len(),
            b < view.languages.len(),
            base == &view.languages[b as int],
            base_entries == view@.entries_of(base_language@),
            base@.entries == base_entries,
            plain_ready(view@, base_language@),
            converted_view(out@) =~= plain_tables(view@, base_language@, i as int),
        decreases view.languages.len() - i,
    {
        let listing = &view.languages[i];
        assert(listing@ == view@.languages[i as int]);
        if !same_text(listing.language.as_str(), base_language) {
            let mut rows: Vec<TableRow> = Vec::new();
            let mut cells: Vec<TableRowContent> = Vec::new();
            cells.push(TableRowContent::TableCell(create_label_cell("key")));
            cells.push(TableRowContent::TableCell(create_label_cell("variation")));
            cells.push(TableRowContent::TableCell(create_label_cell("state")));
            cells.push(TableRowContent::TableCell(create_label_cell(base_language)));
            cells.push(TableRowContent::TableCell(create_label_cell(listing.language.as_str())));
            let header = TableRow { cells };
            assert(header@ =~= plain_header(base_language@, listing@.language));
            rows.push(header);
            assert(rows_view(rows@) =~= seq![plain_header(base_language@, listing@.language)]);
            let mut j: usize = 0;
            while j < listing.entries.len()
                invariant
                    j <= listing.entries.len(),
                    i < view.languages.len(),
                    listing == &view.languages[i as int],
                    listing@ == view@.languages[i as int],
                    listing@.language != base_language@,
                    base == &view.languages[b as int],
                    base@.entries == base_entries,
                    base_entries == view@.entries_of(base_language@),
                    plain_ready(view@, base_language@),
                    rows_view(rows@) =~= seq![plain_header(base_language@, listing@.language)]
                        + plain_rows(listing@.entries, base_entries, j as int),
                decreases listing.entries.len() - j,
            {
                let entry = &listing.entries[j];
                assert(entry@ == view@.languages[i as int].entries[j as int]);
                assert(has_base(entry@, base_entries));
                match base.find(entry.key.as_str()) {
                    Some(k) => {
                        assert(base.entries[k as int]@ == base_entries[k as int]);
                        push_plain_rows(
                            &mut rows,
                            entry,
                            &base.entries[k].translation,
                            Ghost(base_entries),
                        );
                    },
                    None => {},
                }
                j = j + 1;
            }
            let ghost before = converted_view(out@);
            let converted = Converted { table: Table { rows }, language: listing.language.clone() };
            out.push(converted);
            assert(converted_view(out@) =~= before.push(converted@));
        }
        i = i + 1;
    }
    out
}

} // verus!
