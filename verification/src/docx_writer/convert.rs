//! The rows that a catalog gives for one target language, and the table made of them.
use vstd::prelude::*;
use vstd::string::*;

use crate::catalog::{
    translation_of, LocalizationView, LocalizedEntry, Parsed, PluralCategory,
    SpecLocalizationView, SpecLocalizedEntry, SpecPluralForms, SpecStringUnit,
    SpecTranslationGroup, StringUnit, TranslationGroup, TranslationState, CATEGORY_COUNT,
};
use crate::docx_writer::config::Config;
use crate::document::{
    create_label_cell, create_table_cell, label_cell, rows_view, text_cell, SpecTable, SpecTableRow,
    SpecTableRowContent, Table, TableRow, TableRowContent,
};
use crate::text::{first_index_of, position_of, same_text, views_of};
use crate::{KEY_COMMENT, KEY_KEY, KEY_STATE, KEY_VARIATION, NO_VARIATION};

verus! {

/// What one row of a table says.
pub struct SpecRow {
    pub key: Seq<char>,
    pub comment: Seq<char>,
    pub variation: Option<PluralCategory>,
    pub state: TranslationState,
    pub base_value: Seq<char>,
    pub target_value: Seq<char>,
}

/// The text of the plural-category cell of a row.
pub open spec fn variation_text(variation: Option<PluralCategory>) -> Seq<char> {
    match variation {
        Some(category) => category.label(),
        None => NO_VARIATION@,
    }
}

/// The text of the state cell of a row: nothing for a text that awaits translation, the
/// name of the state for a translated one.
pub open spec fn state_text(state: TranslationState) -> Seq<char> {
    match state {
        TranslationState::New => Seq::empty(),
        TranslationState::Translated => TranslationState::Translated.label(),
    }
}

/// The unit that the target language has for a row of `category`: the unit of its
/// translation of the key, where it has one of the kind that the row asks for.
pub open spec fn target_unit(
    existing: Option<SpecTranslationGroup>,
    category: Option<PluralCategory>,
) -> Option<SpecStringUnit> {
    match existing {
        Some(group) => group.unit(category),
        None => None,
    }
}

/// The row of `entry` for `category`. Where the target language has no unit for it, the
/// row has an empty translation that is new.
pub open spec fn row_for(
    entry: SpecLocalizedEntry,
    category: Option<PluralCategory>,
    base_value: Seq<char>,
    unit: Option<SpecStringUnit>,
) -> SpecRow {
    SpecRow {
        key: entry.key,
        comment: entry.comment,
        variation: category,
        state: match unit {
            Some(u) => u.state,
            None => TranslationState::New,
        },
        base_value: base_value,
        target_value: match unit {
            Some(u) => u.value,
            None => Seq::empty(),
        },
    }
}

/// The rows of a pluralized `entry` for those of the first `n` categories that the base
/// language has, in the fixed order of the categories.
pub open spec fn base_rows(
    entry: SpecLocalizedEntry,
    forms: SpecPluralForms,
    existing: Option<SpecTranslationGroup>,
    n: int,
) -> Seq<SpecRow>
    decreases n,
{
    if n <= 0 {
        Seq::empty()
    } else {
        let category = PluralCategory::at(n - 1);
        let before = base_rows(entry, forms, existing, n - 1);
        match forms.get(category) {
            Some(base) => before.push(
                row_for(entry, Some(category), base.value, target_unit(existing, Some(category))),
            ),
            None => before,
        }
    }
}

/// The rows of a pluralized `entry` for those of the first `n` categories that the target
/// language has and the base language has not. Their base text is empty.
pub open spec fn extra_rows(
    entry: SpecLocalizedEntry,
    forms: SpecPluralForms,
    existing: Option<SpecTranslationGroup>,
    n: int,
) -> Seq<SpecRow>
    decreases n,
{
    if n <= 0 {
        Seq::empty()
    } else {
        let category = PluralCategory::at(n - 1);
        let before = extra_rows(entry, forms, existing, n - 1);
        if forms.get(category) is None && target_unit(existing, Some(category)) is Some {
            before.push(
                row_for(entry, Some(category), Seq::empty(), target_unit(existing, Some(category))),
            )
        } else {
            before
        }
    }
}

/// The rows of one entry of the base language: one row for a simple entry; for a
/// pluralized entry one row for each category of the base language, then one for each
/// category that only the target language has.
pub open spec fn entry_rows(entry: SpecLocalizedEntry, target: Seq<SpecLocalizedEntry>) -> Seq<
    SpecRow,
> {
    let existing = translation_of(target, entry.key);
    match entry.translation {
        SpecTranslationGroup::Simple(base) => seq![
            row_for(entry, None, base.value, target_unit(existing, None)),
        ],
        SpecTranslationGroup::Pluralized(forms) => base_rows(
            entry,
            forms,
            existing,
            CATEGORY_COUNT as int,
        ) + extra_rows(entry, forms, existing, CATEGORY_COUNT as int),
    }
}

/// The rows of the first `n` entries of the base language, in the order of the entries.
pub open spec fn rows_of(base: Seq<SpecLocalizedEntry>, target: Seq<SpecLocalizedEntry>, n: int)
    -> Seq<SpecRow>
    decreases n,
{
    if n <= 0 {
        Seq::empty()
    } else {
        rows_of(base, target, n - 1) + entry_rows(base[n - 1], target)
    }
}

/// The rows of a target language: those of all entries of the base language.
pub open spec fn projected_rows(
    view: SpecLocalizationView,
    base_language: Seq<char>,
    target_language: Seq<char>,
) -> Seq<SpecRow> {
    rows_of(
        view.entries_of(base_language),
        view.entries_of(target_language),
        view.entries_of(base_language).len() as int,
    )
}

/// A cell as an item of a row.
pub open spec fn in_row(cell: crate::document::SpecTableCell) -> SpecTableRowContent {
    SpecTableRowContent::TableCell(cell)
}

/// The header row: key, comment, plural category, the state if asked for, then the two
/// language codes.
pub open spec fn header_row(base_language: Seq<char>, target_language: Seq<char>, with_state: bool)
    -> SpecTableRow {
    if with_state {
        seq![
            in_row(label_cell(KEY_KEY@)),
            in_row(label_cell(KEY_COMMENT@)),
            in_row(label_cell(KEY_VARIATION@)),
            in_row(label_cell(KEY_STATE@)),
            in_row(label_cell(base_language)),
            in_row(label_cell(target_language)),
        ]
    } else {
        seq![
            in_row(label_cell(KEY_KEY@)),
            in_row(label_cell(KEY_COMMENT@)),
            in_row(label_cell(KEY_VARIATION@)),
            in_row(label_cell(base_language)),
            in_row(label_cell(target_language)),
        ]
    }
}

/// The cells of a row, in the order of the header. Key, comment and the two texts have
/// one paragraph for each line.
pub open spec fn row_cells(row: SpecRow, with_state: bool) -> SpecTableRow {
    if with_state {
        seq![
            in_row(text_cell(row.key)),
            in_row(text_cell(row.comment)),
            in_row(label_cell(variation_text(row.variation))),
            in_row(label_cell(state_text(row.state))),
            in_row(text_cell(row.base_value)),
            in_row(text_cell(row.target_value)),
        ]
    } else {
        seq![
            in_row(text_cell(row.key)),
            in_row(text_cell(row.comment)),
            in_row(label_cell(variation_text(row.variation))),
            in_row(text_cell(row.base_value)),
            in_row(text_cell(row.target_value)),
        ]
    }
}

/// The table rows of `rows`, in order.
pub open spec fn table_rows(rows: Seq<SpecRow>, with_state: bool) -> SpecTable {
    Seq::new(rows.len(), |i: int| row_cells(rows[i], with_state))
}

/// The table of a target language: the header row, then the rows of the language.
pub open spec fn projected_table(
    view: SpecLocalizationView,
    base_language: Seq<char>,
    target_language: Seq<char>,
    with_state: bool,
) -> SpecTable {
    seq![header_row(base_language, target_language, with_state)] + table_rows(
        projected_rows(view, base_language, target_language),
        with_state,
    )
}

/// The view of an optional borrowed unit.
pub open spec fn borrowed_unit_view(unit: Option<&StringUnit>) -> Option<SpecStringUnit> {
    match unit {
        Some(u) => Some(u@),
        None => None,
    }
}

/// The view of an optional borrowed translation.
pub open spec fn borrowed_group_view(group: Option<&TranslationGroup>) -> Option<
    SpecTranslationGroup,
> {
    match group {
        Some(g) => Some(g@),
        None => None,
    }
}

/// Makes the header row of a table.
fn make_header(base_language: &str, target_language: &str, with_state: bool) -> (row: TableRow)
    ensures
        row@ == header_row(base_language@, target_language@, with_state),
{
    let mut cells: Vec<TableRowContent> = Vec::new();
    cells.push(TableRowContent::TableCell(create_label_cell(KEY_KEY)));
    cells.push(TableRowContent::TableCell(create_label_cell(KEY_COMMENT)));
    cells.push(TableRowContent::TableCell(create_label_cell(KEY_VARIATION)));
    if with_state {
        cells.push(TableRowContent::TableCell(create_label_cell(KEY_STATE)));
    }
    cells.push(TableRowContent::TableCell(create_label_cell(base_language)));
    cells.push(TableRowContent::TableCell(create_label_cell(target_language)));
    let row = TableRow { cells };
    assert(row@ =~= header_row(base_language@, target_language@, with_state));
    row
}

/// Makes the row of `entry` for `category`.
fn make_row(
    entry: &LocalizedEntry,
    category: Option<PluralCategory>,
    base_value: &str,
    unit: Option<&StringUnit>,
    with_state: bool,
) -> (row: TableRow)
    ensures
        row@ == row_cells(
            row_for(entry@, category, base_value@, borrowed_unit_view(unit)),
            with_state,
        ),
{
    let mut cells: Vec<TableRowContent> = Vec::new();
    cells.push(TableRowContent::TableCell(create_table_cell(entry.key.as_str())));
    cells.push(TableRowContent::TableCell(create_table_cell(entry.comment.as_str())));
    let label = match category {
        Some(c) => c.android_key(),
        None => NO_VARIATION,
    };
    cells.push(TableRowContent::TableCell(create_label_cell(label)));
    if with_state {
        let state = match unit {
            Some(u) => u.state,
            None => TranslationState::New,
        };
        let text = match state {
            TranslationState::New => "",
            TranslationState::Translated => state.as_str(),
        };
        cells.push(TableRowContent::TableCell(create_label_cell(text)));
    }
    cells.push(TableRowContent::TableCell(create_table_cell(base_value)));
    let target_cell = match unit {
        Some(u) => create_table_cell(u.value.as_str()),
        None => create_table_cell(""),
    };
    cells.push(TableRowContent::TableCell(target_cell));
    let row = TableRow { cells };
    proof {
        reveal_strlit("");
        assert(""@ =~= Seq::<char>::empty());
        assert(row@ =~= row_cells(
            row_for(entry@, category, base_value@, borrowed_unit_view(unit)),
            with_state,
        ));
    }
    row
}

/// The unit that a translation has for a row of `category`.
fn unit_of<'a>(existing: Option<&'a TranslationGroup>, category: Option<PluralCategory>) -> (r:
    Option<&'a StringUnit>)
    ensures
        borrowed_unit_view(r) == target_unit(borrowed_group_view(existing), category),
{
    match existing {
        Some(TranslationGroup::Simple(unit)) => match category {
            None => Some(unit),
            Some(_) => None,
        },
        Some(TranslationGroup::Pluralized(forms)) => match category {
            Some(c) => forms.get(c).as_ref(),
            None => None,
        },
        None => None,
    }
}

/// The translation of `key` in the listing of a language, if the language is listed and
/// has the key.
fn existing_translation<'a>(view: &'a LocalizationView, language: Option<usize>, key: &str) -> (r:
    Option<&'a TranslationGroup>)
    requires
        language matches Some(t) ==> t < view.languages.len(),
    ensures
        borrowed_group_view(r) == match language {
            Some(t) => translation_of(view@.languages[t as int].entries, key@),
            None => None,
        },
{
    match language {
        Some(t) => match view.languages[t].find(key) {
            Some(k) => Some(&view.languages[t].entries[k].translation),
            None => None,
        },
        None => None,
    }
}

/// Appends the rows of one entry of the base language to `rows`.
fn push_entry_rows(
    rows: &mut Vec<TableRow>,
    entry: &LocalizedEntry,
    existing: Option<&TranslationGroup>,
    with_state: bool,
    Ghost(target): Ghost<Seq<SpecLocalizedEntry>>,
)
    requires
        borrowed_group_view(existing) == translation_of(target, entry@.key),
    ensures
        rows_view(final(rows)@) == rows_view(old(rows)@) + table_rows(
            entry_rows(entry@, target),
            with_state,
        ),
{
    let ghost start = rows_view(rows@);
    let ghost found = borrowed_group_view(existing);
    match &entry.translation {
        TranslationGroup::Simple(base) => {
            let row = make_row(entry, None, base.value.as_str(), unit_of(existing, None), with_state);
            rows.push(row);
            assert(rows_view(rows@) =~= start + table_rows(
                entry_rows(entry@, target),
                with_state,
            ));
        },
        TranslationGroup::Pluralized(forms) => {
            let ghost mut done: Seq<SpecRow> = Seq::empty();
            let mut i: usize = 0;
            while i < CATEGORY_COUNT
                invariant
                    i <= CATEGORY_COUNT,
                    found == borrowed_group_view(existing),
                    done == base_rows(entry@, forms@, found, i as int),
                    rows_view(rows@) =~= start + table_rows(done, with_state),
                decreases CATEGORY_COUNT - i,
            {
                let category = PluralCategory::from_index(i);
                match forms.get(category) {
                    Some(base) => {
                        let row = make_row(
                            entry,
                            Some(category),
                            base.value.as_str(),
                            unit_of(existing, Some(category)),
                            with_state,
                        );
                        let ghost before = rows_view(rows@);
                        rows.push(row);
                        proof {
                            let next = row_for(
                                entry@,
                                Some(category),
                                base@.value,
                                target_unit(found, Some(category)),
                            );
                            assert(rows_view(rows@) =~= before.push(row@));
                            assert(table_rows(done.push(next), with_state) =~= table_rows(
                                done,
                                with_state,
                            ).push(row_cells(next, with_state)));
                            done = done.push(next);
                        }
                    },
                    None => {},
                }
                i = i + 1;
            }
            let ghost first = done;
            let mut i: usize = 0;
            while i < CATEGORY_COUNT
                invariant
                    i <= CATEGORY_COUNT,
                    found == borrowed_group_view(existing),
                    first == base_rows(entry@, forms@, found, CATEGORY_COUNT as int),
                    done == first + extra_rows(entry@, forms@, found, i as int),
                    rows_view(rows@) =~= start + table_rows(done, with_state),
                decreases CATEGORY_COUNT - i,
            {
                let category = PluralCategory::from_index(i);
                let unit = unit_of(existing, Some(category));
                if forms.get(category).is_none() && unit.is_some() {
                    let row = make_row(entry, Some(category), "", unit, with_state);
                    let ghost before = rows_view(rows@);
                    rows.push(row);
                    proof {
                        reveal_strlit("");
                        assert(""@ =~= Seq::<char>::empty());
                        let next = row_for(
                            entry@,
                            Some(category),
                            Seq::empty(),
                            target_unit(found, Some(category)),
                        );
                        assert(rows_view(rows@) =~= before.push(row@));
                        assert(table_rows(done.push(next), with_state) =~= table_rows(
                            done,
                            with_state,
                        ).push(row_cells(next, with_state)));
                        assert(first + extra_rows(entry@, forms@, found, i as int).push(next)
                            =~= done.push(next));
                        done = done.push(next);
                    }
                }
                i = i + 1;
            }
        },
    }
}

/// Projects the catalog into the table of one target language.
///
/// Returns the table and the number of its rows below the header, which is the number of
/// texts that the table asks a translator for. The listing is only read.
pub fn project(
    view: &LocalizationView,
    base_language: &str,
    target_language: &str,
    with_state: bool,
) -> (r: (Table, usize))
    ensures
        r.0@ == projected_table(view@, base_language@, target_language@, with_state),
        r.1 == projected_rows(view@, base_language@, target_language@).len(),
{
    let base = view.find(base_language);
    let target = view.find(target_language);
    let ghost base_entries = view@.entries_of(base_language@);
    let ghost target_entries = view@.entries_of(target_language@);
    let ghost header = header_row(base_language@, target_language@, with_state);
    let mut rows: Vec<TableRow> = Vec::new();
    rows.push(make_header(base_language, target_language, with_state));
    assert(rows_view(rows@) =~= seq![header]);
    match base {
        Some(b) => {
            let entries = &view.languages[b].entries;
            let mut i: usize = 0;
            while i < entries.len()
                invariant
                    i <= entries.len(),
                    b < view.languages.len(),
                    entries == &view.languages[b as int].entries,
                    base_entries == view@.languages[b as int].entries,
                    target_entries == view@.entries_of(target_language@),
                    target matches Some(t) ==> t < view.languages.len() && t == view@.find(
                        target_language@,
                    ),
                    target is None ==> view@.find(target_language@) == view.languages.len(),
                    rows_view(rows@) =~= seq![header] + table_rows(
                        rows_of(base_entries, target_entries, i as int),
                        with_state,
                    ),
                decreases entries.len() - i,
            {
                let entry = &entries[i];
                assert(entry@ == base_entries[i as int]);
                let existing = existing_translation(view, target, entry.key.as_str());
                let ghost before = rows_view(rows@);
                push_entry_rows(&mut rows, entry, existing, with_state, Ghost(target_entries));
                assert(rows_view(rows@) =~= seq![header] + table_rows(
                    rows_of(base_entries, target_entries, i + 1),
                    with_state,
                ));
                i = i + 1;
            }
        },
        None => {},
    }
    let count = rows.len() - 1;
    (Table { rows }, count)
}

/// What a projection reports for one target language.
#[derive(Clone, Debug, PartialEq, Eq)]
pub struct Export {
    pub amount_keys_to_translate: usize,
    pub language_code: String,
    pub file_name: String,
}

/// The table of one target language with what is reported of it.
#[derive(Clone, Debug, PartialEq, Eq)]
pub struct Converted {
    pub export: Export,
    pub table: Table,
}

/// What a `Converted` holds.
pub struct SpecConverted {
    pub amount_keys_to_translate: nat,
    pub language_code: Seq<char>,
    pub file_name: Seq<char>,
    pub table: SpecTable,
}

impl View for Converted {
    type V = SpecConverted;

    open spec fn view(&self) -> SpecConverted {
        SpecConverted {
            amount_keys_to_translate: self.export.amount_keys_to_translate as nat,
            language_code: self.export.language_code@,
            file_name: self.export.file_name@,
            table: self.table@,
        }
    }
}

/// The language codes that a projection considers: those of the listing, then those it
/// was asked to add.
pub open spec fn candidate_codes(view: SpecLocalizationView, added: Seq<Seq<char>>) -> Seq<
    Seq<char>,
> {
    view.codes() + added
}

/// The target languages among the first `n` of `codes`: each code but the base language,
/// once, in the order of first appearance.
pub open spec fn targets(codes: Seq<Seq<char>>, base_language: Seq<char>, n: int) -> Seq<
    Seq<char>,
>
    decreases n,
{
    if n <= 0 {
        Seq::empty()
    } else {
        let before = targets(codes, base_language, n - 1);
        if codes[n - 1] != base_language && first_index_of(codes, codes[n - 1]) == n - 1 {
            before.push(codes[n - 1])
        } else {
            before
        }
    }
}

/// What is made for one target language: its table, the number of rows below the header,
/// and the name of the file that the table is meant for.
pub open spec fn conversion_of(
    view: SpecLocalizationView,
    base_language: Seq<char>,
    language: Seq<char>,
    with_state: bool,
) -> SpecConverted {
    SpecConverted {
        amount_keys_to_translate: projected_rows(view, base_language, language).len(),
        language_code: language,
        file_name: language + ".docx"@,
        table: projected_table(view, base_language, language, with_state),
    }
}

/// What is made for each of `languages`, in order.
pub open spec fn conversions_of(
    view: SpecLocalizationView,
    base_language: Seq<char>,
    languages: Seq<Seq<char>>,
    with_state: bool,
) -> Seq<SpecConverted> {
    Seq::new(
        languages.len(),
        |i: int| conversion_of(view, base_language, languages[i], with_state),
    )
}

/// What the given conversions hold, in order.
pub open spec fn converted_view(converted: Seq<Converted>) -> Seq<SpecConverted> {
    Seq::new(converted.len(), |i: int| converted[i]@)
}

/// Projects the catalog into one table for each target language.
///
/// The target languages are the languages of the listing and those that `config` adds,
/// each once and without the source language of the catalog, which is the base language
/// of every table.
pub fn convert(localizable: &Parsed, config: &Config) -> (r: Vec<Converted>)
    ensures
        converted_view(r@) == conversions_of(
            localizable@.localized,
            localizable@.catalog.source_language,
            targets(
                candidate_codes(localizable@.localized, views_of(config.new_language_codes@)),
                localizable@.catalog.source_language,
                localizable.localized.languages.len() + config.new_language_codes.len(),
            ),
            config.with_state(),
        ),
{
    let view = &localizable.localized;
    let base_language = localizable.catalog.source_language.as_str();
    let with_state = config.has_state_column();
    let ghost codes = candidate_codes(view@, views_of(config.new_language_codes@));
    let mut all: Vec<String> = Vec::new();
    let mut i: usize = 0;
    while i < view.languages.len()
        invariant
            i <= view.languages.len(),
            views_of(all@) =~= view@.codes().take(i as int),
        decreases view.languages.len() - i,
    {
        let ghost before = views_of(all@);
        let code = view.languages[i].language.clone();
        all.push(code);
        assert(views_of(all@) =~= before.push(code@));
        assert(view@.codes().take(i + 1) =~= view@.codes().take(i as int).push(code@));
        i = i + 1;
    }
    let mut i: usize = 0;
    while i < config.new_language_codes.len()
        invariant
            i <= config.new_language_codes.len(),
            views_of(all@) =~= view@.codes() + views_of(config.new_language_codes@).take(i as int),
        decreases config.new_language_codes.len() - i,
    {
        let ghost before = views_of(all@);
        let ghost added = views_of(config.new_language_codes@);
        let code = config.new_language_codes[i].clone();
        all.push(code);
        assert(views_of(all@) =~= before.push(code@));
        assert(added.take(i + 1) =~= added.take(i as int).push(code@));
        i = i + 1;
    }
    assert(views_of(all@) =~= codes);
    let mut out: Vec<Converted> = Vec::new();
    let mut i: usize = 0;
    while i < all.len()
        invariant
            i <= all.len(),
            views_of(all@) == codes,
            view == &localizable.localized,
            base_language@ == localizable@.catalog.source_language,
            converted_view(out@) =~= conversions_of(
                view@,
                base_language@,
                targets(codes, base_language@, i as int),
                with_state,
            ),
        decreases all.len() - i,
    {
        let language = all[i].as_str();
        assert(language@ == codes[i as int]);
        if !same_text(language, base_language) && position_of(&all, language) == i {
            let (table, count) = project(view, base_language, language, with_state);
            let mut file_name = language.to_owned();
            file_name.append(".docx");
            let ghost before = converted_view(out@);
            let converted = Converted {
                export: Export {
                    amount_keys_to_translate: count,
                    language_code: language.to_owned(),
                    file_name,
                },
                table,
            };
            out.push(converted);
            assert(converted_view(out@) =~= before.push(converted@));
        }
        i = i + 1;
    }
    assert(all.len() == localizable.localized.languages.len() + config.new_language_codes.len());
    out
}

/// How many of the first `n` categories the target language has and the base language
/// has not.
pub open spec fn extra_count(
    forms: SpecPluralForms,
    existing: Option<SpecTranslationGroup>,
    n: int,
) -> nat
    decreases n,
{
    if n <= 0 {
        0
    } else {
        extra_count(forms, existing, n - 1) + if forms.get(PluralCategory::at(n - 1)) is None
            && target_unit(existing, Some(PluralCategory::at(n - 1))) is Some {
            1nat
        } else {
            0nat
        }
    }
}

/// The base categories among the first `n` have one row each.
pub proof fn lemma_base_rows_len(
    entry: SpecLocalizedEntry,
    forms: SpecPluralForms,
    existing: Option<SpecTranslationGroup>,
    n: int,
)
    ensures
        base_rows(entry, forms, existing, n).len() == forms.count_below(n),
    decreases n,
{
    if n > 0 {
        lemma_base_rows_len(entry, forms, existing, n - 1);
    }
}

/// The row of a base category stands at the place that the fixed order gives it: behind
/// the rows of the base categories before it.
pub proof fn lemma_base_row(
    entry: SpecLocalizedEntry,
    forms: SpecPluralForms,
    existing: Option<SpecTranslationGroup>,
    n: int,
    c: PluralCategory,
)
    requires
        c.position() < n,
        forms.get(c) is Some,
    ensures
        forms.count_below(c.position()) < base_rows(entry, forms, existing, n).len(),
        base_rows(entry, forms, existing, n)[forms.count_below(c.position()) as int] == row_for(
            entry,
            Some(c),
            forms.get(c)->Some_0.value,
            target_unit(existing, Some(c)),
        ),
    decreases n,
{
    crate::catalog::lemma_labels_distinct(c);
    lemma_base_rows_len(entry, forms, existing, n - 1);
    if c.position() < n - 1 {
        lemma_base_row(entry, forms, existing, n - 1, c);
    }
}

/// The categories of the target language alone among the first `n` have one row each.
pub proof fn lemma_extra_rows_len(
    entry: SpecLocalizedEntry,
    forms: SpecPluralForms,
    existing: Option<SpecTranslationGroup>,
    n: int,
)
    ensures
        extra_rows(entry, forms, existing, n).len() == extra_count(forms, existing, n),
    decreases n,
{
    if n > 0 {
        lemma_extra_rows_len(entry, forms, existing, n - 1);
    }
}

/// The row of a category of the target language alone stands at the place that the fixed
/// order gives it among the rows of such categories, and has an empty base text.
pub proof fn lemma_extra_row(
    entry: SpecLocalizedEntry,
    forms: SpecPluralForms,
    existing: Option<SpecTranslationGroup>,
    n: int,
    c: PluralCategory,
)
    requires
        c.position() < n,
        forms.get(c) is None,
        target_unit(existing, Some(c)) is Some,
    ensures
        extra_count(forms, existing, c.position()) < extra_rows(entry, forms, existing, n).len(),
        extra_rows(entry, forms, existing, n)[extra_count(forms, existing, c.position()) as int]
            == row_for(entry, Some(c), Seq::empty(), target_unit(existing, Some(c))),
    decreases n,
{
    crate::catalog::lemma_labels_distinct(c);
    lemma_extra_rows_len(entry, forms, existing, n - 1);
    if c.position() < n - 1 {
        lemma_extra_row(entry, forms, existing, n - 1, c);
    }
}

/// A pluralized entry of the base language gets one row for each category that the base
/// language has, in the fixed order of the categories, and behind them one row for each
/// category that only the target language has, in the same order.
///
/// The row of a base category holds the base text and what the target language has for
/// the category; the row of a category of the target language alone holds no base text.
pub proof fn lemma_plural_rows_complete(
    entry: SpecLocalizedEntry,
    target: Seq<SpecLocalizedEntry>,
    category: PluralCategory,
)
    requires
        entry.translation is Pluralized,
    ensures
        ({
            let forms = entry.translation->Pluralized_0;
            let existing = translation_of(target, entry.key);
            let unit = target_unit(existing, Some(category));
            let rows = entry_rows(entry, target);
            let n = CATEGORY_COUNT as int;
            &&& rows.len() == forms.count() + extra_count(forms, existing, n)
            &&& forms.get(category) matches Some(base) ==> {
                &&& forms.count_below(category.position()) < forms.count()
                &&& rows[forms.count_below(category.position()) as int] == row_for(
                    entry,
                    Some(category),
                    base.value,
                    unit,
                )
            }
            &&& forms.get(category) is None && unit is Some ==> {
                &&& extra_count(forms, existing, category.position()) < extra_count(
                    forms,
                    existing,
                    n,
                )
                &&& rows[(forms.count() + extra_count(forms, existing, category.position()))
                    as int] == row_for(entry, Some(category), Seq::empty(), unit)
            }
        }),
{
    let forms = entry.translation->Pluralized_0;
    let existing = translation_of(target, entry.key);
    let n = CATEGORY_COUNT as int;
    let p = category.position();
    lemma_base_rows_len(entry, forms, existing, n);
    lemma_extra_rows_len(entry, forms, existing, n);
    if forms.get(category) is Some {
        lemma_base_row(entry, forms, existing, n, category);
    } else if target_unit(existing, Some(category)) is Some {
        lemma_extra_row(entry, forms, existing, n, category);
    }
}

/// The rows of entry `i` of the base language stand together in the rows of the table,
/// behind the rows of the entries before it.
pub proof fn lemma_entry_rows_in_table(
    base: Seq<SpecLocalizedEntry>,
    target: Seq<SpecLocalizedEntry>,
    i: int,
    n: int,
)
    requires
        0 <= i < n <= base.len(),
    ensures
        rows_of(base, target, i).len() + entry_rows(base[i], target).len() <= rows_of(
            base,
            target,
            n,
        ).len(),
        rows_of(base, target, n).subrange(
            rows_of(base, target, i).len() as int,
            (rows_of(base, target, i).len() + entry_rows(base[i], target).len()) as int,
        ) == entry_rows(base[i], target),
    decreases n - i,
{
    let start = rows_of(base, target, i).len() as int;
    let own = entry_rows(base[i], target);
    if n == i + 1 {
        assert(rows_of(base, target, n).subrange(start, start + own.len()) =~= own);
    } else {
        lemma_entry_rows_in_table(base, target, i, n - 1);
        let shorter = rows_of(base, target, n - 1);
        assert(rows_of(base, target, n).subrange(start, start + own.len()) =~= shorter.subrange(
            start,
            start + own.len(),
        ));
    }
}

} // verus!
