//! What comes back when the table of a language is read and merged into the catalog it
//! was made from.
use vstd::prelude::*;

use crate::catalog::{
    entry_keys, lemma_labels_distinct, translation_of, PluralCategory, SpecCatalog,
    SpecLocalizedEntry, SpecParsed, SpecStringUnit, SpecTranslationGroup, CATEGORY_COUNT,
};
use crate::document::{
    cell_text, lemma_label_cell_text, lemma_text_cell_text, SpecBodyContent, SpecTableRow,
};
use crate::docx_writer::convert::{
    base_rows, entry_rows, extra_rows, header_row, projected_rows, projected_table, row_cells,
    rows_of, table_rows, target_unit, variation_text, SpecRow,
};
use crate::text::{is_trimmed, lemma_trimmed_of_trimmed, trimmed};
use crate::xcstrings_docx_merger::convert::{
    lemma_merge_record_writes, merge_record, merge_records, merged_group, merged_unit,
};
use crate::xcstrings_docx_merger::docx_extractor::{
    document_extraction, extraction_of, last_column, record_of, records_of, schema_of, tables_of,
    trimmed_cell, SpecExtract, SpecExtractContainer, SpecTableSchema,
};
use crate::{KEY_COMMENT, KEY_KEY, KEY_STATE, KEY_VARIATION};

verus! {

/// The record that a row is read back as.
pub open spec fn record_from(row: SpecRow) -> SpecExtract {
    SpecExtract { key: row.key, variation: row.variation, translated: row.target_value }
}

/// The records that the given rows are read back as, in order.
pub open spec fn records_from(rows: Seq<SpecRow>) -> Seq<SpecExtract> {
    Seq::new(rows.len(), |i: int| record_from(rows[i]))
}

/// Whether the key of a row comes back as it is: it is not empty and has no white space
/// at its ends.
pub open spec fn readable_key(key: Seq<char>) -> bool {
    key.len() > 0 && is_trimmed(key)
}

/// Whether a header with these two language codes names its columns without doubt: the
/// code of the target language has no white space at its ends, and neither code reads as
/// the label of the key column or of the plural-category column.
pub open spec fn readable_codes(base_language: Seq<char>, target_language: Seq<char>) -> bool {
    &&& is_trimmed(target_language)
    &&& target_language != KEY_KEY@
    &&& target_language != KEY_VARIATION@
    &&& trimmed(base_language) != KEY_KEY@
    &&& trimmed(base_language) != KEY_VARIATION@
}

/// The schema of a projected table for a target language.
pub open spec fn projected_schema(with_state: bool, language: Seq<char>) -> SpecTableSchema {
    SpecTableSchema {
        index_key: 0,
        index_variation: 2,
        index_translated: if with_state {
            5
        } else {
            4
        },
        language_code: language,
    }
}

/// The labels of the header and of the plural categories have no white space at their
/// ends and are not empty, and the labels of the header differ from each other.
pub proof fn lemma_labels_readable()
    ensures
        trimmed(KEY_KEY@) == KEY_KEY@,
        trimmed(KEY_COMMENT@) == KEY_COMMENT@,
        trimmed(KEY_VARIATION@) == KEY_VARIATION@,
        trimmed(KEY_STATE@) == KEY_STATE@,
        KEY_COMMENT@ != KEY_KEY@,
        KEY_COMMENT@ != KEY_VARIATION@,
        KEY_STATE@ != KEY_KEY@,
        KEY_STATE@ != KEY_VARIATION@,
        KEY_KEY@ != KEY_VARIATION@,
        forall|variation: Option<PluralCategory>|
            trimmed(#[trigger] variation_text(variation)) == variation_text(variation)
                && variation_text(variation).len() > 0 && PluralCategory::of_label(
                variation_text(variation),
            ) == variation,
{
    reveal_strlit("Key");
    reveal_strlit("Comment");
    reveal_strlit("Variation");
    reveal_strlit("State");
    reveal_strlit("N/A");
    reveal_strlit("Zero");
    reveal_strlit("one");
    reveal_strlit("two");
    reveal_strlit("few");
    reveal_strlit("many");
    reveal_strlit("other");
    lemma_trimmed_of_trimmed(KEY_KEY@);
    lemma_trimmed_of_trimmed(KEY_COMMENT@);
    lemma_trimmed_of_trimmed(KEY_VARIATION@);
    lemma_trimmed_of_trimmed(KEY_STATE@);
    assert(KEY_COMMENT@.len() != KEY_KEY@.len());
    assert(KEY_COMMENT@.len() != KEY_VARIATION@.len());
    assert(KEY_STATE@.len() != KEY_KEY@.len());
    assert(KEY_STATE@.len() != KEY_VARIATION@.len());
    assert(KEY_KEY@.len() != KEY_VARIATION@.len());
    assert forall|variation: Option<PluralCategory>|
        trimmed(#[trigger] variation_text(variation)) == variation_text(variation)
            && variation_text(variation).len() > 0 && PluralCategory::of_label(
            variation_text(variation),
        ) == variation by {
        lemma_trimmed_of_trimmed(variation_text(variation));
        match variation {
            Some(c) => {
                lemma_labels_distinct(c);
            },
            None => {
                lemma_labels_distinct(PluralCategory::Zero);
            },
        }
    }
}

/// The header of a projected table names the key column first, the plural-category
/// column third and the target language last.
pub proof fn lemma_header_schema(
    base_language: Seq<char>,
    target_language: Seq<char>,
    with_state: bool,
)
    requires
        readable_codes(base_language, target_language),
    ensures
        schema_of(header_row(base_language, target_language, with_state)) == Ok::<
            SpecTableSchema,
            Seq<char>,
        >(projected_schema(with_state, target_language)),
{
    let header = header_row(base_language, target_language, with_state);
    let n = header.len() as int;
    lemma_labels_readable();
    lemma_label_cell_text(KEY_KEY@);
    lemma_label_cell_text(KEY_COMMENT@);
    lemma_label_cell_text(KEY_VARIATION@);
    lemma_label_cell_text(KEY_STATE@);
    lemma_label_cell_text(base_language);
    lemma_label_cell_text(target_language);
    lemma_trimmed_of_trimmed(target_language);
    assert(trimmed_cell(header, 0) == KEY_KEY@);
    assert(trimmed_cell(header, 1) == KEY_COMMENT@);
    assert(trimmed_cell(header, 2) == KEY_VARIATION@);
    assert(trimmed_cell(header, n - 1) == target_language);
    assert(trimmed_cell(header, n - 2) == trimmed(base_language));
    if with_state {
        assert(trimmed_cell(header, 3) == KEY_STATE@);
    }
    reveal_with_fuel(last_column, 7);
    assert(last_column(header, KEY_KEY@, n) == 0);
    assert(last_column(header, KEY_VARIATION@, n) == 2);
}

/// A row of a projected table is read back as the record of what it says.
pub proof fn lemma_row_record(row: SpecRow, with_state: bool, language: Seq<char>, index: nat)
    requires
        readable_key(row.key),
    ensures
        record_of(row_cells(row, with_state), projected_schema(with_state, language), index)
            == Ok::<SpecExtract, Seq<char>>(record_from(row)),
{
    let cells = row_cells(row, with_state);
    lemma_labels_readable();
    lemma_text_cell_text(row.key);
    lemma_text_cell_text(row.target_value);
    lemma_label_cell_text(variation_text(row.variation));
    lemma_trimmed_of_trimmed(row.key);
    assert(trimmed_cell(cells, 0) == row.key);
    assert(trimmed_cell(cells, 2) == variation_text(row.variation));
    assert(cell_text(cells[cells.len() - 1]->TableCell_0) == row.target_value);
}

/// The rows of a table below its header are read back as their records, as far as the
/// keys of the rows come back as they are.
pub proof fn lemma_rows_records(
    header: SpecTableRow,
    rows: Seq<SpecRow>,
    with_state: bool,
    language: Seq<char>,
    n: int,
)
    requires
        0 <= n <= rows.len(),
        forall|i: int| 0 <= i < rows.len() ==> readable_key((#[trigger] rows[i]).key),
    ensures
        records_of(
            seq![header] + table_rows(rows, with_state),
            projected_schema(with_state, language),
            n + 1,
        ) == Ok::<Seq<SpecExtract>, Seq<char>>(records_from(rows).take(n)),
    decreases n,
{
    let table = seq![header] + table_rows(rows, with_state);
    let schema = projected_schema(with_state, language);
    if n == 0 {
        assert(records_from(rows).take(0) =~= Seq::empty());
    } else {
        lemma_rows_records(header, rows, with_state, language, n - 1);
        assert(table[n] == row_cells(rows[n - 1], with_state));
        lemma_row_record(rows[n - 1], with_state, language, n as nat);
        assert(records_from(rows).take(n - 1).push(record_from(rows[n - 1])) =~= records_from(
            rows,
        ).take(n));
    }
}

/// A projected table is read back as the target language and the records of its rows, as
/// far as the two language codes and the keys of the rows come back as they are.
pub proof fn lemma_table_extraction(
    rows: Seq<SpecRow>,
    base_language: Seq<char>,
    target_language: Seq<char>,
    with_state: bool,
)
    requires
        readable_codes(base_language, target_language),
        forall|i: int| 0 <= i < rows.len() ==> readable_key((#[trigger] rows[i]).key),
    ensures
        extraction_of(
            seq![header_row(base_language, target_language, with_state)] + table_rows(
                rows,
                with_state,
            ),
        ) == Ok::<SpecExtractContainer, Seq<char>>(
            SpecExtractContainer {
                language_code: target_language,
                extracted: records_from(rows),
            },
        ),
{
    let header = header_row(base_language, target_language, with_state);
    let table = seq![header] + table_rows(rows, with_state);
    lemma_header_schema(base_language, target_language, with_state);
    lemma_rows_records(header, rows, with_state, target_language, rows.len() as int);
    assert(table[0] == header);
    assert(table.len() == rows.len() + 1);
    assert(records_from(rows).take(rows.len() as int) =~= records_from(rows));
}

/// The text of an optional unit: empty where there is no unit.
pub open spec fn value_of(unit: Option<SpecStringUnit>) -> Seq<char> {
    match unit {
        Some(u) => u.value,
        None => Seq::empty(),
    }
}

/// Whether a row is one of an entry of the base language: the entry has the key of the
/// row, the row has a category exactly where the entry is pluralized, and the row holds
/// the text that the target language has for it.
pub open spec fn row_of_entry(
    row: SpecRow,
    entry: SpecLocalizedEntry,
    target: Seq<SpecLocalizedEntry>,
) -> bool {
    &&& row.key == entry.key
    &&& row.variation is Some <==> entry.translation is Pluralized
    &&& row.target_value == value_of(target_unit(translation_of(target, entry.key), row.variation))
}

/// Every row of the base categories of an entry is a row of the entry.
pub proof fn lemma_base_rows_of_entry(
    entry: SpecLocalizedEntry,
    target: Seq<SpecLocalizedEntry>,
    n: int,
    j: int,
)
    requires
        entry.translation is Pluralized,
        0 <= j < base_rows(
            entry,
            entry.translation->Pluralized_0,
            translation_of(target, entry.key),
            n,
        ).len(),
    ensures
        row_of_entry(
            base_rows(
                entry,
                entry.translation->Pluralized_0,
                translation_of(target, entry.key),
                n,
            )[j],
            entry,
            target,
        ),
    decreases n,
{
    let forms = entry.translation->Pluralized_0;
    let existing = translation_of(target, entry.key);
    if n > 0 {
        let before = base_rows(entry, forms, existing, n - 1);
        if j < before.len() {
            lemma_base_rows_of_entry(entry, target, n - 1, j);
        }
    }
}

/// Every row of the categories that only the target language has is a row of the entry.
pub proof fn lemma_extra_rows_of_entry(
    entry: SpecLocalizedEntry,
    target: Seq<SpecLocalizedEntry>,
    n: int,
    j: int,
)
    requires
        entry.translation is Pluralized,
        0 <= j < extra_rows(
            entry,
            entry.translation->Pluralized_0,
            translation_of(target, entry.key),
            n,
        ).len(),
    ensures
        row_of_entry(
            extra_rows(
                entry,
                entry.translation->Pluralized_0,
                translation_of(target, entry.key),
                n,
            )[j],
            entry,
            target,
        ),
    decreases n,
{
    let forms = entry.translation->Pluralized_0;
    let existing = translation_of(target, entry.key);
    if n > 0 {
        let before = extra_rows(entry, forms, existing, n - 1);
        if j < before.len() {
            lemma_extra_rows_of_entry(entry, target, n - 1, j);
        }
    }
}

/// Every row that an entry of the base language gives is a row of the entry.
pub proof fn lemma_entry_rows_of_entry(
    entry: SpecLocalizedEntry,
    target: Seq<SpecLocalizedEntry>,
    j: int,
)
    requires
        0 <= j < entry_rows(entry, target).len(),
    ensures
        row_of_entry(entry_rows(entry, target)[j], entry, target),
{
    match entry.translation {
        SpecTranslationGroup::Simple(_) => {},
        SpecTranslationGroup::Pluralized(forms) => {
            let existing = translation_of(target, entry.key);
            let first = base_rows(entry, forms, existing, CATEGORY_COUNT as int);
            if j < first.len() {
                lemma_base_rows_of_entry(entry, target, CATEGORY_COUNT as int, j);
            } else {
                lemma_extra_rows_of_entry(entry, target, CATEGORY_COUNT as int, j - first.len());
            }
        },
    }
}

/// Every row of a table is a row of one of the entries of the base language.
pub proof fn lemma_row_has_entry(
    base: Seq<SpecLocalizedEntry>,
    target: Seq<SpecLocalizedEntry>,
    n: int,
    j: int,
) -> (i: int)
    requires
        0 <= n <= base.len(),
        0 <= j < rows_of(base, target, n).len(),
    ensures
        0 <= i < n,
        row_of_entry(rows_of(base, target, n)[j], base[i], target),
    decreases n,
{
    let before = rows_of(base, target, n - 1);
    if j < before.len() {
        lemma_row_has_entry(base, target, n - 1, j)
    } else {
        lemma_entry_rows_of_entry(base[n - 1], target, j - before.len());
        n - 1
    }
}

/// Whether two translations are of one kind: both simple, or both pluralized.
pub open spec fn same_kind(group: SpecTranslationGroup, other: SpecTranslationGroup) -> bool {
    group is Pluralized <==> other is Pluralized
}

/// Whether every unit that a catalog has in a language is what a merge would make of its
/// text: the text has no white space at its ends, and the unit is new exactly where the
/// text is empty.
pub open spec fn settled(catalog: SpecCatalog, language: Seq<char>) -> bool {
    forall|key: Seq<char>, category: Option<PluralCategory>|
        (#[trigger] catalog.unit(key, language, category)) matches Some(unit) ==> merged_unit(
            unit.value,
        ) == unit
}

/// Whether the listing of a catalog fits the catalog for a projection from a base
/// language to a target language: the base language lists no key twice; each key it
/// lists comes back from a table as it is, is a key of the catalog, and has in the
/// listing of the target language the translation that the catalog has for it, which is
/// of the kind of the base entry.
pub open spec fn listing_fits(
    parsed: SpecParsed,
    base_language: Seq<char>,
    target_language: Seq<char>,
) -> bool {
    let base = parsed.localized.entries_of(base_language);
    let target = parsed.localized.entries_of(target_language);
    &&& entry_keys(base).no_duplicates()
    &&& forall|i: int|
        0 <= i < base.len() ==> {
            &&& readable_key((#[trigger] base[i]).key)
            &&& parsed.catalog.has_key(base[i].key)
            &&& translation_of(target, base[i].key) == parsed.catalog.group(
                base[i].key,
                target_language,
            )
            &&& parsed.catalog.group(base[i].key, target_language) matches Some(group)
                ==> same_kind(group, base[i].translation)
        }
}

/// What a merge of rows of a table keeps of the catalog `start` it began with: the keys,
/// every unit that the language had, every translation into another language, and the
/// kind of the translations of the keys of the base language.
pub open spec fn merge_keeps(
    start: SpecCatalog,
    now: SpecCatalog,
    base: Seq<SpecLocalizedEntry>,
    language: Seq<char>,
) -> bool {
    &&& now.keys() == start.keys()
    &&& now.source_language == start.source_language
    &&& forall|key: Seq<char>, category: Option<PluralCategory>|
        (#[trigger] start.unit(key, language, category)) is Some ==> now.unit(
            key,
            language,
            category,
        ) == start.unit(key, language, category)
    &&& forall|key: Seq<char>, other: Seq<char>|
        other != language ==> #[trigger] now.group(key, other) == start.group(key, other)
    &&& forall|i: int|
        0 <= i < base.len() ==> (now.group((#[trigger] base[i]).key, language) matches Some(
            group,
        ) ==> same_kind(group, base[i].translation))
}

/// Merging a row of the table of a language into the catalog succeeds and keeps what a
/// merge keeps.
pub proof fn lemma_merge_row(
    parsed: SpecParsed,
    base_language: Seq<char>,
    target_language: Seq<char>,
    now: SpecCatalog,
    row: SpecRow,
    i: int,
)
    requires
        listing_fits(parsed, base_language, target_language),
        settled(parsed.catalog, target_language),
        merge_keeps(
            parsed.catalog,
            now,
            parsed.localized.entries_of(base_language),
            target_language,
        ),
        0 <= i < parsed.localized.entries_of(base_language).len(),
        row_of_entry(
            row,
            parsed.localized.entries_of(base_language)[i],
            parsed.localized.entries_of(target_language),
        ),
    ensures
        merge_record(now, target_language, record_from(row)) is Ok,
        merge_keeps(
            parsed.catalog,
            merge_record(now, target_language, record_from(row))->Ok_0,
            parsed.localized.entries_of(base_language),
            target_language,
        ),
{
    let start = parsed.catalog;
    let base = parsed.localized.entries_of(base_language);
    let target = parsed.localized.entries_of(target_language);
    let record = record_from(row);
    let entry = base[i];
    let unit = merged_unit(row.target_value);
    assert(now.keys().len() == now.entries.len());
    assert(start.keys().len() == start.entries.len());
    assert(now.has_key(row.key));
    let existing = now.group(row.key, target_language);
    assert(existing == now.entries[now.find(row.key)].group(target_language));
    assert(existing matches Some(group) ==> same_kind(group, entry.translation));
    assert(merged_group(existing, row.variation, unit) is Some);
    let after = merge_record(now, target_language, record)->Ok_0;
    lemma_merge_record_writes(now, target_language, record, row.key, target_language, None);
    assert forall|key: Seq<char>, category: Option<PluralCategory>|
        (#[trigger] start.unit(key, target_language, category)) is Some implies after.unit(
        key,
        target_language,
        category,
    ) == start.unit(key, target_language, category) by {
        lemma_merge_record_writes(now, target_language, record, key, target_language, category);
        if key == row.key && category == row.variation {
            assert(translation_of(target, entry.key) == start.group(entry.key, target_language));
            assert(target_unit(translation_of(target, entry.key), row.variation) == start.unit(
                key,
                target_language,
                category,
            ));
        }
    }
    assert forall|key: Seq<char>, other: Seq<char>| other != target_language implies (
    #[trigger] after.group(key, other)) == start.group(key, other) by {
        lemma_merge_record_writes(now, target_language, record, key, other, None);
    }
    assert forall|j: int| 0 <= j < base.len() implies (after.group(
        (#[trigger] base[j]).key,
        target_language,
    ) matches Some(group) ==> same_kind(group, base[j].translation)) by {
        lemma_merge_record_writes(now, target_language, record, base[j].key, target_language, None);
        if base[j].key == row.key {
            assert(entry_keys(base)[j] == entry_keys(base)[i]);
            assert(j == i);
        }
    }
}

/// Merging the first `n` rows of the table of a language into the catalog succeeds and
/// keeps what a merge keeps.
pub proof fn lemma_merge_rows(
    parsed: SpecParsed,
    base_language: Seq<char>,
    target_language: Seq<char>,
    n: int,
)
    requires
        listing_fits(parsed, base_language, target_language),
        settled(parsed.catalog, target_language),
        0 <= n <= projected_rows(parsed.localized, base_language, target_language).len(),
    ensures
        ({
            let merged = merge_records(
                parsed.catalog,
                target_language,
                records_from(projected_rows(parsed.localized, base_language, target_language)),
                n,
            );
            &&& merged.error is None
            &&& merge_keeps(
                parsed.catalog,
                merged.catalog,
                parsed.localized.entries_of(base_language),
                target_language,
            )
        }),
    decreases n,
{
    let base = parsed.localized.entries_of(base_language);
    let target = parsed.localized.entries_of(target_language);
    let rows = projected_rows(parsed.localized, base_language, target_language);
    if n > 0 {
        lemma_merge_rows(parsed, base_language, target_language, n - 1);
        let before = merge_records(parsed.catalog, target_language, records_from(rows), n - 1);
        let i = lemma_row_has_entry(base, target, base.len() as int, n - 1);
        lemma_merge_row(parsed, base_language, target_language, before.catalog, rows[n - 1], i);
        assert(records_from(rows)[n - 1] == record_from(rows[n - 1]));
    }
}

/// Projecting a catalog into the table of a language, reading the table back and merging
/// it into the catalog changes no unit that the language had, and no translation into
/// another language.
///
/// The table is read back as the target language and one record for each row, the merge
/// of the records succeeds, and the catalog it leaves has the keys it had. What the merge
/// adds are units for the rows that the language had no unit for.
///
/// This holds of a catalog whose units in the target language are what a merge makes of
/// their texts, with a listing that fits it, and of language codes that a header names
/// its columns with.
pub proof fn lemma_round_trip(
    parsed: SpecParsed,
    base_language: Seq<char>,
    target_language: Seq<char>,
    with_state: bool,
)
    requires
        readable_codes(base_language, target_language),
        listing_fits(parsed, base_language, target_language),
        settled(parsed.catalog, target_language),
    ensures
        ({
            let table = projected_table(
                parsed.localized,
                base_language,
                target_language,
                with_state,
            );
            let records = records_from(
                projected_rows(parsed.localized, base_language, target_language),
            );
            let read = SpecExtractContainer { language_code: target_language, extracted: records };
            let merged = merge_records(
                parsed.catalog,
                target_language,
                records,
                records.len() as int,
            );
            &&& extraction_of(table) == Ok::<SpecExtractContainer, Seq<char>>(read)
            &&& document_extraction(seq![SpecBodyContent::Table(table)]) == Ok::<
                SpecExtractContainer,
                Seq<char>,
            >(read)
            &&& merged.error is None
            &&& merged.catalog.keys() == parsed.catalog.keys()
            &&& forall|key: Seq<char>, category: Option<PluralCategory>|
                (#[trigger] parsed.catalog.unit(key, target_language, category)) is Some
                    ==> merged.catalog.unit(key, target_language, category)
                    == parsed.catalog.unit(key, target_language, category)
            &&& forall|key: Seq<char>, other: Seq<char>|
                other != target_language ==> #[trigger] merged.catalog.group(key, other)
                    == parsed.catalog.group(key, other)
        }),
{
    let base = parsed.localized.entries_of(base_language);
    let target = parsed.localized.entries_of(target_language);
    let rows = projected_rows(parsed.localized, base_language, target_language);
    let table = projected_table(parsed.localized, base_language, target_language, with_state);
    assert forall|j: int| 0 <= j < rows.len() implies readable_key((#[trigger] rows[j]).key) by {
        let i = lemma_row_has_entry(base, target, base.len() as int, j);
    }
    lemma_table_extraction(rows, base_language, target_language, with_state);
    lemma_merge_rows(parsed, base_language, target_language, rows.len() as int);
    let document = seq![SpecBodyContent::Table(table)];
    assert(tables_of(document, 0) =~= Seq::empty());
    assert(tables_of(document, 1) =~= seq![table]);
}

} // verus!
