use xcstringsdocx::catalog::{
    Catalog, LanguageView, LocalizationView, LocalizedEntry, Parsed, PluralCategory, PluralForms,
    StringUnit, TranslationGroup, TranslationState,
};
use xcstringsdocx::document::{text_of_cell, Table, TableRowContent};
use xcstringsdocx::docx_writer::config::{Column, Config};
use xcstringsdocx::docx_writer::convert::{convert, project};
use xcstringsdocx::catalog::PluralCategory::{Few, Many, One, Other, Two, Zero};
use xcstringsdocx::catalog::TranslationState::{New, Translated};

fn unit(value: &str, state: TranslationState) -> StringUnit {
    StringUnit { value: value.to_string(), state }
}

fn simple(value: &str, state: TranslationState) -> TranslationGroup {
    TranslationGroup::Simple(unit(value, state))
}

fn plural(units: &[(PluralCategory, &str, TranslationState)]) -> TranslationGroup {
    let mut forms = PluralForms::new();
    for (category, value, state) in units {
        forms.set(*category, unit(value, *state));
    }
    TranslationGroup::Pluralized(forms)
}

fn entry(key: &str, comment: &str, translation: TranslationGroup) -> LocalizedEntry {
    LocalizedEntry { key: key.to_string(), comment: comment.to_string(), translation }
}

fn language(code: &str, entries: Vec<LocalizedEntry>) -> LanguageView {
    LanguageView { language: code.to_string(), word_count: 0, entries }
}

fn texts(table: &Table) -> Vec<Vec<String>> {
    table
        .rows
        .iter()
        .map(|row| {
            row.cells
                .iter()
                .map(|cell| match cell {
                    TableRowContent::TableCell(c) => text_of_cell(c),
                    TableRowContent::Other => panic!("not a cell"),
                })
                .collect()
        })
        .collect()
}

fn strings(rows: &[&[&str]]) -> Vec<Vec<String>> {
    rows.iter().map(|r| r.iter().map(|c| c.to_string()).collect()).collect()
}

fn sample() -> LocalizationView {
    LocalizationView {
        languages: vec![
            language(
                "en",
                vec![
                    entry("bye", "leaving", simple("Bye\nnow", Translated)),
                    entry("greeting", "", simple("Hi", Translated)),
                    entry(
                        "items",
                        "count",
                        plural(&[(Other, "%d items", Translated), (One, "%d item", Translated)]),
                    ),
                    entry("only en", "", simple("x", New)),
                ],
            ),
            language(
                "nl",
                vec![
                    entry("greeting", "", simple("Hallo", Translated)),
                    entry(
                        "items",
                        "count",
                        plural(&[(Few, "%d dingen", Translated), (One, "", New)]),
                    ),
                    entry("only nl", "", simple("y", Translated)),
                ],
            ),
        ],
    }
}

#[test]
fn convert_test_convert() {
    let (table, count) = project(&sample(), "en", "nl", true);
    assert_eq!(count, 6);
    assert_eq!(
        texts(&table),
        strings(&[
            &["Key", "Comment", "Variation", "State", "en", "nl"],
            &["bye", "leaving", "N/A", "", "Bye\nnow", ""],
            &["greeting", "", "N/A", "translated", "Hi", "Hallo"],
            &["items", "count", "one", "", "%d item", ""],
            &["items", "count", "other", "", "%d items", ""],
            &["items", "count", "few", "translated", "", "%d dingen"],
            &["only en", "", "N/A", "", "x", ""],
        ])
    );
}

#[test]
fn projection_without_the_state_column() {
    let (table, count) = project(&sample(), "en", "nl", false);
    assert_eq!(count, 6);
    assert_eq!(
        texts(&table),
        strings(&[
            &["Key", "Comment", "Variation", "en", "nl"],
            &["bye", "leaving", "N/A", "Bye\nnow", ""],
            &["greeting", "", "N/A", "Hi", "Hallo"],
            &["items", "count", "one", "%d item", ""],
            &["items", "count", "other", "%d items", ""],
            &["items", "count", "few", "", "%d dingen"],
            &["only en", "", "N/A", "x", ""],
        ])
    );
}

#[test]
fn projection_leaves_the_listing_as_it_was() {
    let view = sample();
    let before = view.clone();
    let _ = project(&view, "en", "nl", true);
    assert_eq!(view, before);
}

#[test]
fn all_six_categories_come_in_their_fixed_order() {
    let view = LocalizationView {
        languages: vec![language(
            "en",
            vec![entry(
                "n",
                "",
                plural(&[
                    (Other, "o", Translated),
                    (Many, "m", Translated),
                    (Few, "f", Translated),
                    (Two, "t", Translated),
                    (One, "1", Translated),
                    (Zero, "0", Translated),
                ]),
            )],
        )],
    };
    let (table, count) = project(&view, "en", "pl", false);
    assert_eq!(count, 6);
    assert_eq!(
        texts(&table),
        strings(&[
            &["Key", "Comment", "Variation", "en", "pl"],
            &["n", "", "Zero", "0", ""],
            &["n", "", "one", "1", ""],
            &["n", "", "two", "t", ""],
            &["n", "", "few", "f", ""],
            &["n", "", "many", "m", ""],
            &["n", "", "other", "o", ""],
        ])
    );
}

#[test]
fn a_translation_of_another_kind_counts_as_none() {
    let view = LocalizationView {
        languages: vec![
            language(
                "en",
                vec![
                    entry("a", "", simple("A", Translated)),
                    entry("b", "", plural(&[(PluralCategory::One, "B", Translated)])),
                ],
            ),
            language(
                "nl",
                vec![
                    entry("a", "", plural(&[(PluralCategory::One, "x", Translated)])),
                    entry("b", "", simple("y", Translated)),
                ],
            ),
        ],
    };
    let (table, count) = project(&view, "en", "nl", true);
    assert_eq!(count, 2);
    assert_eq!(
        texts(&table),
        strings(&[
            &["Key", "Comment", "Variation", "State", "en", "nl"],
            &["a", "", "N/A", "", "A", ""],
            &["b", "", "one", "", "B", ""],
        ])
    );
}

#[test]
fn a_base_language_without_a_listing_gives_the_header_alone() {
    let (table, count) = project(&sample(), "de", "nl", true);
    assert_eq!(count, 0);
    assert_eq!(texts(&table), strings(&[&["Key", "Comment", "Variation", "State", "de", "nl"]]));
}

#[test]
fn the_first_of_two_entries_with_a_key_is_the_one_looked_up() {
    let view = LocalizationView {
        languages: vec![
            language("en", vec![entry("a", "", simple("A", Translated))]),
            language(
                "nl",
                vec![
                    entry("a", "", simple("first", Translated)),
                    entry("a", "", simple("second", Translated)),
                ],
            ),
        ],
    };
    let (table, _) = project(&view, "en", "nl", false);
    assert_eq!(texts(&table)[1], strings(&[&["a", "", "N/A", "A", "first"]])[0]);
}

#[test]
fn lib_test_convert() {
    let parsed = Parsed {
        catalog: Catalog { source_language: "en".to_string(), entries: vec![] },
        localized: sample(),
    };
    let config = Config {
        new_language_codes: vec![
            "pl".to_string(),
            "nl".to_string(),
            "en".to_string(),
            "pl".to_string(),
        ],
        columns_in_output: vec![Column::State],
    };
    assert!(config.has_state_column());
    let converted = convert(&parsed, &config);
    assert_eq!(converted.len(), 2);
    assert_eq!(converted[0].export.language_code, "nl");
    assert_eq!(converted[0].export.file_name, "nl.docx");
    assert_eq!(converted[0].export.amount_keys_to_translate, 6);
    assert_eq!(converted[0].table, project(&parsed.localized, "en", "nl", true).0);
    assert_eq!(converted[1].export.language_code, "pl");
    assert_eq!(converted[1].export.file_name, "pl.docx");
    assert_eq!(converted[1].export.amount_keys_to_translate, 5);
    assert_eq!(
        texts(&converted[1].table),
        strings(&[
            &["Key", "Comment", "Variation", "State", "en", "pl"],
            &["bye", "leaving", "N/A", "", "Bye\nnow", ""],
            &["greeting", "", "N/A", "", "Hi", ""],
            &["items", "count", "one", "", "%d item", ""],
            &["items", "count", "other", "", "%d items", ""],
            &["only en", "", "N/A", "", "x", ""],
        ])
    );
}

#[test]
fn conversion_without_columns_or_languages() {
    let parsed = Parsed {
        catalog: Catalog { source_language: "en".to_string(), entries: vec![] },
        localized: LocalizationView { languages: vec![language("en", vec![])] },
    };
    let config = Config { new_language_codes: vec![], columns_in_output: vec![] };
    assert!(!config.has_state_column());
    assert_eq!(convert(&parsed, &config), vec![]);
}
