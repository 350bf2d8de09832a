use xcstringsdocx::catalog::PluralCategory::{Few, One, Other};
use xcstringsdocx::catalog::TranslationState::{New, Translated};
use xcstringsdocx::catalog::{
    LanguageView, LocalizationView, LocalizedEntry, PluralCategory, PluralForms, StringUnit,
    TranslationGroup, TranslationState,
};
use xcstringsdocx::config::{Config, Converted};
use xcstringsdocx::document::{text_of_cell, Table, TableRowContent};
use xcstringsdocx::docx_writer::convert;

fn unit(value: &str, state: TranslationState) -> StringUnit {
    StringUnit { value: value.to_string(), state }
}

fn simple(value: &str, state: TranslationState) -> TranslationGroup {
    TranslationGroup::Simple(unit(value, state))
}

fn plural(units: &[(PluralCategory, &str, TranslationState)]) -> TranslationGroup {
    let mut forms = PluralForms::new();
    for (category, value, state) in units {
        forms.set(*category, unit(value, *state));
    }
    TranslationGroup::Pluralized(forms)
}

fn entry(key: &str, translation: TranslationGroup) -> LocalizedEntry {
    LocalizedEntry { key: key.to_string(), comment: String::new(), translation }
}

fn language(code: &str, entries: Vec<LocalizedEntry>) -> LanguageView {
    LanguageView { language: code.to_string(), word_count: 0, entries }
}

fn texts(table: &Table) -> Vec<Vec<String>> {
    table
        .rows
        .iter()
        .map(|row| {
            row.cells
                .iter()
                .map(|cell| match cell {
                    TableRowContent::TableCell(c) => text_of_cell(c),
                    TableRowContent::Other => panic!("not a cell"),
                })
                .collect()
        })
        .collect()
}

fn strings(rows: &[&[&str]]) -> Vec<Vec<String>> {
    rows.iter().map(|r| r.iter().map(|c| c.to_string()).collect()).collect()
}

fn sample() -> LocalizationView {
    LocalizationView {
        languages: vec![
            language(
                "en",
                vec![
                    entry("greeting", simple("Hi", Translated)),
                    entry(
                        "items",
                        plural(&[(One, "%d item", Translated), (Other, "%d items", Translated)]),
                    ),
                    entry("only en", simple("x", Translated)),
                ],
            ),
            language(
                "nl",
                vec![
                    entry(
                        "items",
                        plural(&[(Few, "%d dingen", Translated), (One, "", New)]),
                    ),
                    entry("greeting", simple("Hallo", Translated)),
                ],
            ),
            language("pl", vec![]),
        ],
    }
}

#[test]
fn plain_tables_have_a_row_for_each_text_of_the_language() {
    let converted = convert(&sample(), &Config { base_language_code: "en".to_string() });
    assert_eq!(converted.len(), 2);
    assert_eq!(converted[0].language, "nl");
    assert_eq!(
        texts(&converted[0].table),
        strings(&[
            &["key", "variation", "state", "en", "nl"],
            &["items", "one", "new", "%d item", ""],
            &[
                "items",
                "few",
                "translated",
                "Variation: one, translation: %d item\nVariation: other, translation: %d items",
                "%d dingen",
            ],
            &["greeting", "N/A", "translated", "Hi", "Hallo"],
        ])
    );
    assert_eq!(converted[1].language, "pl");
    assert_eq!(
        texts(&converted[1].table),
        strings(&[&["key", "variation", "state", "en", "pl"]])
    );
}

#[test]
fn plain_table_of_the_base_language_alone() {
    let view = LocalizationView { languages: vec![language("en", vec![])] };
    let converted: Vec<Converted> =
        convert(&view, &Config { base_language_code: "en".to_string() });
    assert_eq!(converted, vec![]);
}

#[test]
fn a_base_without_categories_gives_an_empty_base_text() {
    let view = LocalizationView {
        languages: vec![
            language("en", vec![entry("n", plural(&[]))]),
            language("nl", vec![entry("n", plural(&[(Other, "x", Translated)]))]),
        ],
    };
    let converted = convert(&view, &Config { base_language_code: "en".to_string() });
    assert_eq!(
        texts(&converted[0].table)[1],
        strings(&[&["n", "other", "translated", "", "x"]])[0]
    );
}
