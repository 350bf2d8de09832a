use xcstringsdocx::catalog::{
    Catalog, CatalogEntry, LanguageView, LocalizationView, LocalizedEntry, Parsed, PluralCategory,
    PluralForms, StringUnit, TranslationGroup, TranslationState,
};
use xcstringsdocx::docx_metadata::read::{count_filled, read, translated_status, TranslatedStatus};
use xcstringsdocx::error::ConvertError;
use xcstringsdocx::xcstrings_docx_merger::docx_extractor::{Extract, ExtractContainer};
use xcstringsdocx::xcstrings_metadata::read::{extract, language_export, Export, ExportContainer};
use xcstringsdocx::catalog::PluralCategory::{Few, One, Other};
use xcstringsdocx::catalog::TranslationState::{New, Translated};

fn unit(value: &str, state: TranslationState) -> StringUnit {
    StringUnit { value: value.to_string(), state }
}

fn simple(value: &str, state: TranslationState) -> TranslationGroup {
    TranslationGroup::Simple(unit(value, state))
}

fn plural(units: &[(PluralCategory, &str, TranslationState)]) -> TranslationGroup {
    let mut forms = PluralForms::new();
    for (category, value, state) in units {
        forms.set(*category, unit(value, *state));
    }
    TranslationGroup::Pluralized(forms)
}

fn entry(key: &str, translation: TranslationGroup) -> LocalizedEntry {
    LocalizedEntry { key: key.to_string(), comment: String::new(), translation }
}

fn language(code: &str, word_count: usize, entries: Vec<LocalizedEntry>) -> LanguageView {
    LanguageView { language: code.to_string(), word_count, entries }
}

fn catalog(source: &str, keys: &[&str]) -> Catalog {
    Catalog {
        source_language: source.to_string(),
        entries: keys
            .iter()
            .map(|k| CatalogEntry {
                key: k.to_string(),
                comment: String::new(),
                localizations: vec![],
            })
            .collect(),
    }
}

fn record(key: &str, translated: &str) -> Extract {
    Extract { key: key.to_string(), variation: None, translated: translated.to_string() }
}

fn records(language: &str, extracted: Vec<Extract>) -> ExtractContainer {
    ExtractContainer { language_code: language.to_string(), extracted }
}

fn sample() -> Parsed {
    Parsed {
        catalog: catalog("en", &["bye", "greeting", "inline", "items"]),
        localized: LocalizationView {
            languages: vec![
                language(
                    "en",
                    7,
                    vec![
                        entry("bye", simple("Bye", New)),
                        entry("greeting", simple("Hi", Translated)),
                        entry("items", plural(&[(One, "%d item", New), (Other, "%d items", New)])),
                    ],
                ),
                language(
                    "nl",
                    3,
                    vec![
                        entry("greeting", simple("Hallo", Translated)),
                        entry("bye", simple("", New)),
                    ],
                ),
                language(
                    "pl",
                    5,
                    vec![entry(
                        "items",
                        plural(&[(One, "a", Translated), (Few, "", New), (Other, "c", Translated)]),
                    )],
                ),
            ],
        },
    }
}

fn export(code: &str, words: usize, localized: usize, not_localized: usize) -> Export {
    Export {
        language_code: code.to_string(),
        word_count: words,
        localized_keys: localized,
        not_localized_keys: not_localized,
    }
}

#[test]
fn read_test_read() {
    assert_eq!(
        extract(&sample()).unwrap(),
        ExportContainer {
            export: vec![
                export("en", 7, 4, 1),
                export("nl", 3, 1, 4),
                export("pl", 5, 2, 4),
            ],
            base_language: "en".to_string(),
        }
    );
}

#[test]
fn every_key_is_counted_once() {
    let parsed = sample();
    let source = &parsed.localized.languages[0];
    for index in 0..parsed.localized.languages.len() {
        let own = &parsed.localized.languages[index];
        let mut units = 0;
        for key in parsed.catalog.entries.iter().map(|e| e.key.as_str()) {
            let holder = match own.find(key) {
                Some(i) => Some(&own.entries[i]),
                None => source.find(key).map(|i| &source.entries[i]),
            };
            units += match holder.map(|e| &e.translation) {
                Some(TranslationGroup::Pluralized(forms)) => forms.count(),
                _ => 1,
            };
        }
        let one = language_export(&parsed, index).unwrap();
        assert_eq!(one.localized_keys + one.not_localized_keys, units);
    }
}

#[test]
fn a_key_that_the_source_language_lacks_counts_once() {
    let parsed = Parsed {
        catalog: catalog("en", &["a", "b"]),
        localized: LocalizationView { languages: vec![language("nl", 0, vec![])] },
    };
    assert_eq!(extract(&parsed).unwrap().export, vec![export("nl", 0, 0, 2)]);
}

#[test]
fn a_pluralized_source_without_categories_counts_nothing() {
    let parsed = Parsed {
        catalog: catalog("en", &["a"]),
        localized: LocalizationView {
            languages: vec![
                language("en", 0, vec![entry("a", plural(&[]))]),
                language("nl", 0, vec![]),
            ],
        },
    };
    assert_eq!(
        extract(&parsed).unwrap().export,
        vec![export("en", 0, 0, 0), export("nl", 0, 0, 0)]
    );
}

#[test]
fn a_key_that_the_catalog_has_twice_is_left_over_once() {
    let parsed = Parsed {
        catalog: catalog("en", &["a", "a", "b"]),
        localized: LocalizationView { languages: vec![language("nl", 0, vec![])] },
    };
    assert_eq!(extract(&parsed).unwrap().export, vec![export("nl", 0, 0, 2)]);
}

#[test]
fn an_entry_with_a_key_that_the_catalog_has_not() {
    let mut parsed = sample();
    parsed.localized.languages[1].entries.push(entry("stray", simple("x", TranslationState::New)));
    assert_eq!(
        extract(&parsed).unwrap_err(),
        ConvertError::Wrapped("No key found for: stray".to_string())
    );
    assert_eq!(language_export(&parsed, 0).unwrap(), export("en", 7, 4, 1));
}

#[test]
fn a_second_entry_with_a_key() {
    let mut parsed = sample();
    parsed.localized.languages[2].entries.push(entry("items", simple("x", TranslationState::New)));
    assert_eq!(
        extract(&parsed).unwrap_err(),
        ConvertError::Wrapped("No key found for: items".to_string())
    );
}

#[test]
fn a_catalog_without_a_listing() {
    let parsed = Parsed {
        catalog: catalog("en", &["a"]),
        localized: LocalizationView { languages: vec![] },
    };
    assert_eq!(
        extract(&parsed).unwrap(),
        ExportContainer { export: vec![], base_language: "en".to_string() }
    );
}

#[test]
fn test() {
    let report = read(
        &records("nl", vec![record("greeting", "Hallo"), record("bye", " "), record("bye", "x")]),
        Some(&sample()),
    )
    .unwrap();
    assert_eq!(report.language_code, "nl");
    assert_eq!(report.localized_keys, 2);
    assert_eq!(report.translated_status, TranslatedStatus::Translated(5));
}

#[test]
fn keys_that_the_catalog_has_not_are_told() {
    let parsed = Parsed {
        catalog: catalog("en", &["a"]),
        localized: LocalizationView { languages: vec![] },
    };
    let status =
        translated_status(&records("nl", vec![record("a", "x"), record("b", "y")]), Some(&parsed))
            .unwrap();
    assert_eq!(status, TranslatedStatus::NoMatchingXcstringsKey(vec!["b".to_string()]));
}

#[test]
fn unknown_keys_are_told_once_and_in_order() {
    let status = translated_status(
        &records(
            "nl",
            vec![
                record("z", ""),
                record("greeting", ""),
                record("y", ""),
                record("z", ""),
                record("y", ""),
            ],
        ),
        Some(&sample()),
    )
    .unwrap();
    assert_eq!(
        status,
        TranslatedStatus::NoMatchingXcstringsKey(vec!["z".to_string(), "y".to_string()])
    );
}

#[test]
fn unknown_keys_come_before_the_statistics() {
    let mut parsed = sample();
    parsed.localized.languages[1].entries.push(entry("stray", simple("x", TranslationState::New)));
    assert_eq!(
        translated_status(&records("nl", vec![record("nope", "")]), Some(&parsed)).unwrap(),
        TranslatedStatus::NoMatchingXcstringsKey(vec!["nope".to_string()])
    );
    assert_eq!(
        read(&records("nl", vec![record("bye", "")]), Some(&parsed)).unwrap_err(),
        ConvertError::Wrapped("No key found for: stray".to_string())
    );
}

#[test]
fn a_language_that_the_catalog_does_not_list() {
    let report = read(&records("de", vec![record("bye", "Tschüss")]), Some(&sample())).unwrap();
    assert_eq!(report.translated_status, TranslatedStatus::NotYetInXcstrings);
    assert_eq!(report.localized_keys, 1);
    assert_eq!(report.language_code, "de");
}

#[test]
fn no_catalog_to_hold_the_table_against() {
    let extracted = records("nl", vec![record("a", ""), record("b", "x"), record("c", "\t")]);
    let report = read(&extracted, None).unwrap();
    assert_eq!(report.translated_status, TranslatedStatus::NoXcstringsFile);
    assert_eq!(report.localized_keys, 1);
    assert_eq!(count_filled(&extracted), 1);
}
