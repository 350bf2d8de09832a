use xcstringsdocx::catalog::{
    Catalog, CatalogEntry, Localization, PluralCategory, PluralForms, StringUnit,
    TranslationGroup, TranslationState,
};
use xcstringsdocx::error::ConvertError;
use xcstringsdocx::xcstrings_docx_merger::convert::{merge, merge_one, Export};
use xcstringsdocx::xcstrings_docx_merger::docx_extractor::{Extract, ExtractContainer};
use xcstringsdocx::catalog::TranslationState::{New, Translated};

fn unit(value: &str, state: TranslationState) -> StringUnit {
    StringUnit { value: value.to_string(), state }
}

fn plural(units: &[(PluralCategory, &str, TranslationState)]) -> TranslationGroup {
    let mut forms = PluralForms::new();
    for (category, value, state) in units {
        forms.set(*category, unit(value, *state));
    }
    TranslationGroup::Pluralized(forms)
}

fn localization(language: &str, group: TranslationGroup) -> Localization {
    Localization { language: language.to_string(), group }
}

fn key(key: &str, localizations: Vec<Localization>) -> CatalogEntry {
    CatalogEntry { key: key.to_string(), comment: String::new(), localizations }
}

fn record(key: &str, variation: Option<PluralCategory>, translated: &str) -> Extract {
    Extract { key: key.to_string(), variation, translated: translated.to_string() }
}

fn records(language: &str, extracted: Vec<Extract>) -> ExtractContainer {
    ExtractContainer { language_code: language.to_string(), extracted }
}

fn sample() -> Catalog {
    Catalog {
        source_language: "en".to_string(),
        entries: vec![
            key(
                "greeting",
                vec![
                    localization("en", TranslationGroup::Simple(unit("Hi", Translated))),
                    localization("nl", TranslationGroup::Simple(unit("", New))),
                ],
            ),
            key(
                "items",
                vec![
                    localization(
                        "en",
                        plural(&[
                            (PluralCategory::One, "%d item", Translated),
                            (PluralCategory::Other, "%d items", Translated),
                        ]),
                    ),
                    localization("nl", plural(&[(PluralCategory::One, "%d ding", Translated)])),
                ],
            ),
            key("bare", vec![]),
        ],
    }
}

#[test]
fn convert_test_read() {
    let mut catalog = sample();
    let export = merge(
        &mut catalog,
        &records(
            "nl",
            vec![
                record("greeting", None, " Hallo "),
                record("items", Some(PluralCategory::One), ""),
                record("items", Some(PluralCategory::Few), "%d dingen"),
                record("bare", None, "  "),
            ],
        ),
    )
    .unwrap();
    assert_eq!(export, Export { keys_translated: 2, keys_to_translate: 2 });
    let mut expected = sample();
    expected.entries[0].localizations[1].group =
        TranslationGroup::Simple(unit("Hallo", TranslationState::Translated));
    expected.entries[1].localizations[1].group = plural(&[
        (PluralCategory::One, "", TranslationState::New),
        (PluralCategory::Few, "%d dingen", TranslationState::Translated),
    ]);
    expected.entries[2]
        .localizations
        .push(localization("nl", TranslationGroup::Simple(unit("", TranslationState::New))));
    assert_eq!(catalog, expected);
}

#[test]
fn a_new_language_gets_the_kind_of_its_first_record() {
    let mut catalog = sample();
    let export = merge(
        &mut catalog,
        &records(
            "pl",
            vec![
                record("items", Some(PluralCategory::Many), "wiele"),
                record("greeting", None, "Cześć"),
            ],
        ),
    )
    .unwrap();
    assert_eq!(export, Export { keys_translated: 2, keys_to_translate: 0 });
    assert_eq!(
        catalog.entries[1].localizations[2],
        localization(
            "pl",
            plural(&[(PluralCategory::Many, "wiele", TranslationState::Translated)])
        )
    );
    assert_eq!(
        catalog.entries[0].localizations[2],
        localization("pl", TranslationGroup::Simple(unit("Cześć", TranslationState::Translated)))
    );
    assert_eq!(catalog.entries[0].localizations[..2], sample().entries[0].localizations[..]);
}

#[test]
fn the_last_record_for_a_unit_wins() {
    let mut catalog = sample();
    let export = merge(
        &mut catalog,
        &records(
            "nl",
            vec![
                record("greeting", None, "one"),
                record("greeting", None, ""),
                record("greeting", None, "three"),
            ],
        ),
    )
    .unwrap();
    assert_eq!(export, Export { keys_translated: 2, keys_to_translate: 1 });
    assert_eq!(
        catalog.entries[0].localizations[1].group,
        TranslationGroup::Simple(unit("three", TranslationState::Translated))
    );
}

#[test]
fn a_key_that_the_catalog_has_not() {
    let mut catalog = sample();
    let error = merge(
        &mut catalog,
        &records("nl", vec![record("greeting", None, "Hallo"), record("nope", None, "x")]),
    )
    .unwrap_err();
    assert_eq!(error, ConvertError::Wrapped("There is no matching key for: nope".to_string()));
    assert_eq!(
        catalog.entries[0].localizations[1].group,
        TranslationGroup::Simple(unit("Hallo", TranslationState::Translated))
    );
}

#[test]
fn a_category_for_a_simple_translation() {
    let mut catalog = sample();
    let error =
        merge_one(&mut catalog, "nl", &record("greeting", Some(PluralCategory::One), "x"))
            .unwrap_err();
    assert_eq!(
        error,
        ConvertError::Wrapped("Expected no variation for key: greeting".to_string())
    );
    assert_eq!(catalog, sample());
}

#[test]
fn no_category_for_a_pluralized_translation() {
    let mut catalog = sample();
    let error = merge_one(&mut catalog, "nl", &record("items", None, "x")).unwrap_err();
    assert_eq!(error, ConvertError::Wrapped("Expected variation for key: items".to_string()));
    assert_eq!(catalog, sample());
}

#[test]
fn one_record_tells_the_state_it_wrote() {
    let mut catalog = sample();
    assert_eq!(
        merge_one(&mut catalog, "nl", &record("greeting", None, "\n")),
        Ok(TranslationState::New)
    );
    assert_eq!(
        merge_one(&mut catalog, "nl", &record("greeting", None, "x")),
        Ok(TranslationState::Translated)
    );
}

#[test]
fn no_records_change_nothing() {
    let mut catalog = sample();
    let export = merge(&mut catalog, &records("nl", vec![])).unwrap();
    assert_eq!(export, Export { keys_translated: 0, keys_to_translate: 0 });
    assert_eq!(catalog, sample());
}

#[test]
fn the_first_of_two_entries_with_a_key_is_the_one_written() {
    let mut catalog = Catalog {
        source_language: "en".to_string(),
        entries: vec![key("a", vec![]), key("a", vec![])],
    };
    merge(&mut catalog, &records("nl", vec![record("a", None, "x")])).unwrap();
    assert_eq!(catalog.entries[0].localizations.len(), 1);
    assert_eq!(catalog.entries[1].localizations.len(), 0);
    assert_eq!(catalog.find("a"), Some(0));
    assert_eq!(catalog.find("b"), None);
    assert_eq!(catalog.entries[0].find("nl"), Some(0));
    assert_eq!(catalog.entries[0].find("en"), None);
    assert_eq!(catalog.clone(), catalog);
}
