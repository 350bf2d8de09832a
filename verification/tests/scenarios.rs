use xcstringsdocx::catalog::{
    Catalog, CatalogEntry, LanguageView, Localization, LocalizationView, LocalizedEntry,
    PluralCategory, PluralForms, StringUnit, TranslationGroup, TranslationState,
};
use xcstringsdocx::document::{
    create_table_cell, text_of_cell, BodyContent, Document, Table, TableRowContent,
};
use xcstringsdocx::docx_writer::convert::project;
use xcstringsdocx::xcstrings_docx_merger::convert::{merge, Export};
use xcstringsdocx::xcstrings_docx_merger::docx_extractor::extract;
use xcstringsdocx::catalog::TranslationState::{New, Translated};

fn unit(value: &str, state: TranslationState) -> StringUnit {
    StringUnit { value: value.to_string(), state }
}

fn plural(units: &[(PluralCategory, &str, TranslationState)]) -> TranslationGroup {
    let mut forms = PluralForms::new();
    for (category, value, state) in units {
        forms.set(*category, unit(value, *state));
    }
    TranslationGroup::Pluralized(forms)
}

fn texts(table: &Table) -> Vec<Vec<String>> {
    table
        .rows
        .iter()
        .map(|row| {
            row.cells
                .iter()
                .map(|cell| match cell {
                    TableRowContent::TableCell(c) => text_of_cell(c),
                    TableRowContent::Other => panic!("not a cell"),
                })
                .collect()
        })
        .collect()
}

fn listing(catalog: &Catalog) -> LocalizationView {
    let mut languages: Vec<LanguageView> = Vec::new();
    for entry in &catalog.entries {
        for localization in &entry.localizations {
            let at = match languages.iter().position(|l| l.language == localization.language) {
                Some(at) => at,
                None => {
                    languages.push(LanguageView {
                        language: localization.language.clone(),
                        word_count: 0,
                        entries: vec![],
                    });
                    languages.len() - 1
                }
            };
            languages[at].entries.push(LocalizedEntry {
                key: entry.key.clone(),
                comment: entry.comment.clone(),
                translation: localization.group.clone(),
            });
        }
    }
    LocalizationView { languages }
}

fn greeting() -> Catalog {
    Catalog {
        source_language: "en".to_string(),
        entries: vec![CatalogEntry {
            key: "greeting".to_string(),
            comment: String::new(),
            localizations: vec![
                Localization {
                    language: "en".to_string(),
                    group: TranslationGroup::Simple(unit("Hi", TranslationState::Translated)),
                },
                Localization {
                    language: "nl".to_string(),
                    group: TranslationGroup::Simple(unit("", TranslationState::New)),
                },
            ],
        }],
    }
}

fn items() -> Catalog {
    Catalog {
        source_language: "en".to_string(),
        entries: vec![CatalogEntry {
            key: "items".to_string(),
            comment: String::new(),
            localizations: vec![
                Localization {
                    language: "en".to_string(),
                    group: plural(&[
                        (PluralCategory::One, "%d item", Translated),
                        (PluralCategory::Other, "%d items", Translated),
                    ]),
                },
                Localization {
                    language: "pl".to_string(),
                    group: plural(&[(PluralCategory::Few, "%d rzeczy", Translated)]),
                },
            ],
        }],
    }
}

#[test]
fn greeting_is_projected_edited_and_merged() {
    let mut catalog = greeting();
    let (mut table, count) = project(&listing(&catalog), "en", "nl", true);
    assert_eq!(count, 1);
    assert_eq!(texts(&table)[1], ["greeting", "", "N/A", "", "Hi", ""]);
    table.rows[1].cells[5] = TableRowContent::TableCell(create_table_cell("Hallo"));
    let extracted = extract(&Document { content: vec![BodyContent::Table(table)] }).unwrap();
    let export = merge(&mut catalog, &extracted).unwrap();
    assert_eq!(export, Export { keys_translated: 1, keys_to_translate: 0 });
    assert_eq!(
        catalog.entries[0].localizations[1].group,
        TranslationGroup::Simple(unit("Hallo", TranslationState::Translated))
    );
    assert_eq!(catalog.entries[0].localizations[0], greeting().entries[0].localizations[0]);
}

#[test]
fn a_category_of_the_target_language_alone_gets_a_row_and_is_merged() {
    let mut catalog = items();
    let (table, count) = project(&listing(&catalog), "en", "pl", false);
    assert_eq!(count, 3);
    let rows = texts(&table);
    assert_eq!(rows[1], ["items", "", "one", "%d item", ""]);
    assert_eq!(rows[2], ["items", "", "other", "%d items", ""]);
    assert_eq!(rows[3], ["items", "", "few", "", "%d rzeczy"]);

    catalog.entries[0].localizations.pop();
    let extracted = extract(&Document { content: vec![BodyContent::Table(table)] }).unwrap();
    let export = merge(&mut catalog, &extracted).unwrap();
    assert_eq!(export, Export { keys_translated: 1, keys_to_translate: 2 });
    assert_eq!(
        catalog.entries[0].localizations[1],
        Localization {
            language: "pl".to_string(),
            group: plural(&[
                (PluralCategory::One, "", TranslationState::New),
                (PluralCategory::Other, "", TranslationState::New),
                (PluralCategory::Few, "%d rzeczy", TranslationState::Translated),
            ]),
        }
    );
}

#[test]
fn what_a_language_had_comes_back_from_its_table() {
    let catalog = Catalog {
        source_language: "en".to_string(),
        entries: vec![
            CatalogEntry {
                key: "a b".to_string(),
                comment: "two\nlines".to_string(),
                localizations: vec![
                    Localization {
                        language: "en".to_string(),
                        group: TranslationGroup::Simple(unit("A\n B", Translated)),
                    },
                    Localization {
                        language: "nl".to_string(),
                        group: TranslationGroup::Simple(unit("a\n\n  b", Translated)),
                    },
                    Localization {
                        language: "de".to_string(),
                        group: TranslationGroup::Simple(unit(" untouched ", New)),
                    },
                ],
            },
            CatalogEntry {
                key: "n".to_string(),
                comment: String::new(),
                localizations: vec![
                    Localization {
                        language: "en".to_string(),
                        group: plural(&[
                            (PluralCategory::Zero, "none", Translated),
                            (PluralCategory::Other, "%d", Translated),
                        ]),
                    },
                    Localization {
                        language: "nl".to_string(),
                        group: plural(&[
                            (PluralCategory::Other, "%d st", Translated),
                            (PluralCategory::Many, "", New),
                        ]),
                    },
                ],
            },
            CatalogEntry {
                key: "later".to_string(),
                comment: String::new(),
                localizations: vec![Localization {
                    language: "en".to_string(),
                    group: TranslationGroup::Simple(unit("Later", Translated)),
                }],
            },
        ],
    };
    for with_state in [false, true] {
        let mut merged = catalog.clone();
        let (table, count) = project(&listing(&catalog), "en", "nl", with_state);
        assert_eq!(count, 5);
        let extracted = extract(&Document { content: vec![BodyContent::Table(table)] }).unwrap();
        assert_eq!(extracted.language_code, "nl");
        let export = merge(&mut merged, &extracted).unwrap();
        assert_eq!(export, Export { keys_translated: 2, keys_to_translate: 3 });

        assert_eq!(merged.entries[0], catalog.entries[0]);
        assert_eq!(merged.entries[1].localizations[0], catalog.entries[1].localizations[0]);
        assert_eq!(
            merged.entries[1].localizations[1].group,
            plural(&[
                (PluralCategory::Zero, "", New),
                (PluralCategory::Other, "%d st", Translated),
                (PluralCategory::Many, "", New),
            ])
        );
        assert_eq!(
            merged.entries[2].localizations,
            vec![
                catalog.entries[2].localizations[0].clone(),
                Localization {
                    language: "nl".to_string(),
                    group: TranslationGroup::Simple(unit("", New)),
                },
            ]
        );
    }
}
