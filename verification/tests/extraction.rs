use xcstringsdocx::catalog::PluralCategory;
use xcstringsdocx::document::{
    create_label_cell, create_table_cell, BodyContent, Document, Paragraph, ParagraphContent, Run,
    RunContent, Table, TableCell, TableRow, TableRowContent, Text,
};
use xcstringsdocx::error::ConvertError;
use xcstringsdocx::extension_determiner::{extension_determiner, Export};
use xcstringsdocx::xcstrings_docx_merger::convert::extract_text_from_table_row_content;
use xcstringsdocx::xcstrings_docx_merger::docx_extractor::{
    extract, extract_row, extract_table, resolve_schema, Extract, ExtractContainer, TableSchema,
};

fn row(cells: &[&str]) -> TableRow {
    TableRow {
        cells: cells.iter().map(|c| TableRowContent::TableCell(create_table_cell(c))).collect(),
    }
}

fn table(rows: &[&[&str]]) -> Table {
    Table { rows: rows.iter().map(|r| row(r)).collect() }
}

fn document(tables: Vec<Table>) -> Document {
    let mut content = vec![BodyContent::Other];
    for t in tables {
        content.push(BodyContent::Table(t));
        content.push(BodyContent::Other);
    }
    Document { content }
}

fn wrapped(message: &str) -> ConvertError {
    ConvertError::Wrapped(message.to_string())
}

fn record(key: &str, variation: Option<PluralCategory>, translated: &str) -> Extract {
    Extract { key: key.to_string(), variation, translated: translated.to_string() }
}

#[test]
fn test_extract() {
    let doc = document(vec![table(&[
        &["Key", "Comment", "Variation", "State", "en", "nl"],
        &["greeting", "", "N/A", "", "Hi", "Hallo"],
        &["items", "count", "one", "translated", "%d item", "%d ding"],
        &["items", "count", "other", "", "%d items", ""],
    ])]);
    let extracted = extract(&doc).unwrap();
    assert_eq!(
        extracted,
        ExtractContainer {
            language_code: "nl".to_string(),
            extracted: vec![
                record("greeting", None, "Hallo"),
                record("items", Some(PluralCategory::One), "%d ding"),
                record("items", Some(PluralCategory::Other), ""),
            ],
        }
    );
}

#[test]
fn header_names_the_columns() {
    let schema = resolve_schema(&row(&["Key", "Comment", "Variation", "en", "nl"])).unwrap();
    assert_eq!(
        schema,
        TableSchema {
            index_key: 0,
            index_variation: 2,
            index_translated: 4,
            language_code: "nl".to_string(),
        }
    );
}

#[test]
fn header_is_read_trimmed_and_wherever_the_columns_stand() {
    let schema = resolve_schema(&row(&[" x ", "Variation\n", "\nKey ", "  fr-CA \n"])).unwrap();
    assert_eq!(
        schema,
        TableSchema {
            index_key: 2,
            index_variation: 1,
            index_translated: 3,
            language_code: "fr-CA".to_string(),
        }
    );
}

#[test]
fn header_with_an_empty_first_run_is_read() {
    let bold = |text: &str| {
        TableRowContent::TableCell(TableCell {
            content: vec![Paragraph {
                content: vec![
                    ParagraphContent::Run(Run { content: vec![] }),
                    ParagraphContent::Run(Run {
                        content: vec![RunContent::Text(Text {
                            text: text.to_string(),
                            preserve_space: false,
                        })],
                    }),
                ],
            }],
        })
    };
    let header = TableRow { cells: vec![bold("Key"), bold("Variation"), bold("de")] };
    let schema = resolve_schema(&header).unwrap();
    assert_eq!(schema.index_key, 0);
    assert_eq!(schema.index_variation, 1);
    assert_eq!(schema.index_translated, 2);
    assert_eq!(schema.language_code, "de");
}

#[test]
fn the_last_of_two_columns_with_a_label_counts() {
    let schema = resolve_schema(&row(&["Key", "Variation", "Key", "Variation", "nl"])).unwrap();
    assert_eq!(schema.index_key, 2);
    assert_eq!(schema.index_variation, 3);
}

#[test]
fn labels_are_matched_exactly() {
    assert_eq!(
        resolve_schema(&row(&["key", "Variation", "nl"])).unwrap_err(),
        wrapped("There is no key column")
    );
    assert_eq!(
        resolve_schema(&row(&["Key", "variation", "nl"])).unwrap_err(),
        wrapped("There is no variation column")
    );
}

#[test]
fn header_without_columns() {
    assert_eq!(
        resolve_schema(&TableRow { cells: vec![] }).unwrap_err(),
        wrapped("There is no language code, this should be the last column")
    );
    assert_eq!(
        extract_table(&Table { rows: vec![] }).unwrap_err(),
        wrapped("There is no language code, this should be the last column")
    );
}

#[test]
fn header_with_something_that_is_not_a_cell() {
    let header = TableRow {
        cells: vec![
            TableRowContent::TableCell(create_label_cell("Key")),
            TableRowContent::Other,
            TableRowContent::TableCell(create_label_cell("Variation")),
        ],
    };
    assert_eq!(resolve_schema(&header).unwrap_err(), ConvertError::corrupted_docx_file());
}

#[test]
fn document_without_a_table_or_with_two() {
    let one = table(&[&["Key", "Variation", "nl"]]);
    assert_eq!(extract(&document(vec![])).unwrap_err(), ConvertError::corrupted_docx_file());
    assert_eq!(
        extract(&Document { content: vec![] }).unwrap_err(),
        ConvertError::corrupted_docx_file()
    );
    assert_eq!(
        extract(&document(vec![one.clone(), one.clone()])).unwrap_err(),
        ConvertError::corrupted_docx_file()
    );
    assert_eq!(
        extract(&document(vec![one])).unwrap(),
        ExtractContainer { language_code: "nl".to_string(), extracted: vec![] }
    );
}

#[test]
fn empty_key_is_an_error_that_tells_the_row() {
    let t = table(&[
        &["Key", "Variation", "nl"],
        &["a", "N/A", "x"],
        &["  ", "one", "say \"hi\"\n"],
    ]);
    assert_eq!(
        extract_table(&t).unwrap_err(),
        wrapped(
            "Found empty key in row 2, variation: \"one\", translated value: \"say \\\"hi\\\"\\n\""
        )
    );
}

#[test]
fn empty_variation_is_an_error_that_tells_the_row() {
    let mut rows: Vec<Vec<&str>> = vec![vec!["Key", "Variation", "nl"]];
    for _ in 0..11 {
        rows.push(vec!["a", "N/A", "x"]);
    }
    rows.push(vec!["b", " ", "y"]);
    let t = Table { rows: rows.iter().map(|r| row(r)).collect() };
    assert_eq!(
        extract_table(&t).unwrap_err(),
        wrapped("Found empty variation in row 12, key: \"b\", translated value: \"y\"")
    );
}

#[test]
fn empty_key_comes_before_empty_variation() {
    let t = table(&[&["Key", "Variation", "nl"], &["", "", ""]]);
    assert_eq!(
        extract_table(&t).unwrap_err(),
        wrapped("Found empty key in row 1, variation: \"\", translated value: \"\"")
    );
}

#[test]
fn the_first_row_in_error_stops_the_extraction() {
    let t = table(&[
        &["Key", "Variation", "nl"],
        &["a", "", "x"],
        &["", "N/A", "y"],
    ]);
    assert_eq!(
        extract_table(&t).unwrap_err(),
        wrapped("Found empty variation in row 1, key: \"a\", translated value: \"x\"")
    );
}

#[test]
fn a_row_that_is_too_short_is_corrupted() {
    let t = table(&[&["Key", "Variation", "en", "nl"], &["a", "N/A", "x"]]);
    assert_eq!(extract_table(&t).unwrap_err(), ConvertError::corrupted_docx_file());
}

#[test]
fn a_row_with_something_that_is_not_a_cell_is_corrupted() {
    let schema = resolve_schema(&row(&["Key", "Variation", "nl"])).unwrap();
    let mut r = row(&["a", "N/A", "x"]);
    r.cells[2] = TableRowContent::Other;
    assert_eq!(extract_row(&r, &schema, 1).unwrap_err(), ConvertError::corrupted_docx_file());
}

#[test]
fn key_and_category_are_trimmed_and_the_translation_is_not() {
    let schema = resolve_schema(&row(&["Key", "Variation", "nl"])).unwrap();
    let r = row(&[" a b \n", "\tfew ", "  Hallo \n"]);
    assert_eq!(
        extract_row(&r, &schema, 7).unwrap(),
        record("a b", Some(PluralCategory::Few), "  Hallo \n")
    );
}

#[test]
fn category_labels_lead_to_their_categories() {
    let schema = resolve_schema(&row(&["Key", "Variation", "nl"])).unwrap();
    let expected = [
        ("Zero", Some(PluralCategory::Zero)),
        ("one", Some(PluralCategory::One)),
        ("two", Some(PluralCategory::Two)),
        ("few", Some(PluralCategory::Few)),
        ("many", Some(PluralCategory::Many)),
        ("other", Some(PluralCategory::Other)),
        ("N/A", None),
        ("One", None),
        ("zero", None),
        ("something", None),
    ];
    for (label, category) in expected {
        let r = row(&["k", label, ""]);
        assert_eq!(extract_row(&r, &schema, 1).unwrap(), record("k", category, ""));
    }
}

#[test]
fn a_row_longer_than_the_header_is_read_in_the_columns_of_the_header() {
    let t = table(&[&["Key", "Variation", "nl"], &["a", "N/A", "x", "extra"]]);
    assert_eq!(extract_table(&t).unwrap().extracted, vec![record("a", None, "x")]);
}

#[test]
fn the_text_of_a_row_item_is_found_under_the_merger_too() {
    let cell = TableRowContent::TableCell(create_table_cell("a\nb"));
    assert_eq!(extract_text_from_table_row_content(&cell).unwrap(), "a\nb");
}

#[test]
fn file_kinds() {
    let good = document(vec![table(&[&["Key", "Variation", "nl"], &["a", "N/A", "x"]])]);
    let bad = document(vec![table(&[&["Key", "nl"]])]);
    assert_eq!(extension_determiner(Some(&good), false), Export::Docx);
    assert_eq!(extension_determiner(Some(&good), true), Export::Docx);
    assert_eq!(extension_determiner(Some(&bad), true), Export::XCStrings);
    assert_eq!(extension_determiner(Some(&bad), false), Export::Other);
    assert_eq!(extension_determiner(None, true), Export::XCStrings);
    assert_eq!(extension_determiner(None, false), Export::Other);
}
