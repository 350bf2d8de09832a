//! From a table to the records of one language: which columns hold what, and one record
//! per row.
use vstd::prelude::*;
use vstd::string::*;

use crate::catalog::PluralCategory;
use crate::document::{
    cell_text, extract_text_from_table_row_content, BodyContent, Document, SpecBodyContent,
    SpecDocument, SpecTable, SpecTableRow, Table, TableRow,
};
use crate::error::{is_outcome, ConvertError};
use crate::text::{debug_quoted, debug_text, decimal, decimal_text, same_text, trim, trimmed};
use crate::{KEY_KEY, KEY_VARIATION};

verus! {

/// One row of a table: a key, the plural category that the row is for, if any, and the
/// text that the translator left.
#[derive(Clone, Debug, PartialEq, Eq)]
pub struct Extract {
    pub key: String,
    pub variation: Option<PluralCategory>,
    pub translated: String,
}

/// What an `Extract` holds.
pub struct SpecExtract {
    pub key: Seq<char>,
    pub variation: Option<PluralCategory>,
    pub translated: Seq<char>,
}

impl View for Extract {
    type V = SpecExtract;

    open spec fn view(&self) -> SpecExtract {
        SpecExtract { key: self.key@, variation: self.variation, translated: self.translated@ }
    }
}

/// The rows of a table and the language that the table is for.
#[derive(Clone, Debug, PartialEq, Eq)]
pub struct ExtractContainer {
    pub language_code: String,
    pub extracted: Vec<Extract>,
}

/// What an `ExtractContainer` holds.
pub struct SpecExtractContainer {
    pub language_code: Seq<char>,
    pub extracted: Seq<SpecExtract>,
}

impl View for ExtractContainer {
    type V = SpecExtractContainer;

    open spec fn view(&self) -> SpecExtractContainer {
        SpecExtractContainer {
            language_code: self.language_code@,
            extracted: Seq::new(self.extracted@.len(), |i: int| self.extracted@[i]@),
        }
    }
}

/// Where the columns of a table are, and the language of its last column.
#[derive(Clone, Debug, PartialEq, Eq)]
pub struct TableSchema {
    pub index_key: usize,
    pub index_variation: usize,
    pub index_translated: usize,
    pub language_code: String,
}

/// What a `TableSchema` holds.
pub struct SpecTableSchema {
    pub index_key: int,
    pub index_variation: int,
    pub index_translated: int,
    pub language_code: Seq<char>,
}

impl View for TableSchema {
    type V = SpecTableSchema;

    open spec fn view(&self) -> SpecTableSchema {
        SpecTableSchema {
            index_key: self.index_key as int,
            index_variation: self.index_variation as int,
            index_translated: self.index_translated as int,
            language_code: self.language_code@,
        }
    }
}

/// The message of the error for a document that does not have the expected structure.
pub open spec fn corrupted_message() -> Seq<char> {
    "Corrupted .docx file"@
}

/// The message of the error for a header without a key column.
pub open spec fn no_key_column_message() -> Seq<char> {
    "There is no key column"@
}

/// The message of the error for a header without a plural-category column.
pub open spec fn no_variation_column_message() -> Seq<char> {
    "There is no variation column"@
}

/// The message of the error for a header without any column.
pub open spec fn no_language_code_message() -> Seq<char> {
    "There is no language code, this should be the last column"@
}

/// The message of the error for row `row` of a table: what was found, the number of the
/// row, and the two other cells of the row as they are shown.
pub open spec fn row_message(
    found: Seq<char>,
    row: nat,
    other_name: Seq<char>,
    other_shown: Seq<char>,
    translated_shown: Seq<char>,
) -> Seq<char> {
    found + decimal_text(row) + other_name + other_shown + ", translated value: "@
        + translated_shown
}

/// The message of the error for row `row` of a table, which has no key. It shows the
/// other two cells of the row as quoted literals.
pub open spec fn empty_key_message(row: nat, variation: Seq<char>, translated: Seq<char>) -> Seq<
    char,
> {
    row_message(
        "Found empty key in row "@,
        row,
        ", variation: "@,
        debug_text(variation),
        debug_text(translated),
    )
}

/// The message of the error for row `row` of a table, whose plural-category cell is empty.
/// It shows the other two cells of the row as quoted literals.
pub open spec fn empty_variation_message(row: nat, key: Seq<char>, translated: Seq<char>) -> Seq<
    char,
> {
    row_message(
        "Found empty variation in row "@,
        row,
        ", key: "@,
        debug_text(key),
        debug_text(translated),
    )
}

/// Whether item `i` of a row exists and is a cell.
pub open spec fn has_cell(row: SpecTableRow, i: int) -> bool {
    0 <= i < row.len() && row[i] is TableCell
}

/// Whether the first `n` items of a row are cells.
pub open spec fn is_cell_row(row: SpecTableRow, n: int) -> bool {
    forall|i: int| 0 <= i < n && i < row.len() ==> (#[trigger] row[i]) is TableCell
}

/// The text of item `i` of a row, trimmed.
pub open spec fn trimmed_cell(row: SpecTableRow, i: int) -> Seq<char> {
    trimmed(cell_text(row[i]->TableCell_0))
}

/// The greatest index below `n` at which the trimmed text of the header is `label`, or -1
/// where there is none.
pub open spec fn last_column(header: SpecTableRow, label: Seq<char>, n: int) -> int
    decreases n,
{
    if n <= 0 {
        -1
    } else if trimmed_cell(header, n - 1) == label {
        n - 1
    } else {
        last_column(header, label, n - 1)
    }
}

/// The columns that a header row names, or the message of the error that the header
/// gives rise to.
///
/// Every item of the header has to be a cell. The key column and the plural-category
/// column are those whose trimmed text is the label; where a label stands twice, the last
/// column counts. The last column is the one of the translation, and its trimmed text is
/// the language code.
pub open spec fn schema_of(header: SpecTableRow) -> Result<SpecTableSchema, Seq<char>> {
    let n = header.len() as int;
    if !is_cell_row(header, n) {
        Err(corrupted_message())
    } else if n == 0 {
        Err(no_language_code_message())
    } else if last_column(header, KEY_KEY@, n) < 0 {
        Err(no_key_column_message())
    } else if last_column(header, KEY_VARIATION@, n) < 0 {
        Err(no_variation_column_message())
    } else {
        Ok(
            SpecTableSchema {
                index_key: last_column(header, KEY_KEY@, n),
                index_variation: last_column(header, KEY_VARIATION@, n),
                index_translated: n - 1,
                language_code: trimmed_cell(header, n - 1),
            },
        )
    }
}

/// The record of row `index` of a table, or the message of the error that the row gives
/// rise to.
///
/// The row has to reach the three columns of the schema, and its items there have to be
/// cells. The key and the plural category are read trimmed and may not be empty; the
/// translation is read as it stands. A category cell that holds no label of a category,
/// such as the marker `N/A`, stands for no category.
pub open spec fn record_of(row: SpecTableRow, schema: SpecTableSchema, index: nat) -> Result<
    SpecExtract,
    Seq<char>,
> {
    if !has_cell(row, schema.index_key) || !has_cell(row, schema.index_variation) || !has_cell(
        row,
        schema.index_translated,
    ) {
        Err(corrupted_message())
    } else {
        let key = trimmed_cell(row, schema.index_key);
        let variation = trimmed_cell(row, schema.index_variation);
        let translated = cell_text(row[schema.index_translated]->TableCell_0);
        if key.len() == 0 {
            Err(empty_key_message(index, variation, translated))
        } else if variation.len() == 0 {
            Err(empty_variation_message(index, key, translated))
        } else {
            Ok(
                SpecExtract {
                    key: key,
                    variation: PluralCategory::of_label(variation),
                    translated: translated,
                },
            )
        }
    }
}

/// The records of the rows 1 to `n - 1` of a table, in order, or the message of the error
/// of the first row that gives rise to one.
pub open spec fn records_of(table: SpecTable, schema: SpecTableSchema, n: int) -> Result<
    Seq<SpecExtract>,
    Seq<char>,
>
    decreases n,
{
    if n <= 1 {
        Ok(Seq::empty())
    } else {
        match records_of(table, schema, n - 1) {
            Err(message) => Err(message),
            Ok(records) => match record_of(table[n - 1], schema, (n - 1) as nat) {
                Err(message) => Err(message),
                Ok(record) => Ok(records.push(record)),
            },
        }
    }
}

/// What a table holds: the language of its header and the records of its rows, or the
/// message of the first error. A table without rows has no header to read.
pub open spec fn extraction_of(table: SpecTable) -> Result<SpecExtractContainer, Seq<char>> {
    if table.len() == 0 {
        Err(no_language_code_message())
    } else {
        match schema_of(table[0]) {
            Err(message) => Err(message),
            Ok(schema) => match records_of(table, schema, table.len() as int) {
                Err(message) => Err(message),
                Ok(records) => Ok(
                    SpecExtractContainer { language_code: schema.language_code, extracted: records },
                ),
            },
        }
    }
}

/// The tables among the first `n` items of a document, in order.
pub open spec fn tables_of(document: SpecDocument, n: int) -> Seq<SpecTable>
    decreases n,
{
    if n <= 0 {
        Seq::empty()
    } else {
        match document[n - 1] {
            SpecBodyContent::Table(table) => tables_of(document, n - 1).push(table),
            SpecBodyContent::Other => tables_of(document, n - 1),
        }
    }
}

/// What a document holds: what its one table holds, or the message of the first error.
/// A document without a table, or with more than one, is corrupted.
pub open spec fn document_extraction(document: SpecDocument) -> Result<
    SpecExtractContainer,
    Seq<char>,
> {
    let tables = tables_of(document, document.len() as int);
    if tables.len() != 1 {
        Err(corrupted_message())
    } else {
        extraction_of(tables[0])
    }
}

/// Finds the columns that the header row of a table names.
pub fn resolve_schema(header: &TableRow) -> (r: Result<TableSchema, ConvertError>)
    ensures
        is_outcome(r, schema_of(header@)),
{
    let n = header.cells.len();
    let mut index_key: Option<usize> = None;
    let mut index_variation: Option<usize> = None;
    let mut language_code: Option<String> = None;
    let mut i: usize = 0;
    while i < n
        invariant
            i <= n,
            n == header.cells.len(),
            is_cell_row(header@, i as int),
            match index_key {
                Some(k) => k == last_column(header@, KEY_KEY@, i as int),
                None => last_column(header@, KEY_KEY@, i as int) == -1,
            },
            match index_variation {
                Some(k) => k == last_column(header@, KEY_VARIATION@, i as int),
                None => last_column(header@, KEY_VARIATION@, i as int) == -1,
            },
            match language_code {
                Some(code) => i == n && n > 0 && code@ == trimmed_cell(header@, n - 1),
                None => i < n || n == 0,
            },
        decreases n - i,
    {
        let raw = match extract_text_from_table_row_content(&header.cells[i]) {
            Ok(raw) => raw,
            Err(e) => {
                assert(!(header@[i as int] is TableCell));
                return Err(e);
            },
        };
        let text = trim(raw.as_str());
        assert(text@ == trimmed_cell(header@, i as int));
        if same_text(text, KEY_KEY) {
            index_key = Some(i);
        }
        if same_text(text, KEY_VARIATION) {
            index_variation = Some(i);
        }
        if i + 1 == n {
            language_code = Some(text.to_owned());
        }
        i = i + 1;
    }
    let language_code = match language_code {
        Some(code) => code,
        None => {
            return Err(
                ConvertError::from(
                    "There is no language code, this should be the last column".to_owned(),
                ),
            );
        },
    };
    let index_key = match index_key {
        Some(k) => k,
        None => {
            return Err(ConvertError::from("There is no key column".to_owned()));
        },
    };
    let index_variation = match index_variation {
        Some(k) => k,
        None => {
            return Err(ConvertError::from("There is no variation column".to_owned()));
        },
    };
    Ok(TableSchema { index_key, index_variation, index_translated: n - 1, language_code })
}

/// The error for row `row` of a table: what was found, the number of the row, and the two
/// other cells of the row as they are to be shown.
pub fn row_error(
    found: &str,
    row: usize,
    other_name: &str,
    other_shown: &str,
    translated_shown: &str,
) -> (e: ConvertError)
    ensures
        e@ == row_message(found@, row as nat, other_name@, other_shown@, translated_shown@),
{
    let mut message = found.to_owned();
    message.append(decimal(row).as_str());
    message.append(other_name);
    message.append(other_shown);
    message.append(", translated value: ");
    message.append(translated_shown);
    ConvertError::from(message)
}

/// Reads the record of row `index` of a table.
pub fn extract_row(row: &TableRow, schema: &TableSchema, index: usize) -> (r: Result<
    Extract,
    ConvertError,
>)
    ensures
        is_outcome(r, record_of(row@, schema@, index as nat)),
{
    let n = row.cells.len();
    if schema.index_key >= n || schema.index_variation >= n || schema.index_translated >= n {
        return Err(ConvertError::corrupted_docx_file());
    }
    let key_raw = match extract_text_from_table_row_content(&row.cells[schema.index_key]) {
        Ok(text) => text,
        Err(e) => {
            return Err(e);
        },
    };
    let variation_raw = match extract_text_from_table_row_content(
        &row.cells[schema.index_variation],
    ) {
        Ok(text) => text,
        Err(e) => {
            return Err(e);
        },
    };
    let translated = match extract_text_from_table_row_content(
        &row.cells[schema.index_translated],
    ) {
        Ok(text) => text,
        Err(e) => {
            return Err(e);
        },
    };
    let key = trim(key_raw.as_str());
    let variation = trim(variation_raw.as_str());
    if key.is_empty() {
        return Err(
            row_error(
                "Found empty key in row ",
                index,
                ", variation: ",
                debug_quoted(variation).as_str(),
                debug_quoted(translated.as_str()).as_str(),
            ),
        );
    }
    if variation.is_empty() {
        return Err(
            row_error(
                "Found empty variation in row ",
                index,
                ", key: ",
                debug_quoted(key).as_str(),
                debug_quoted(translated.as_str()).as_str(),
            ),
        );
    }
    Ok(
        Extract {
            key: key.to_owned(),
            variation: PluralCategory::from_android_key(variation),
            translated,
        },
    )
}

/// Reads what a table holds: the language of its header and one record for each of its
/// other rows.
pub fn extract_table(table: &Table) -> (r: Result<ExtractContainer, ConvertError>)
    ensures
        is_outcome(r, extraction_of(table@)),
{
    if table.rows.len() == 0 {
        return Err(
            ConvertError::from(
                "There is no language code, this should be the last column".to_owned(),
            ),
        );
    }
    let schema = match resolve_schema(&table.rows[0]) {
        Ok(schema) => schema,
        Err(e) => {
            return Err(e);
        },
    };
    let mut extracted: Vec<Extract> = Vec::new();
    let mut i: usize = 1;
    while i < table.rows.len()
        invariant
            1 <= i <= table.rows.len(),
            schema_of(table@[0]) == Ok::<SpecTableSchema, Seq<char>>(schema@),
            records_of(table@, schema@, i as int) is Ok,
            records_of(table@, schema@, i as int)->Ok_0 =~= Seq::new(
                extracted@.len(),
                |j: int| extracted@[j]@,
            ),
        decreases table.rows.len() - i,
    {
        let ghost before = Seq::new(extracted@.len(), |j: int| extracted@[j]@);
        match extract_row(&table.rows[i], &schema, i) {
            Ok(record) => {
                extracted.push(record);
                assert(Seq::new(extracted@.len(), |j: int| extracted@[j]@) =~= before.push(
                    record@,
                ));
            },
            Err(e) => {
                proof {
                    lemma_records_of_error(table@, schema@, i + 1, table.rows.len() as int);
                }
                return Err(e);
            },
        }
        i = i + 1;
    }
    Ok(ExtractContainer { language_code: schema.language_code, extracted })
}

/// Once a row has given rise to an error, the rows behind it do not change the outcome.
pub proof fn lemma_records_of_error(table: SpecTable, schema: SpecTableSchema, n: int, m: int)
    requires
        n <= m,
        records_of(table, schema, n) is Err,
    ensures
        records_of(table, schema, m) == records_of(table, schema, n),
    decreases m - n,
{
    if n < m {
        lemma_records_of_error(table, schema, n, m - 1);
    }
}

/// Reads what the one table of a document holds.
pub fn extract(document: &Document) -> (r: Result<ExtractContainer, ConvertError>)
    ensures
        is_outcome(r, document_extraction(document@)),
{
    let mut count: usize = 0;
    let mut first: usize = 0;
    let mut i: usize = 0;
    while i < document.content.len()
        invariant
            i <= document.content.len(),
            count <= i,
            count == tables_of(document@, i as int).len(),
            count > 0 ==> first < i && document@[first as int] == SpecBodyContent::Table(
                tables_of(document@, i as int)[0],
            ),
        decreases document.content.len() - i,
    {
        match &document.content[i] {
            BodyContent::Table(_) => {
                if count == 0 {
                    first = i;
                }
                count = count + 1;
            },
            BodyContent::Other => {},
        }
        i = i + 1;
    }
    if count != 1 {
        return Err(ConvertError::corrupted_docx_file());
    }
    match &document.content[first] {
        BodyContent::Table(table) => extract_table(table),
        BodyContent::Other => Err(ConvertError::corrupted_docx_file()),
    }
}

} // verus!
