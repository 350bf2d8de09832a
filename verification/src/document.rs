//! The part of a word-processor document that the tables live in, and the text of a cell.
use vstd::prelude::*;
use vstd::string::*;

use crate::error::ConvertError;
use crate::text::{
    join_lines, lemma_join_split_lines, lines_of, same_text, slice_views_of, split_lines, trim,
    trimmed,
};

verus! {

/// A piece of literal text. `preserve_space` asks a reader of the document to keep the
/// white space at the ends of the text.
#[derive(Clone, Debug, PartialEq, Eq)]
pub struct Text {
    pub text: String,
    pub preserve_space: bool,
}

/// What a `Text` holds.
pub struct SpecText {
    pub text: Seq<char>,
    pub preserve_space: bool,
}

impl View for Text {
    type V = SpecText;

    open spec fn view(&self) -> SpecText {
        SpecText { text: self.text@, preserve_space: self.preserve_space }
    }
}

/// What a run holds: text, or anything else that a word processor puts there.
#[derive(Clone, Debug, PartialEq, Eq)]
pub enum RunContent {
    Text(Text),
    Other,
}

/// What a `RunContent` holds.
pub enum SpecRunContent {
    Text(SpecText),
    Other,
}

impl View for RunContent {
    type V = SpecRunContent;

    open spec fn view(&self) -> SpecRunContent {
        match self {
            RunContent::Text(text) => SpecRunContent::Text(text@),
            RunContent::Other => SpecRunContent::Other,
        }
    }
}

/// A region of a paragraph with one formatting.
#[derive(Clone, Debug, PartialEq, Eq)]
pub struct Run {
    pub content: Vec<RunContent>,
}

/// What a `Run` holds.
pub type SpecRun = Seq<SpecRunContent>;

impl View for Run {
    type V = SpecRun;

    open spec fn view(&self) -> SpecRun {
        Seq::new(self.content@.len(), |i: int| self.content@[i]@)
    }
}

/// What a paragraph holds: a run, a link around a run, or a mark without text.
#[derive(Clone, Debug, PartialEq, Eq)]
pub enum ParagraphContent {
    Run(Run),
    Link(Run),
    Other,
}

/// What a `ParagraphContent` holds.
pub enum SpecParagraphContent {
    Run(SpecRun),
    Link(SpecRun),
    Other,
}

impl View for ParagraphContent {
    type V = SpecParagraphContent;

    open spec fn view(&self) -> SpecParagraphContent {
        match self {
            ParagraphContent::Run(run) => SpecParagraphContent::Run(run@),
            ParagraphContent::Link(run) => SpecParagraphContent::Link(run@),
            ParagraphContent::Other => SpecParagraphContent::Other,
        }
    }
}

/// A paragraph.
#[derive(Clone, Debug, PartialEq, Eq)]
pub struct Paragraph {
    pub content: Vec<ParagraphContent>,
}

/// What a `Paragraph` holds.
pub type SpecParagraph = Seq<SpecParagraphContent>;

impl View for Paragraph {
    type V = SpecParagraph;

    open spec fn view(&self) -> SpecParagraph {
        Seq::new(self.content@.len(), |i: int| self.content@[i]@)
    }
}

/// A cell of a table: its paragraphs.
#[derive(Clone, Debug, PartialEq, Eq)]
pub struct TableCell {
    pub content: Vec<Paragraph>,
}

/// What a `TableCell` holds.
pub type SpecTableCell = Seq<SpecParagraph>;

impl View for TableCell {
    type V = SpecTableCell;

    open spec fn view(&self) -> SpecTableCell {
        Seq::new(self.content@.len(), |i: int| self.content@[i]@)
    }
}

/// What stands in a row: a cell, or something that is not a cell.
#[derive(Clone, Debug, PartialEq, Eq)]
pub enum TableRowContent {
    TableCell(TableCell),
    Other,
}

/// What a `TableRowContent` holds.
pub enum SpecTableRowContent {
    TableCell(SpecTableCell),
    Other,
}

impl View for TableRowContent {
    type V = SpecTableRowContent;

    open spec fn view(&self) -> SpecTableRowContent {
        match self {
            TableRowContent::TableCell(cell) => SpecTableRowContent::TableCell(cell@),
            TableRowContent::Other => SpecTableRowContent::Other,
        }
    }
}

/// A row of a table.
#[derive(Clone, Debug, PartialEq, Eq)]
pub struct TableRow {
    pub cells: Vec<TableRowContent>,
}

/// What a `TableRow` holds.
pub type SpecTableRow = Seq<SpecTableRowContent>;

impl View for TableRow {
    type V = SpecTableRow;

    open spec fn view(&self) -> SpecTableRow {
        Seq::new(self.cells@.len(), |i: int| self.cells@[i]@)
    }
}

/// A table: its rows, the first of which is the header.
#[derive(Clone, Debug, PartialEq, Eq)]
pub struct Table {
    pub rows: Vec<TableRow>,
}

/// What a `Table` holds.
pub type SpecTable = Seq<SpecTableRow>;

/// What the given rows hold, in order.
pub open spec fn rows_view(rows: Seq<TableRow>) -> SpecTable {
    Seq::new(rows.len(), |i: int| rows[i]@)
}

impl View for Table {
    type V = SpecTable;

    open spec fn view(&self) -> SpecTable {
        rows_view(self.rows@)
    }
}

/// What stands in the body of a document: a table, or anything else.
#[derive(Clone, Debug, PartialEq, Eq)]
pub enum BodyContent {
    Table(Table),
    Other,
}

/// What a `BodyContent` holds.
pub enum SpecBodyContent {
    Table(SpecTable),
    Other,
}

impl View for BodyContent {
    type V = SpecBodyContent;

    open spec fn view(&self) -> SpecBodyContent {
        match self {
            BodyContent::Table(table) => SpecBodyContent::Table(table@),
            BodyContent::Other => SpecBodyContent::Other,
        }
    }
}

/// The body of a document.
#[derive(Clone, Debug, PartialEq, Eq)]
pub struct Document {
    pub content: Vec<BodyContent>,
}

/// What a `Document` holds.
pub type SpecDocument = Seq<SpecBodyContent>;

impl View for Document {
    type V = SpecDocument;

    open spec fn view(&self) -> SpecDocument {
        Seq::new(self.content@.len(), |i: int| self.content@[i]@)
    }
}

/// The text of the first `n` items of a run, one after the other. What is not text adds
/// nothing.
pub open spec fn run_items_text(run: SpecRun, n: int) -> Seq<char>
    decreases n,
{
    if n <= 0 {
        Seq::empty()
    } else {
        run_items_text(run, n - 1) + match run[n - 1] {
            SpecRunContent::Text(text) => text.text,
            SpecRunContent::Other => Seq::empty(),
        }
    }
}

/// The text of a run: the text of its items, or a line feed for a run without items.
pub open spec fn run_text(run: SpecRun) -> Seq<char> {
    if run.len() == 0 {
        seq!['\n']
    } else {
        run_items_text(run, run.len() as int)
    }
}

/// The text of one item of a paragraph.
pub open spec fn paragraph_content_text(content: SpecParagraphContent) -> Seq<char> {
    match content {
        SpecParagraphContent::Run(run) => run_text(run),
        SpecParagraphContent::Link(run) => run_text(run),
        SpecParagraphContent::Other => Seq::empty(),
    }
}

/// The text of the first `n` items of a paragraph, one after the other.
pub open spec fn paragraph_items_text(paragraph: SpecParagraph, n: int) -> Seq<char>
    decreases n,
{
    if n <= 0 {
        Seq::empty()
    } else {
        paragraph_items_text(paragraph, n - 1) + paragraph_content_text(paragraph[n - 1])
    }
}

/// The text of a paragraph.
pub open spec fn paragraph_text(paragraph: SpecParagraph) -> Seq<char> {
    paragraph_items_text(paragraph, paragraph.len() as int)
}

/// The texts of the paragraphs of a cell, in order.
pub open spec fn paragraph_texts(cell: SpecTableCell) -> Seq<Seq<char>> {
    Seq::new(cell.len(), |i: int| paragraph_text(cell[i]))
}

/// The text of a cell: the texts of its paragraphs with a line feed between each two.
pub open spec fn cell_text(cell: SpecTableCell) -> Seq<char> {
    join_lines(paragraph_texts(cell))
}

/// The paragraph that holds `line` as its one piece of text. The piece asks for its white
/// space to be kept where the line starts or ends with some.
pub open spec fn line_paragraph(line: Seq<char>) -> SpecParagraph {
    seq![
        SpecParagraphContent::Run(
            seq![
                SpecRunContent::Text(
                    SpecText { text: line, preserve_space: trimmed(line) != line },
                ),
            ],
        ),
    ]
}

/// The cell that holds `text` with one paragraph for each of its lines.
pub open spec fn text_cell(text: Seq<char>) -> SpecTableCell {
    Seq::new(split_lines(text).len(), |i: int| line_paragraph(split_lines(text)[i]))
}

/// The cell that holds `text` in one paragraph, whatever the text holds.
pub open spec fn label_cell(text: Seq<char>) -> SpecTableCell {
    seq![
        seq![
            SpecParagraphContent::Run(
                seq![SpecRunContent::Text(SpecText { text: text, preserve_space: false })],
            ),
        ],
    ]
}

/// The text of a run.
fn text_of_run(run: &Run) -> (r: String)
    ensures
        r@ == run_text(run@),
{
    let mut out = String::new();
    if run.content.len() == 0 {
        out.append("\n");
        proof {
            reveal_strlit("\n");
            assert(out@ =~= seq!['\n']);
        }
        return out;
    }
    let mut i: usize = 0;
    while i < run.content.len()
        invariant
            i <= run.content.len(),
            out@ == run_items_text(run@, i as int),
        decreases run.content.len() - i,
    {
        match &run.content[i] {
            RunContent::Text(text) => {
                out.append(text.text.as_str());
            },
            RunContent::Other => {
                assert(out@ + Seq::<char>::empty() =~= out@);
            },
        }
        i = i + 1;
    }
    out
}

/// The text of a paragraph.
fn text_of_paragraph(paragraph: &Paragraph) -> (r: String)
    ensures
        r@ == paragraph_text(paragraph@),
{
    let mut out = String::new();
    let mut i: usize = 0;
    while i < paragraph.content.len()
        invariant
            i <= paragraph.content.len(),
            out@ == paragraph_items_text(paragraph@, i as int),
        decreases paragraph.content.len() - i,
    {
        match &paragraph.content[i] {
            ParagraphContent::Run(run) => {
                let piece = text_of_run(run);
                out.append(piece.as_str());
            },
            ParagraphContent::Link(run) => {
                let piece = text_of_run(run);
                out.append(piece.as_str());
            },
            ParagraphContent::Other => {
                assert(out@ + Seq::<char>::empty() =~= out@);
            },
        }
        i = i + 1;
    }
    out
}

/// The text of a cell.
pub fn text_of_cell(cell: &TableCell) -> (r: String)
    ensures
        r@ == cell_text(cell@),
{
    let mut out = String::new();
    let mut i: usize = 0;
    while i < cell.content.len()
        invariant
            i <= cell.content.len(),
            out@ == join_lines(paragraph_texts(cell@).take(i as int)),
        decreases cell.content.len() - i,
    {
        let piece = text_of_paragraph(&cell.content[i]);
        proof {
            let before = paragraph_texts(cell@).take(i as int);
            let after = paragraph_texts(cell@).take(i + 1);
            assert(after.drop_last() =~= before);
            assert(after.last() == piece@);
            reveal_strlit("\n");
            assert("\n"@ =~= seq!['\n']);
        }
        if i > 0 {
            out.append("\n");
        }
        out.append(piece.as_str());
        i = i + 1;
    }
    proof {
        assert(paragraph_texts(cell@).take(i as int) =~= paragraph_texts(cell@));
    }
    out
}

/// The text of what stands in a row, which has to be a cell.
pub fn extract_text_from_table_row_content(table_row_content: &TableRowContent) -> (r: Result<
    String,
    ConvertError,
>)
    ensures
        match r {
            Ok(text) => table_row_content@ matches SpecTableRowContent::TableCell(cell)
                && text@ == cell_text(cell),
            Err(e) => table_row_content@ is Other && e@ == "Corrupted .docx file"@,
        },
{
    match table_row_content {
        TableRowContent::TableCell(cell) => Ok(text_of_cell(cell)),
        TableRowContent::Other => Err(ConvertError::corrupted_docx_file()),
    }
}

/// The cell that holds `text` with one paragraph for each of its lines.
pub fn create_table_cell(text: &str) -> (cell: TableCell)
    ensures
        cell@ == text_cell(text@),
{
    let lines = lines_of(text);
    let mut content: Vec<Paragraph> = Vec::new();
    let mut i: usize = 0;
    while i < lines.len()
        invariant
            i <= lines.len(),
            slice_views_of(lines@) == split_lines(text@),
            content@.len() == i,
            forall|j: int| 0 <= j < i ==> (#[trigger] content@[j])@ == line_paragraph(
                split_lines(text@)[j],
            ),
        decreases lines.len() - i,
    {
        let line = lines[i];
        assert(line@ == slice_views_of(lines@)[i as int]);
        let keep = !same_text(trim(line), line);
        let piece = Text { text: line.to_owned(), preserve_space: keep };
        let mut run_content: Vec<RunContent> = Vec::new();
        run_content.push(RunContent::Text(piece));
        let run = Run { content: run_content };
        let mut paragraph_content: Vec<ParagraphContent> = Vec::new();
        paragraph_content.push(ParagraphContent::Run(run));
        let paragraph = Paragraph { content: paragraph_content };
        assert(run@ =~= seq![
            SpecRunContent::Text(SpecText { text: line@, preserve_space: trimmed(line@) != line@ }),
        ]);
        assert(paragraph@ =~= line_paragraph(line@));
        content.push(paragraph);
        i = i + 1;
    }
    let cell = TableCell { content };
    assert(slice_views_of(lines@).len() == lines@.len());
    assert(cell@ =~= text_cell(text@));
    cell
}

/// The cell that holds `text` in one paragraph.
pub fn create_label_cell(text: &str) -> (cell: TableCell)
    ensures
        cell@ == label_cell(text@),
{
    let piece = Text { text: text.to_owned(), preserve_space: false };
    let mut run_content: Vec<RunContent> = Vec::new();
    run_content.push(RunContent::Text(piece));
    let run = Run { content: run_content };
    let mut paragraph_content: Vec<ParagraphContent> = Vec::new();
    paragraph_content.push(ParagraphContent::Run(run));
    let paragraph = Paragraph { content: paragraph_content };
    let mut content: Vec<Paragraph> = Vec::new();
    content.push(paragraph);
    let cell = TableCell { content };
    assert(run@ =~= seq![SpecRunContent::Text(SpecText { text: text@, preserve_space: false })]);
    assert(paragraph@ =~= seq![SpecParagraphContent::Run(run@)]);
    assert(cell@ =~= label_cell(text@));
    cell
}

/// The text of a paragraph that holds one piece of text is that text.
pub proof fn lemma_line_paragraph_text(line: Seq<char>)
    ensures
        paragraph_text(line_paragraph(line)) == line,
{
    let paragraph = line_paragraph(line);
    let run = paragraph[0]->Run_0;
    assert(run_items_text(run, 0) == Seq::<char>::empty());
    assert(run_items_text(run, 1) =~= line);
    assert(paragraph_items_text(paragraph, 0) == Seq::<char>::empty());
    assert(paragraph_items_text(paragraph, 1) =~= line);
}

/// A cell made of a text gives the text back.
pub proof fn lemma_text_cell_text(text: Seq<char>)
    ensures
        cell_text(text_cell(text)) == text,
{
    let cell = text_cell(text);
    assert forall|i: int| 0 <= i < cell.len() implies paragraph_text(#[trigger] cell[i])
        == split_lines(text)[i] by {
        lemma_line_paragraph_text(split_lines(text)[i]);
    }
    assert(paragraph_texts(cell) =~= split_lines(text));
    lemma_join_split_lines(text);
}

/// A cell made of a label gives the label back.
pub proof fn lemma_label_cell_text(text: Seq<char>)
    ensures
        cell_text(label_cell(text)) == text,
{
    let cell = label_cell(text);
    let paragraph = cell[0];
    let run = paragraph[0]->Run_0;
    assert(run_items_text(run, 0) == Seq::<char>::empty());
    assert(run_items_text(run, 1) =~= text);
    assert(paragraph_items_text(paragraph, 0) == Seq::<char>::empty());
    assert(paragraph_items_text(paragraph, 1) =~= text);
    assert(paragraph_texts(cell) =~= seq![text]);
}

} // verus!
