//! Reading CSV tables, and the input table of documents to embed.
use vstd::prelude::*;

use crate::error::SemanticSearchError;

verus! {

/// Rows as sequences of field texts.
pub open spec fn rows_view(rows: Seq<Vec<String>>) -> Seq<Seq<Seq<char>>> {
    rows.map_values(|row: Vec<String>| row@.map_values(|f: String| f@))
}

/// The records that the CSV reader (fields trimmed, every record as long as
/// the first) finds in `input`, skipping a header row where `has_headers`;
/// the reader's message where it fails on it.
pub uninterp spec fn csv_records(input: Seq<char>, has_headers: bool) -> Result<
    Seq<Seq<Seq<char>>>,
    Seq<char>,
>;

/// Relies on csv::ReaderBuilder (`Trim::All`, `flexible(false)`) and
/// Reader::records: on success, the records of `input` as field texts; on
/// failure, the reader's message.
#[verifier::external_body]
pub(crate) fn read_csv_records(input: &str, has_headers: bool) -> (r: Result<
    Vec<Vec<String>>,
    String,
>)
    ensures
        match r {
            Ok(rows) => csv_records(input@, has_headers) == Ok::<Seq<Seq<Seq<char>>>, Seq<char>>(
                rows_view(rows@),
            ),
            Err(m) => csv_records(input@, has_headers) == Err::<Seq<Seq<Seq<char>>>, Seq<char>>(m@),
        },
{
    let mut reader = csv::ReaderBuilder::new()
        .trim(csv::Trim::All)
        .flexible(false)
        .has_headers(has_headers)
        .from_reader(input.as_bytes());
    reader.records()
        .map(|rec| rec.map(|rec| rec.iter().map(|f| f.to_string()).collect()))
        .collect::<Result<Vec<Vec<String>>, csv::Error>>()
        .map_err(|e| e.to_string())
}

/// Columns of the input table: name, header, body.
pub const DOCUMENT_COLUMNS: usize = 3;

/// A document to embed: its identity (name, header) and the text to embed.
#[derive(Clone, Debug, PartialEq, Eq)]
pub struct Document {
    pub name: String,
    pub header: String,
    pub body: String,
}

/// `doc` holds the first three fields of `row`.
pub open spec fn document_of_row(doc: Document, row: Seq<Seq<char>>) -> bool {
    doc.name@ == row[0] && doc.header@ == row[1] && doc.body@ == row[2]
}

/// Every row has the columns a document needs.
pub open spec fn rows_complete(rows: Seq<Seq<Seq<char>>>, width: nat) -> bool {
    forall|i: int| 0 <= i < rows.len() ==> #[trigger] rows[i].len() >= width
}

/// `i` is the first row with fewer than `width` columns.
pub open spec fn first_short_row(rows: Seq<Seq<Seq<char>>>, width: nat, i: int) -> bool {
    0 <= i < rows.len() && rows[i].len() < width && rows_complete(rows.take(i), width)
}

/// The documents of a table: one per row, from its first three columns.
/// A row with fewer columns fails the whole table.
pub fn documents_from_rows(rows: &Vec<Vec<String>>) -> (r: Result<
    Vec<Document>,
    SemanticSearchError,
>)
    ensures
        match r {
            Ok(docs) => rows_complete(rows_view(rows@), 3) && docs@.len() == rows@.len() && forall|
                i: int,
            | 0 <= i < docs@.len() ==> document_of_row(#[trigger] docs@[i], rows_view(rows@)[i]),
            Err(e) => exists|i: int|
                first_short_row(rows_view(rows@), 3, i) && e == (SemanticSearchError::MissingColumn {
                    row: i as usize,
                    expected: 3,
                    found: rows@[i]@.len() as usize,
                }),
        },
{
    let ghost rv = rows_view(rows@);
    let mut docs: Vec<Document> = Vec::new();
    let mut i: usize = 0;
    while i < rows.len()
        invariant
            rv == rows_view(rows@),
            i <= rows@.len(),
            docs@.len() == i,
            rows_complete(rv.take(i as int), 3),
            forall|j: int| 0 <= j < i ==> document_of_row(#[trigger] docs@[j], rv[j]),
        decreases rows@.len() - i,
    {
        let row = &rows[i];
        if row.len() < DOCUMENT_COLUMNS {
            assert(rv[i as int].len() == row@.len());
            assert(first_short_row(rv, 3, i as int));
            return Err(
                SemanticSearchError::MissingColumn {
                    row: i,
                    expected: DOCUMENT_COLUMNS,
                    found: row.len(),
                },
            );
        }
        docs.push(
            Document { name: row[0].clone(), header: row[1].clone(), body: row[2].clone() },
        );
        proof {
            assert(rv.take(i as int + 1) =~= rv.take(i as int).push(rv[i as int]));
        }
        i = i + 1;
    }
    assert(rv.take(i as int) =~= rv);
    Ok(docs)
}

/// What reading documents from a table gives: a reader failure, the first
/// row without a body, or one document per row.
pub open spec fn documents_outcome(
    table: Result<Seq<Seq<Seq<char>>>, Seq<char>>,
    r: Result<Vec<Document>, SemanticSearchError>,
) -> bool {
    match table {
        Err(m) => r matches Err(SemanticSearchError::MalformedTable(msg)) && msg@ == m,
        Ok(rows) => match r {
            Ok(docs) => rows_complete(rows, 3) && docs@.len() == rows.len() && forall|i: int|
                0 <= i < docs@.len() ==> document_of_row(#[trigger] docs@[i], rows[i]),
            Err(e) => exists|i: int|
                first_short_row(rows, 3, i) && e == (SemanticSearchError::MissingColumn {
                    row: i as usize,
                    expected: 3,
                    found: rows[i].len() as usize,
                }),
        },
    }
}

/// The documents of the input table (a header row, then one row per
/// document).
pub fn parse_documents(input: &str) -> (r: Result<Vec<Document>, SemanticSearchError>)
    ensures
        documents_outcome(csv_records(input@, true), r),
{
    match read_csv_records(input, true) {
        Err(message) => Err(SemanticSearchError::MalformedTable(message)),
        Ok(rows) => documents_from_rows(&rows),
    }
}

/// The texts to embed, in document order.
pub fn document_bodies(docs: &Vec<Document>) -> (r: Vec<String>)
    ensures
        r@.len() == docs@.len(),
        forall|i: int| 0 <= i < r@.len() ==> #[trigger] r@[i]@ == docs@[i].body@,
{
    let mut bodies: Vec<String> = Vec::new();
    let mut i: usize = 0;
    while i < docs.len()
        invariant
            i <= docs@.len(),
            bodies@.len() == i,
            forall|j: int| 0 <= j < i ==> #[trigger] bodies@[j]@ == docs@[j].body@,
        decreases docs@.len() - i,
    {
        bodies.push(docs[i].body.clone());
        i = i + 1;
    }
    bodies
}

} // verus!
