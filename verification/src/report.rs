//! What is shown of a result store: a table of two columns, or the same
//! rows as records for a file of comma-separated values.

use vstd::prelude::*;
use crate::store::ResultStore;
use crate::store::Row;
use crate::text::same_text;
use crate::text::texts;

verus! {

/// The file that an export is written to.
pub const EXPORT_FILE: &'static str = "paydept.csv";

/// How the results leave the program.
#[derive(Debug, Clone, Copy, PartialEq, Eq, Structural)]
pub enum OutputMode {
    /// As a table on standard output.
    Table,
    /// As a file of comma-separated values.
    Export,
}

/// The arguments ask for an export: the first argument behind the program's
/// name is `export`.
pub open spec fn wants_export(args: Seq<Seq<char>>) -> bool {
    args.len() > 1 && args[1] == "export"@
}

/// Reads the mode from the arguments of the program, its name first. Only
/// `export` asks for an export; with any other argument, or with none, the
/// results are shown as a table.
pub fn output_mode(args: &Vec<String>) -> (mode: OutputMode)
    ensures
        mode == if wants_export(texts(args@)) {
            OutputMode::Export
        } else {
            OutputMode::Table
        },
{
    if args.len() > 1 && same_text(args[1].as_str(), "export") {
        OutputMode::Export
    } else {
        OutputMode::Table
    }
}

/// The titles of the two columns.
pub open spec fn header() -> Seq<Seq<char>> {
    seq!["Projects"@, "Support Links"@]
}

/// A row as the two fields of a record.
pub open spec fn record_of(row: Row) -> Seq<Seq<char>> {
    seq![row.0, row.1]
}

/// The rows as records, in the order of the rows.
pub open spec fn records_of(rows: Seq<Row>) -> Seq<Seq<Seq<char>>> {
    Seq::new(rows.len(), |i: int| record_of(rows[i]))
}

/// The fields of a sequence of records.
pub open spec fn record_views(records: Seq<Vec<String>>) -> Seq<Seq<Seq<char>>> {
    Seq::new(records.len(), |i: int| texts(records[i]@))
}

/// A table of two columns.
#[derive(Debug, PartialEq, Eq)]
pub struct Table {
    /// The titles of the columns.
    pub header: Vec<String>,
    /// The rows, each with one field for each column.
    pub rows: Vec<Vec<String>>,
}

/// The titles of the two columns.
fn header_record() -> (titles: Vec<String>)
    ensures
        texts(titles@) == header(),
{
    let mut titles: Vec<String> = Vec::new();
    titles.push(String::from_str("Projects"));
    titles.push(String::from_str("Support Links"));
    assert(texts(titles@) =~= header());
    titles
}

/// The rows of the store as records.
fn row_records(store: &ResultStore) -> (records: Vec<Vec<String>>)
    ensures
        record_views(records@) == records_of(store@),
{
    let entries = store.entries();
    let mut records: Vec<Vec<String>> = Vec::new();
    let mut i: usize = 0;
    while i < entries.len()
        invariant
            i <= entries.len(),
            crate::store::row_views(entries@) == store@,
            records.len() == i,
            forall|k: int| 0 <= k < i ==> texts(#[trigger] records@[k]@) == record_of(store@[k]),
        decreases entries.len() - i,
    {
        let mut record: Vec<String> = Vec::new();
        record.push(entries[i].0.clone());
        record.push(entries[i].1.clone());
        assert(texts(record@) =~= record_of(store@[i as int])) by {
            assert(crate::store::row_views(entries@)[i as int] == store@[i as int]);
        }
        records.push(record);
        i += 1;
    }
    assert(record_views(records@) =~= records_of(store@));
    records
}

/// The records of an export: the titles of the columns first, then one
/// record for each row of the store, in the order of the rows.
pub fn export_results(store: &ResultStore) -> (records: Vec<Vec<String>>)
    ensures
        record_views(records@) == seq![header()] + records_of(store@),
{
    let mut records: Vec<Vec<String>> = Vec::new();
    records.push(header_record());
    let mut rows = row_records(store);
    let ghost first = record_views(records@);
    let ghost rest = record_views(rows@);
    records.append(&mut rows);
    assert(record_views(records@) =~= first + rest);
    assert(first =~= seq![header()]);
    records
}

/// The table that is shown: the titles of the two columns, and one row for
/// each row of the store, in the order of the rows.
pub fn show_results(store: &ResultStore) -> (table: Table)
    ensures
        texts(table.header@) == header(),
        record_views(table.rows@) == records_of(store@),
{
    Table { header: header_record(), rows: row_records(store) }
}

} // verus!
