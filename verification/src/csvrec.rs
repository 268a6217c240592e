//! The CSV boundary.
//!
//! The csv crate parses and writes records; each call is named by a spec
//! function of the text alone.

use vstd::prelude::*;

verus! {

/// What reading the first CSV record of a line yields: its fields, quoting
/// resolved; a function of the text alone.
pub uninterp spec fn csv_fields_of(s: Seq<char>) -> Seq<Seq<char>>;

/// What writing one CSV record of these fields yields, quoting applied and
/// without a trailing newline; a function of the fields alone.
pub uninterp spec fn csv_record_of(fields: Seq<Seq<char>>) -> Seq<char>;

/// Relies on csv::ReaderBuilder / Reader::read_record: the fields of the
/// first CSV record of the text, or none for empty input; a function of the
/// text alone.
#[verifier::external_body]
pub fn csv_split_record(s: &str) -> (r: Vec<String>)
    ensures
        r@.map_values(|f: String| f@) == csv_fields_of(s@),
{
    let mut reader = csv::ReaderBuilder::new().has_headers(false).from_reader(s.as_bytes());
    let mut record = csv::StringRecord::new();
    if reader.read_record(&mut record).unwrap_or(false) {
        record.iter().map(|f| f.to_string()).collect()
    } else {
        Vec::new()
    }
}

/// Relies on csv::Writer::write_record: one CSV record of the fields, the
/// trailing record terminator removed; a function of the fields alone.
#[verifier::external_body]
pub fn csv_join_record(fields: &Vec<String>) -> (r: String)
    requires
        fields@.len() > 0,
    ensures
        r@ == csv_record_of(fields@.map_values(|f: String| f@)),
{
    let mut writer = csv::Writer::from_writer(Vec::new());
    writer.write_record(fields).ok();
    writer.flush().ok();
    let data = writer.into_inner().unwrap_or_default();
    let s = String::from_utf8(data).unwrap_or_default();
    s.trim_end_matches('\n').to_string()
}

} // verus!
