//! Comma-separated text, read and written by the csv crate.

use crate::text::{text_view, texts_view};
use vstd::prelude::*;

verus! {

/// The fields of the first record of comma-separated text, as the csv
/// crate's reader gives them: read without a header row, with a line feed,
/// a carriage return or both ending a record. `None` where the reader finds
/// no record in the text or reports an error.
pub uninterp spec fn csv_first_record(text: Seq<char>) -> Option<Seq<Seq<char>>>;

/// The text that the csv crate's writer writes for one record with the
/// given fields, ended by a line feed. `None` where the writer reports an
/// error.
pub uninterp spec fn csv_record_text(fields: Seq<Seq<char>>) -> Option<Seq<char>>;

/// Fields that may be missing, as sequences of characters.
pub open spec fn fields_view(fields: Option<Vec<String>>) -> Option<Seq<Seq<char>>> {
    match fields {
        Some(fields) => Some(texts_view(fields@)),
        None => None,
    }
}

/// Reads the first record of `text` with `csv::Reader::records`, on a reader
/// built without headers and with `Terminator::CRLF`. The fields are those
/// that `csv_first_record` names.
#[verifier::external_body]
pub(crate) fn read_record(text: &str) -> (fields: Option<Vec<String>>)
    ensures
        fields_view(fields) == csv_first_record(text@),
{
    let mut reader = csv::ReaderBuilder::new()
        .has_headers(false)
        .terminator(csv::Terminator::CRLF)
        .from_reader(text.as_bytes());
    match reader.records().next() {
        Some(Ok(record)) => Some(record.iter().map(String::from).collect()),
        _ => None,
    }
}

/// Writes one record with `csv::Writer::write_record`, on a writer built
/// without headers over a vector of bytes, and takes the bytes written with
/// `into_inner`. The text is the one that `csv_record_text` names.
#[verifier::external_body]
pub(crate) fn write_record(fields: &Vec<String>) -> (text: Option<String>)
    ensures
        text_view(text) == csv_record_text(texts_view(fields@)),
{
    let mut writer = csv::WriterBuilder::new().has_headers(false).from_writer(Vec::new());
    match writer.write_record(fields) {
        Ok(()) => match writer.into_inner() {
            Ok(bytes) => String::from_utf8(bytes).ok(),
            Err(_) => None,
        },
        Err(_) => None,
    }
}

} // verus!
