//! The lines of the logbook: one for the column names, one for each
//! completed flight.

use crate::csv_text::{csv_record_text, write_record};
use crate::flight::{record_view, Flight};
use crate::text::{text_view, texts_view};
use vstd::prelude::*;

verus! {

/// The column names of the logbook, in the order of a flight's record.
pub open spec fn header_fields() -> Seq<Seq<char>> {
    seq![
        "Aircraft Name"@,
        "Aircraft ICAO"@,
        "Registration"@,
        "Taxi Time"@,
        "Departure ICAO"@,
        "Departure Time"@,
        "Arrival ICAO"@,
        "Arrival Time"@,
        "Shutdown Time"@,
    ]
}

/// A record as it is written: a field that is missing is written empty.
pub open spec fn row(record: Seq<Option<Seq<char>>>) -> Seq<Seq<char>> {
    record.map_values(
        |field: Option<Seq<char>>|
            match field {
                Some(text) => text,
                None => Seq::empty(),
            },
    )
}

/// The column names, as `header_fields` says.
pub fn csv_header() -> (header: Vec<String>)
    ensures
        texts_view(header@) == header_fields(),
{
    let mut header: Vec<String> = Vec::new();
    header.push("Aircraft Name".to_string());
    header.push("Aircraft ICAO".to_string());
    header.push("Registration".to_string());
    header.push("Taxi Time".to_string());
    header.push("Departure ICAO".to_string());
    header.push("Departure Time".to_string());
    header.push("Arrival ICAO".to_string());
    header.push("Arrival Time".to_string());
    header.push("Shutdown Time".to_string());
    assert(texts_view(header@) =~= header_fields());
    header
}

/// The fields of a record as they are written, as `row` says.
pub fn to_row(record: &Vec<Option<String>>) -> (fields: Vec<String>)
    ensures
        texts_view(fields@) == row(record_view(record@)),
{
    let mut fields: Vec<String> = Vec::new();
    let mut i: usize = 0;
    while i < record.len()
        invariant
            i <= record@.len(),
            fields@.len() == i,
            forall|j: int|
                0 <= j < i ==> (#[trigger] fields@[j])@ == row(record_view(record@))[j],
        decreases record@.len() - i,
    {
        let field = match &record[i] {
            Some(text) => text.clone(),
            None => String::new(),
        };
        fields.push(field);
        i += 1;
    }
    assert(texts_view(fields@) =~= row(record_view(record@)));
    fields
}

/// The first line of a new logbook: the column names as comma-separated
/// text, ended by a line feed. `None` where the writer gives no text.
pub fn header_line() -> (line: Option<String>)
    ensures
        text_view(line) == csv_record_text(header_fields()),
{
    let header = csv_header();
    write_record(&header)
}

/// The line of a flight: the fields of its record as comma-separated text,
/// ended by a line feed. `None` where the writer gives no text.
pub fn flight_line(flight: &Flight) -> (line: Option<String>)
    ensures
        text_view(line) == csv_record_text(row(flight@.record())),
{
    let record = flight.to_record();
    let fields = to_row(&record);
    write_record(&fields)
}

} // verus!
