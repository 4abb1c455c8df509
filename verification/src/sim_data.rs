//! The telemetry record of the stream: seven comma-separated fields.
//!
//! In order: type code, name, registration, latitude, longitude, whether an
//! engine runs, whether the aircraft is on the ground. The two coordinates
//! are decimal numerals in degrees, the two flags read `true` or `false`.

use crate::csv_text::{csv_first_record, csv_record_text, read_record, write_record};
use crate::decimal::{
    format_units, from_decimal, lemma_format_is_ascii, lemma_parse_format, parse_units,
    to_decimal,
};
use crate::text::{ascii_string, ascii_text, lemma_ascii_text, texts_view};
use vstd::prelude::*;
use vstd::utf8::encode_utf8;

verus! {

/// Fields in a record.
pub const FIELDS: usize = 7;

/// One telemetry record. The coordinates are in units of 1e-7 degree.
#[derive(Debug)]
pub struct SimData {
    pub icao: String,
    pub name: String,
    pub registration: String,
    pub latitude: i64,
    pub longitude: i64,
    pub engine_on: bool,
    pub on_ground: bool,
}

/// A `SimData` with its texts as sequences of characters.
pub struct SimDataView {
    pub icao: Seq<char>,
    pub name: Seq<char>,
    pub registration: Seq<char>,
    pub latitude: i64,
    pub longitude: i64,
    pub engine_on: bool,
    pub on_ground: bool,
}

impl View for SimData {
    type V = SimDataView;

    open spec fn view(&self) -> SimDataView {
        SimDataView {
            icao: self.icao@,
            name: self.name@,
            registration: self.registration@,
            latitude: self.latitude,
            longitude: self.longitude,
            engine_on: self.engine_on,
            on_ground: self.on_ground,
        }
    }
}

/// Why a record could not be read or written.
#[derive(Clone, Copy, Debug, PartialEq, Eq, Structural)]
pub enum CodecError {
    /// The text holds no record of seven fields whose coordinates and flags
    /// can be read.
    MalformedRecord,
    /// The writer gave no text for the record.
    NotWritten,
}

/// The field that writes a flag.
pub open spec fn flag_text(flag: bool) -> Seq<char> {
    if flag {
        "true"@
    } else {
        "false"@
    }
}

/// The flag that a field writes.
pub open spec fn parse_flag(field: Seq<char>) -> Option<bool> {
    if field == "true"@ {
        Some(true)
    } else if field == "false"@ {
        Some(false)
    } else {
        None
    }
}

/// The field that writes a coordinate.
pub open spec fn coordinate_text(units: i64) -> Seq<char> {
    ascii_text(format_units(units))
}

/// The coordinate that a field writes.
pub open spec fn parse_coordinate(field: Seq<char>) -> Option<i64> {
    parse_units(encode_utf8(field))
}

impl SimDataView {
    /// The seven fields of the record, in order.
    pub open spec fn fields(self) -> Seq<Seq<char>> {
        seq![
            self.icao,
            self.name,
            self.registration,
            coordinate_text(self.latitude),
            coordinate_text(self.longitude),
            flag_text(self.engine_on),
            flag_text(self.on_ground),
        ]
    }

    /// The record that fields write: there is none where fewer than seven
    /// fields are given, or where a coordinate or a flag cannot be read.
    /// Fields behind the seventh are not looked at.
    pub open spec fn from_fields(fields: Seq<Seq<char>>) -> Option<SimDataView> {
        if fields.len() < FIELDS {
            None
        } else if parse_coordinate(fields[3]) is None || parse_coordinate(fields[4]) is None
            || parse_flag(fields[5]) is None || parse_flag(fields[6]) is None {
            None
        } else {
            Some(
                SimDataView {
                    icao: fields[0],
                    name: fields[1],
                    registration: fields[2],
                    latitude: parse_coordinate(fields[3])->Some_0,
                    longitude: parse_coordinate(fields[4])->Some_0,
                    engine_on: parse_flag(fields[5])->Some_0,
                    on_ground: parse_flag(fields[6])->Some_0,
                },
            )
        }
    }

    /// The record that comma-separated text holds: the one that the fields
    /// of its first record write.
    pub open spec fn decode(text: Seq<char>) -> Option<SimDataView> {
        match csv_first_record(text) {
            Some(fields) => SimDataView::from_fields(fields),
            None => None,
        }
    }

    /// The comma-separated text of the record.
    pub open spec fn encode(self) -> Option<Seq<char>> {
        csv_record_text(self.fields())
    }
}

/// Reads a flag, as `parse_flag` says.
fn read_flag(field: &String) -> (flag: Option<bool>)
    ensures
        flag == parse_flag(field@),
{
    if *field == "true".to_string() {
        Some(true)
    } else if *field == "false".to_string() {
        Some(false)
    } else {
        None
    }
}

/// Writes a flag, as `flag_text` says.
fn write_flag(flag: bool) -> (field: String)
    ensures
        field@ == flag_text(flag),
{
    if flag {
        "true".to_string()
    } else {
        "false".to_string()
    }
}

/// Writes a coordinate, as `coordinate_text` says.
fn write_coordinate(units: i64) -> (field: String)
    ensures
        field@ == coordinate_text(units),
{
    let digits = to_decimal(units);
    proof {
        lemma_format_is_ascii(units);
    }
    ascii_string(digits.as_slice())
}

impl SimData {
    /// The seven fields of the record, as `SimDataView::fields` says.
    pub fn to_fields(&self) -> (fields: Vec<String>)
        ensures
            texts_view(fields@) == self@.fields(),
    {
        let mut fields: Vec<String> = Vec::new();
        fields.push(self.icao.clone());
        fields.push(self.name.clone());
        fields.push(self.registration.clone());
        fields.push(write_coordinate(self.latitude));
        fields.push(write_coordinate(self.longitude));
        fields.push(write_flag(self.engine_on));
        fields.push(write_flag(self.on_ground));
        assert(texts_view(fields@) =~= self@.fields());
        fields
    }

    /// The record that `fields` write, as `SimDataView::from_fields` says.
    pub fn from_fields(fields: &Vec<String>) -> (result: Result<SimData, CodecError>)
        ensures
            match SimDataView::from_fields(texts_view(fields@)) {
                Some(record) => result matches Ok(data) && data@ == record,
                None => result matches Err(error) && error == CodecError::MalformedRecord,
            },
    {
        if fields.len() < FIELDS {
            return Err(CodecError::MalformedRecord);
        }
        let latitude = from_decimal(fields[3].as_str().as_bytes());
        let longitude = from_decimal(fields[4].as_str().as_bytes());
        let engine_on = read_flag(&fields[5]);
        let on_ground = read_flag(&fields[6]);
        match (latitude, longitude, engine_on, on_ground) {
            (Some(latitude), Some(longitude), Some(engine_on), Some(on_ground)) => Ok(
                SimData {
                    icao: fields[0].clone(),
                    name: fields[1].clone(),
                    registration: fields[2].clone(),
                    latitude,
                    longitude,
                    engine_on,
                    on_ground,
                },
            ),
            _ => Err(CodecError::MalformedRecord),
        }
    }

    /// Reads a record from comma-separated text, as `SimDataView::decode`
    /// says. Text whose first record has fewer than seven fields is
    /// malformed, as is text without a record.
    pub fn from_csv(csv: &str) -> (result: Result<SimData, CodecError>)
        ensures
            match SimDataView::decode(csv@) {
                Some(record) => result matches Ok(data) && data@ == record,
                None => result matches Err(error) && error == CodecError::MalformedRecord,
            },
            csv_first_record(csv@) matches Some(fields) && fields.len() < FIELDS ==> result
                is Err,
    {
        match read_record(csv) {
            Some(fields) => SimData::from_fields(&fields),
            None => Err(CodecError::MalformedRecord),
        }
    }

    /// Writes the record as comma-separated text, as `SimDataView::encode`
    /// says.
    pub fn to_csv(&self) -> (result: Result<String, CodecError>)
        ensures
            match self@.encode() {
                Some(text) => result matches Ok(written) && written@ == text,
                None => result matches Err(error) && error == CodecError::NotWritten,
            },
    {
        let fields = self.to_fields();
        match write_record(&fields) {
            Some(text) => Ok(text),
            None => Err(CodecError::NotWritten),
        }
    }
}

/// The fields of a record write that record: reading them gives it back.
pub proof fn lemma_fields_round_trip(record: SimDataView)
    ensures
        SimDataView::from_fields(record.fields()) == Some(record),
{
    lemma_coordinate_round_trip(record.latitude);
    lemma_coordinate_round_trip(record.longitude);
    lemma_flag_round_trip(record.engine_on);
    lemma_flag_round_trip(record.on_ground);
}

/// A coordinate is read back from its field as it was written.
pub proof fn lemma_coordinate_round_trip(units: i64)
    ensures
        parse_coordinate(coordinate_text(units)) == Some(units),
{
    lemma_format_is_ascii(units);
    lemma_ascii_text(format_units(units));
    lemma_parse_format(units);
}

/// A flag is read back from its field as it was written.
pub proof fn lemma_flag_round_trip(flag: bool)
    ensures
        parse_flag(flag_text(flag)) == Some(flag),
{
    reveal_strlit("true");
    reveal_strlit("false");
    assert("true"@.len() != "false"@.len());
}

/// Text that was written for a record reads as that record wherever the
/// reader finds in the text the fields that the writer was given. Whether it
/// does is the csv crate's to say: its reader drops a byte order mark from
/// the beginning of a text, so a record whose type code begins with one
/// comes back without it.
pub proof fn lemma_decode_encode(record: SimDataView)
    ensures
        record.encode() matches Some(text) ==> (csv_first_record(text) == Some(record.fields())
            ==> SimDataView::decode(text) == Some(record)),
{
    lemma_fields_round_trip(record);
}

/// Fewer than seven fields write no record.
pub proof fn lemma_short_record(fields: Seq<Seq<char>>)
    requires
        fields.len() < FIELDS,
    ensures
        SimDataView::from_fields(fields) is None,
{
}

} // verus!
