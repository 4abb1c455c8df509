//! The telemetry record of the native simulator interface.
//!
//! A record is 216 bytes: the aircraft's title in 128 bytes, seven IEEE 754
//! doubles in little-endian order (combustion of engines one to four,
//! latitude and longitude in radians, the on-ground flag), and the
//! registration in 32 bytes.

use crate::aircraft::{Aircraft, AircraftView};
use crate::geo::LatLon;
use crate::sim_connection::{SimMessage, SimMessageView};
use crate::sim_string::{field_text, SimString, SimStringError};
use vstd::prelude::*;

verus! {

/// Bytes in one record.
pub const RECORD_SIZE: usize = 216;

/// The data definition under which the user's aircraft is requested.
pub const USER_AIRCRAFT: u32 = 0;

/// How the simulator hands over one variable.
#[derive(Clone, Copy, Debug, PartialEq, Eq, Structural)]
pub enum DataType {
    /// A double, in eight bytes.
    Float64,
    /// Text in a field of 32 bytes.
    String32,
    /// Text in a field of 128 bytes.
    String128,
}

impl DataType {
    /// Bytes that a variable of this type takes in a record.
    pub open spec fn spec_size(self) -> usize {
        match self {
            DataType::Float64 => 8,
            DataType::String32 => 32,
            DataType::String128 => 128,
        }
    }

    /// Decides `spec_size`.
    #[verifier::when_used_as_spec(spec_size)]
    pub fn size(self) -> (size: usize)
        ensures
            size == self.spec_size(),
    {
        match self {
            DataType::Float64 => 8,
            DataType::String32 => 32,
            DataType::String128 => 128,
        }
    }
}

/// One variable that is asked of the simulator: its name, the unit it is
/// wanted in, and how it is handed over.
#[derive(Clone, Copy, Debug)]
pub struct DataDefinition {
    pub name: &'static str,
    pub units: &'static str,
    pub data_type: DataType,
}

/// The types of the variables of a record, in the order of the record.
pub open spec fn record_types() -> Seq<DataType> {
    seq![
        DataType::String128,
        DataType::Float64,
        DataType::Float64,
        DataType::Float64,
        DataType::Float64,
        DataType::Float64,
        DataType::Float64,
        DataType::Float64,
        DataType::String32,
    ]
}

/// The byte at which the variable `index` begins in a record: the sizes of
/// the variables before it, added up.
pub open spec fn offset(types: Seq<DataType>, index: nat) -> nat
    decreases index,
{
    if index == 0 {
        0
    } else {
        offset(types, (index - 1) as nat) + types[index - 1].size() as nat
    }
}

/// The variables that make up a record, in the order in which they are to
/// be asked of the simulator: the title, the combustion of engines one to
/// four as booleans, latitude and longitude in radians, the on-ground flag
/// as a boolean, and the registration.
pub fn data_definitions() -> (definitions: Vec<DataDefinition>)
    ensures
        definitions@.map_values(|definition: DataDefinition| definition.data_type)
            == record_types(),
        definitions@.len() == 9,
        definitions@[0].name@ == "TITLE"@ && definitions@[0].units@ == ""@,
        definitions@[1].name@ == "ENG COMBUSTION:1"@ && definitions@[1].units@ == "Boolean"@,
        definitions@[2].name@ == "ENG COMBUSTION:2"@ && definitions@[2].units@ == "Boolean"@,
        definitions@[3].name@ == "ENG COMBUSTION:3"@ && definitions@[3].units@ == "Boolean"@,
        definitions@[4].name@ == "ENG COMBUSTION:4"@ && definitions@[4].units@ == "Boolean"@,
        definitions@[5].name@ == "PLANE LATITUDE"@ && definitions@[5].units@ == "Radians"@,
        definitions@[6].name@ == "PLANE LONGITUDE"@ && definitions@[6].units@ == "Radians"@,
        definitions@[7].name@ == "SIM ON GROUND"@ && definitions@[7].units@ == "Boolean"@,
        definitions@[8].name@ == "ATC ID"@ && definitions@[8].units@ == ""@,
{
    let mut definitions: Vec<DataDefinition> = Vec::new();
    definitions.push(DataDefinition { name: "TITLE", units: "", data_type: DataType::String128 });
    definitions.push(
        DataDefinition { name: "ENG COMBUSTION:1", units: "Boolean", data_type: DataType::Float64 },
    );
    definitions.push(
        DataDefinition { name: "ENG COMBUSTION:2", units: "Boolean", data_type: DataType::Float64 },
    );
    definitions.push(
        DataDefinition { name: "ENG COMBUSTION:3", units: "Boolean", data_type: DataType::Float64 },
    );
    definitions.push(
        DataDefinition { name: "ENG COMBUSTION:4", units: "Boolean", data_type: DataType::Float64 },
    );
    definitions.push(
        DataDefinition { name: "PLANE LATITUDE", units: "Radians", data_type: DataType::Float64 },
    );
    definitions.push(
        DataDefinition { name: "PLANE LONGITUDE", units: "Radians", data_type: DataType::Float64 },
    );
    definitions.push(
        DataDefinition { name: "SIM ON GROUND", units: "Boolean", data_type: DataType::Float64 },
    );
    definitions.push(DataDefinition { name: "ATC ID", units: "", data_type: DataType::String32 });
    assert(definitions@.map_values(|definition: DataDefinition| definition.data_type)
        =~= record_types());
    definitions
}

/// The fields of a record stand where the variables asked for put them:
/// each field begins where the sizes of the variables before it end, and
/// all of them together fill the 216 bytes.
pub proof fn lemma_record_layout()
    ensures
        offset(record_types(), 0) == 0,
        offset(record_types(), 1) == 128,
        offset(record_types(), 2) == 136,
        offset(record_types(), 3) == 144,
        offset(record_types(), 4) == 152,
        offset(record_types(), 5) == 160,
        offset(record_types(), 6) == 168,
        offset(record_types(), 7) == 176,
        offset(record_types(), 8) == 184,
        offset(record_types(), 9) == RECORD_SIZE,
{
    reveal_with_fuel(offset, 10);
}

/// The fields of one record. A number is held as the 64 bits of its double.
#[derive(Clone, Copy, Debug)]
pub struct RawSimData {
    pub title: SimString<128>,
    pub eng_combustion_1: u64,
    pub eng_combustion_2: u64,
    pub eng_combustion_3: u64,
    pub eng_combustion_4: u64,
    pub latitude: u64,
    pub longitude: u64,
    pub sim_on_ground: u64,
    pub atc_id: SimString<32>,
}

/// The number that eight bytes hold, least significant byte first.
pub open spec fn le_u64(bytes: Seq<u8>) -> int {
    bytes[0] + bytes[1] * 0x100 + bytes[2] * 0x1_0000 + bytes[3] * 0x100_0000 + bytes[4]
        * 0x1_0000_0000 + bytes[5] * 0x100_0000_0000 + bytes[6] * 0x1_0000_0000_0000 + bytes[7]
        * 0x100_0000_0000_0000
}

/// Whether the double with these bits differs from zero: every double does
/// but the two zeros, whose bits are all clear but for the sign.
pub open spec fn spec_is_nonzero(bits: u64) -> bool {
    bits != 0 && bits != 0x8000_0000_0000_0000
}

/// Decides `spec_is_nonzero`.
#[verifier::when_used_as_spec(spec_is_nonzero)]
pub fn is_nonzero(bits: u64) -> (nonzero: bool)
    ensures
        nonzero == spec_is_nonzero(bits),
{
    bits != 0 && bits != 0x8000_0000_0000_0000
}

/// The eight bytes of `record` from `at` on, as a number.
fn read_u64(record: &[u8], at: usize) -> (bits: u64)
    requires
        at + 8 <= record@.len(),
    ensures
        bits == le_u64(record@.subrange(at as int, at + 8)),
{
    let b0: u64 = record[at] as u64;
    let b1: u64 = record[at + 1] as u64;
    let b2: u64 = record[at + 2] as u64;
    let b3: u64 = record[at + 3] as u64;
    let b4: u64 = record[at + 4] as u64;
    let b5: u64 = record[at + 5] as u64;
    let b6: u64 = record[at + 6] as u64;
    let b7: u64 = record[at + 7] as u64;
    b0 + b1 * 0x100 + b2 * 0x1_0000 + b3 * 0x100_0000 + b4 * 0x1_0000_0000 + b5
        * 0x100_0000_0000 + b6 * 0x1_0000_0000_0000 + b7 * 0x100_0000_0000_0000
}

impl RawSimData {
    /// Whether the fields are those that `record` holds, each at its place.
    pub open spec fn read_from(self, record: Seq<u8>) -> bool {
        &&& self.title.0@ == record.subrange(0, 128)
        &&& self.eng_combustion_1 == le_u64(record.subrange(128, 136))
        &&& self.eng_combustion_2 == le_u64(record.subrange(136, 144))
        &&& self.eng_combustion_3 == le_u64(record.subrange(144, 152))
        &&& self.eng_combustion_4 == le_u64(record.subrange(152, 160))
        &&& self.latitude == le_u64(record.subrange(160, 168))
        &&& self.longitude == le_u64(record.subrange(168, 176))
        &&& self.sim_on_ground == le_u64(record.subrange(176, 184))
        &&& self.atc_id.0@ == record.subrange(184, 216)
    }

    /// The sample that the fields describe, with the aircraft at `position`:
    /// an engine runs, and the aircraft is on the ground, where the number
    /// is not zero. The type code is not part of a record and reads `N/A`.
    pub open spec fn aircraft(self, position: LatLon) -> Result<AircraftView, SimStringError> {
        match field_text(self.title.0@) {
            Err(error) => Err(error),
            Ok(title) => match field_text(self.atc_id.0@) {
                Err(error) => Err(error),
                Ok(registration) => Ok(
                    AircraftView {
                        title,
                        icao: "N/A"@,
                        registration,
                        position,
                        engines_on: seq![
                            is_nonzero(self.eng_combustion_1),
                            is_nonzero(self.eng_combustion_2),
                            is_nonzero(self.eng_combustion_3),
                            is_nonzero(self.eng_combustion_4),
                        ],
                        on_ground: is_nonzero(self.sim_on_ground),
                    },
                ),
            },
        }
    }

    /// Takes a record apart. There are fields exactly when the record has
    /// its 216 bytes.
    pub fn from_bytes(record: &[u8]) -> (raw: Option<RawSimData>)
        ensures
            raw is Some <==> record@.len() == RECORD_SIZE,
            raw matches Some(fields) ==> fields.read_from(record@),
    {
        if record.len() != RECORD_SIZE {
            return None;
        }
        Some(
            RawSimData {
                title: SimString::read(record, 0),
                eng_combustion_1: read_u64(record, 128),
                eng_combustion_2: read_u64(record, 136),
                eng_combustion_3: read_u64(record, 144),
                eng_combustion_4: read_u64(record, 152),
                latitude: read_u64(record, 160),
                longitude: read_u64(record, 168),
                sim_on_ground: read_u64(record, 176),
                atc_id: SimString::read(record, 184),
            },
        )
    }

    /// The sample of the record, as `aircraft` says. The position comes from
    /// the caller, who has turned the two angles into coordinates.
    pub fn to_aircraft(&self, position: LatLon) -> (result: Result<Aircraft, SimStringError>)
        ensures
            match self.aircraft(position) {
                Ok(sample) => result matches Ok(aircraft) && aircraft@ == sample,
                Err(error) => result == Err::<Aircraft, SimStringError>(error),
            },
    {
        let title = match self.title.to_string() {
            Ok(title) => title,
            Err(error) => {
                return Err(error);
            },
        };
        let registration = match self.atc_id.to_string() {
            Ok(registration) => registration,
            Err(error) => {
                return Err(error);
            },
        };
        let aircraft = Aircraft {
            title,
            icao: "N/A".to_string(),
            registration,
            position,
            engines_on: [
                is_nonzero(self.eng_combustion_1),
                is_nonzero(self.eng_combustion_2),
                is_nonzero(self.eng_combustion_3),
                is_nonzero(self.eng_combustion_4),
            ],
            on_ground: is_nonzero(self.sim_on_ground),
        };
        assert(aircraft@.engines_on =~= self.aircraft(position)->Ok_0.engines_on);
        Ok(aircraft)
    }
}

/// The message for object data that came under `definition`: the sample of
/// the record where the data is the user's aircraft, and an unknown message
/// for any other data.
pub open spec fn object_message(definition: u32, raw: RawSimData, position: LatLon) -> Result<
    SimMessageView,
    SimStringError,
> {
    if definition == USER_AIRCRAFT {
        match raw.aircraft(position) {
            Ok(sample) => Ok(SimMessageView::SimData(sample)),
            Err(error) => Err(error),
        }
    } else {
        Ok(SimMessageView::Unknown)
    }
}

/// Turns object data into a message, as `object_message` says.
pub fn sim_object_message(definition: u32, raw: &RawSimData, position: LatLon) -> (result: Result<
    SimMessage,
    SimStringError,
>)
    ensures
        match object_message(definition, *raw, position) {
            Ok(expected) => result matches Ok(message) && message@ == expected,
            Err(error) => result == Err::<SimMessage, SimStringError>(error),
        },
{
    if definition != USER_AIRCRAFT {
        return Ok(SimMessage::Unknown);
    }
    match raw.to_aircraft(position) {
        Ok(aircraft) => Ok(SimMessage::SimData(aircraft)),
        Err(error) => Err(error),
    }
}

} // verus!
