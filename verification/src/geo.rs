//! Coordinates on the globe, held as fixed-point integers.

use crate::decimal::{digits_of, digits_string, padded_digits, padded_string};
use crate::text::ascii_text;
use vstd::prelude::*;
use vstd::string::StringExecFns;

verus! {

/// Coordinate units in one degree: a unit is 1e-7 degree, about 11 mm on the ground.
pub const UNITS_PER_DEGREE: i64 = 10_000_000;

/// Largest latitude, 90 degrees, in coordinate units.
pub const MAX_LATITUDE: i64 = 900_000_000;

/// Largest longitude, 180 degrees, in coordinate units.
pub const MAX_LONGITUDE: i64 = 1_800_000_000;

/// The four directions that a coordinate is counted in.
#[derive(Clone, Copy, Debug, PartialEq, Eq, Structural)]
pub enum Cardinal {
    North,
    South,
    East,
    West,
}

impl Cardinal {
    /// The letter that stands for the direction.
    pub open spec fn letter(self) -> Seq<char> {
        match self {
            Cardinal::North => "N"@,
            Cardinal::South => "S"@,
            Cardinal::East => "E"@,
            Cardinal::West => "W"@,
        }
    }

    /// Whether coordinates in this direction are below zero: those to the
    /// south and to the west are.
    pub open spec fn spec_is_negative(self) -> bool {
        self == Cardinal::South || self == Cardinal::West
    }

    /// Decides `spec_is_negative`.
    #[verifier::when_used_as_spec(spec_is_negative)]
    pub fn is_negative(self) -> (negative: bool)
        ensures
            negative == self.spec_is_negative(),
    {
        match self {
            Cardinal::North => false,
            Cardinal::South => true,
            Cardinal::East => false,
            Cardinal::West => true,
        }
    }

    /// The letter that stands for the direction, as text.
    pub fn to_string(&self) -> (text: String)
        ensures
            text@ == self.letter(),
    {
        match self {
            Cardinal::North => "N".to_string(),
            Cardinal::South => "S".to_string(),
            Cardinal::East => "E".to_string(),
            Cardinal::West => "W".to_string(),
        }
    }
}

/// Units of a second of arc in one second: a unit is 1e-7 second of arc.
pub const UNITS_PER_SECOND: u32 = 10_000_000;

/// Seconds of arc in a degree.
pub const SECONDS_PER_DEGREE: i64 = 3600;

/// An angle in degrees, minutes and seconds of arc, with the direction it is
/// counted in where it has one. The seconds are in units of 1e-7 second.
#[derive(Clone, Copy, Debug, PartialEq, Eq, Structural)]
pub struct DMS {
    pub degrees: u16,
    pub minutes: u8,
    pub seconds: u32,
    pub cardinal: Option<Cardinal>,
}

/// How far a coordinate lies from zero.
pub open spec fn distance_from_zero(units: i64) -> int {
    if units < 0 {
        -units
    } else {
        units as int
    }
}

impl DMS {
    /// The size of the angle in units of 1e-7 second of arc.
    pub open spec fn total(self) -> int {
        (self.degrees * 3600 + self.minutes * 60) * UNITS_PER_SECOND + self.seconds
    }

    /// Whether the minutes and the seconds are below sixty each.
    pub open spec fn normal(self) -> bool {
        self.minutes < 60 && self.seconds < 60 * UNITS_PER_SECOND
    }

    /// Whether the whole degrees of a coordinate fit the 16 bits that hold
    /// them. Every position on the globe does.
    pub open spec fn fits(units: i64) -> bool {
        distance_from_zero(units) / (UNITS_PER_DEGREE as int) <= u16::MAX
    }

    /// A coordinate taken apart: the whole degrees of its distance from
    /// zero, the whole minutes of what is left, and what is then left in
    /// seconds. Nothing is rounded, and no direction is given.
    pub open spec fn spec_from_degrees(units: i64) -> DMS {
        let rest = distance_from_zero(units) % (UNITS_PER_DEGREE as int);
        DMS {
            degrees: (distance_from_zero(units) / (UNITS_PER_DEGREE as int)) as u16,
            minutes: (rest * 60 / (UNITS_PER_DEGREE as int)) as u8,
            seconds: (rest * 60 % (UNITS_PER_DEGREE as int) * 60) as u32,
            cardinal: None,
        }
    }

    /// The coordinate of the angle, in coordinate units: its size in
    /// degrees, with a part of a unit cut off, below zero where the angle is
    /// counted to the south or to the west.
    pub open spec fn spec_to_degrees(self) -> int {
        let size = self.total() / (SECONDS_PER_DEGREE as int);
        match self.cardinal {
            Some(cardinal) => if cardinal.is_negative() {
                -size
            } else {
                size
            },
            None => size,
        }
    }

    /// The seconds in hundredths of a second, rounded to the nearest, a half
    /// going up.
    pub open spec fn hundredths(self) -> int {
        (self.seconds + 50_000) / 100_000
    }

    /// The angle as text: the degrees, the degree sign, the minutes, a
    /// single quote, the seconds with two digits behind the point, a double
    /// quote, and the letter of the direction where there is one.
    pub open spec fn text(self) -> Seq<char> {
        ascii_text(digits_of(self.degrees as nat)) + "°"@ + ascii_text(
            digits_of(self.minutes as nat),
        ) + "'"@ + ascii_text(digits_of((self.hundredths() / 100) as nat)) + "."@ + ascii_text(
            padded_digits((self.hundredths() % 100) as nat, 2),
        ) + "\""@ + match self.cardinal {
            Some(cardinal) => cardinal.letter(),
            None => Seq::empty(),
        }
    }

    /// The angle as text, as `text` says.
    pub fn to_string(&self) -> (text: String)
        ensures
            text@ == self.text(),
    {
        let hundredths: u32 = (self.seconds / 100_000) + (self.seconds % 100_000 + 50_000)
            / 100_000;
        let mut text = String::new();
        text.append(digits_string(self.degrees as u64).as_str());
        text.append("°");
        text.append(digits_string(self.minutes as u64).as_str());
        text.append("'");
        text.append(digits_string((hundredths / 100) as u64).as_str());
        text.append(".");
        text.append(padded_string((hundredths % 100) as u64, 2).as_str());
        text.append("\"");
        match self.cardinal {
            Some(cardinal) => {
                text.append(cardinal.to_string().as_str());
            },
            None => {
                assert(text@ + Seq::<char>::empty() =~= text@);
            },
        }
        text
    }

    /// An angle counted in a direction.
    pub fn new(degrees: u16, minutes: u8, seconds: u32, cardinal: Cardinal) -> (dms: DMS)
        ensures
            dms == (DMS { degrees, minutes, seconds, cardinal: Some(cardinal) }),
    {
        DMS { degrees, minutes, seconds, cardinal: Some(cardinal) }
    }

    /// Takes a coordinate apart, as `spec_from_degrees` says.
    pub fn from_degrees(degrees: i64) -> (dms: DMS)
        requires
            DMS::fits(degrees),
        ensures
            dms == DMS::spec_from_degrees(degrees),
    {
        let distance: u64 = if degrees < 0 {
            if degrees == i64::MIN {
                9_223_372_036_854_775_808
            } else {
                (-degrees) as u64
            }
        } else {
            degrees as u64
        };
        let whole: u64 = distance / 10_000_000;
        let rest: u64 = distance % 10_000_000;
        let minutes: u64 = rest * 60 / 10_000_000;
        let seconds: u64 = rest * 60 % 10_000_000 * 60;
        DMS {
            degrees: whole as u16,
            minutes: minutes as u8,
            seconds: seconds as u32,
            cardinal: None,
        }
    }

    /// Takes a latitude apart: south of the equator it is counted to the
    /// south, else to the north.
    pub fn from_degrees_latitude(lat: i64) -> (dms: DMS)
        requires
            DMS::fits(lat),
        ensures
            dms == (DMS {
                cardinal: Some(
                    if lat < 0 {
                        Cardinal::South
                    } else {
                        Cardinal::North
                    },
                ),
                ..DMS::spec_from_degrees(lat)
            }),
    {
        let mut dms = DMS::from_degrees(lat);
        if lat < 0 {
            dms.cardinal = Some(Cardinal::South);
        } else {
            dms.cardinal = Some(Cardinal::North);
        }
        dms
    }

    /// Takes a longitude apart: west of the prime meridian it is counted to
    /// the west, else to the east.
    pub fn from_degrees_longitude(lon: i64) -> (dms: DMS)
        requires
            DMS::fits(lon),
        ensures
            dms == (DMS {
                cardinal: Some(
                    if lon < 0 {
                        Cardinal::West
                    } else {
                        Cardinal::East
                    },
                ),
                ..DMS::spec_from_degrees(lon)
            }),
    {
        let mut dms = DMS::from_degrees(lon);
        if lon < 0 {
            dms.cardinal = Some(Cardinal::West);
        } else {
            dms.cardinal = Some(Cardinal::East);
        }
        dms
    }

    /// The coordinate of the angle, as `spec_to_degrees` says.
    pub fn to_degrees(&self) -> (degrees: i64)
        ensures
            degrees == self.spec_to_degrees(),
    {
        let total: i64 = (self.degrees as i64 * 3600 + self.minutes as i64 * 60) * 10_000_000
            + self.seconds as i64;
        let size: i64 = total / 3600;
        match self.cardinal {
            Some(cardinal) => if cardinal.is_negative() {
                -size
            } else {
                size
            },
            None => size,
        }
    }
}

/// A position: latitude and longitude in coordinate units, north and east positive.
#[derive(Clone, Copy, Debug, PartialEq, Eq, Structural)]
pub struct LatLon {
    pub lat: i64,
    pub lon: i64,
}

impl LatLon {
    /// Whether the position lies on the globe: latitude within 90 degrees of the
    /// equator, longitude within 180 degrees of the prime meridian.
    pub open spec fn on_globe(self) -> bool {
        &&& -MAX_LATITUDE <= self.lat <= MAX_LATITUDE
        &&& -MAX_LONGITUDE <= self.lon <= MAX_LONGITUDE
    }

    /// A position from latitude and longitude in coordinate units.
    pub fn new(lat: i64, lon: i64) -> (p: LatLon)
        ensures
            p == (LatLon { lat, lon }),
    {
        LatLon { lat, lon }
    }

    pub fn latitude(&self) -> (lat: i64)
        ensures
            lat == self.lat,
    {
        self.lat
    }

    pub fn longitude(&self) -> (lon: i64)
        ensures
            lon == self.lon,
    {
        self.lon
    }

    /// The position at a latitude and a longitude given in degrees, minutes
    /// and seconds.
    pub fn from_dms(lat: DMS, lon: DMS) -> (p: LatLon)
        ensures
            p.lat == lat.spec_to_degrees(),
            p.lon == lon.spec_to_degrees(),
    {
        LatLon { lat: lat.to_degrees(), lon: lon.to_degrees() }
    }

    /// The latitude and the longitude in degrees, minutes and seconds, each
    /// with its direction.
    pub fn to_dms(&self) -> (dms: (DMS, DMS))
        requires
            DMS::fits(self.lat),
            DMS::fits(self.lon),
        ensures
            dms.0 == (DMS {
                cardinal: Some(
                    if self.lat < 0 {
                        Cardinal::South
                    } else {
                        Cardinal::North
                    },
                ),
                ..DMS::spec_from_degrees(self.lat)
            }),
            dms.1 == (DMS {
                cardinal: Some(
                    if self.lon < 0 {
                        Cardinal::West
                    } else {
                        Cardinal::East
                    },
                ),
                ..DMS::spec_from_degrees(self.lon)
            }),
    {
        (DMS::from_degrees_latitude(self.latitude()), DMS::from_degrees_longitude(self.longitude()))
    }

    /// Decides `on_globe`.
    pub fn is_on_globe(&self) -> (ok: bool)
        ensures
            ok == self.on_globe(),
    {
        -MAX_LATITUDE <= self.lat && self.lat <= MAX_LATITUDE && -MAX_LONGITUDE <= self.lon
            && self.lon <= MAX_LONGITUDE
    }
}

/// The coordinates of a position on the globe can be taken apart.
pub proof fn lemma_on_globe_fits(position: LatLon)
    requires
        position.on_globe(),
    ensures
        DMS::fits(position.lat),
        DMS::fits(position.lon),
{
}

/// Taking a coordinate apart loses nothing: minutes and seconds are below
/// sixty, and degrees, minutes and seconds together are the coordinate's
/// distance from zero.
pub proof fn lemma_from_degrees_exact(units: i64)
    requires
        DMS::fits(units),
    ensures
        DMS::spec_from_degrees(units).normal(),
        DMS::spec_from_degrees(units).total() == distance_from_zero(units) * SECONDS_PER_DEGREE,
{
}

/// A coordinate comes back from its degrees, minutes and seconds: as its
/// distance from zero where no direction was given, and as itself where the
/// direction was given with it.
pub proof fn lemma_to_degrees_from_degrees(units: i64)
    requires
        DMS::fits(units),
    ensures
        DMS::spec_from_degrees(units).spec_to_degrees() == distance_from_zero(units),
        (DMS {
            cardinal: Some(
                if units < 0 {
                    Cardinal::South
                } else {
                    Cardinal::North
                },
            ),
            ..DMS::spec_from_degrees(units)
        }).spec_to_degrees() == units,
        (DMS {
            cardinal: Some(
                if units < 0 {
                    Cardinal::West
                } else {
                    Cardinal::East
                },
            ),
            ..DMS::spec_from_degrees(units)
        }).spec_to_degrees() == units,
{
    lemma_from_degrees_exact(units);
}

/// An angle comes back from its coordinate to within 3600 units, less than
/// a thousandth of a second: the coordinate keeps whole units only.
pub proof fn lemma_from_degrees_to_degrees(dms: DMS)
    requires
        dms.cardinal is None,
        dms.spec_to_degrees() <= i64::MAX,
        DMS::fits(dms.spec_to_degrees() as i64),
    ensures
        dms.total() - SECONDS_PER_DEGREE < DMS::spec_from_degrees(
            dms.spec_to_degrees() as i64,
        ).total() <= dms.total(),
{
    lemma_from_degrees_exact(dms.spec_to_degrees() as i64);
}

} // verus!
