use logbook::geo::{Cardinal, LatLon, DMS};

#[test]
fn a_coordinate_is_taken_apart_without_rounding() {
    let dms = DMS::from_degrees(347_177_780);
    assert_eq!(dms.degrees, 34);
    assert_eq!(dms.minutes, 43);
    assert_eq!(dms.seconds, 40_008_000);
    assert_eq!(dms.cardinal, None);

    let dms = DMS::from_degrees(-324_855_560);
    assert_eq!(dms.degrees, 32);
    assert_eq!(dms.minutes, 29);
    assert_eq!(dms.seconds, 80_016_000);
    assert_eq!(dms.cardinal, None);

    let dms = DMS::from_degrees(9_999_999);
    assert_eq!((dms.degrees, dms.minutes, dms.seconds), (0, 59, 599_996_400));
}

#[test]
fn a_coordinate_at_zero_has_no_angle() {
    let dms = DMS::from_degrees(0);
    assert_eq!((dms.degrees, dms.minutes, dms.seconds, dms.cardinal), (0, 0, 0, None));
    assert_eq!(DMS::from_degrees_latitude(0).cardinal, Some(Cardinal::North));
    assert_eq!(DMS::from_degrees_longitude(0).cardinal, Some(Cardinal::East));
}

#[test]
fn the_direction_follows_the_sign() {
    assert_eq!(DMS::from_degrees_latitude(347_177_780).cardinal, Some(Cardinal::North));
    assert_eq!(DMS::from_degrees_latitude(-347_177_780).cardinal, Some(Cardinal::South));
    assert_eq!(DMS::from_degrees_longitude(324_855_560).cardinal, Some(Cardinal::East));
    assert_eq!(DMS::from_degrees_longitude(-324_855_560).cardinal, Some(Cardinal::West));
    assert_eq!(DMS::from_degrees_latitude(-347_177_780).degrees, 34);
    assert_eq!(DMS::from_degrees_latitude(-347_177_780).minutes, 43);
    assert_eq!(DMS::from_degrees_latitude(-347_177_780).seconds, 40_008_000);
}

#[test]
fn an_angle_gives_its_coordinate() {
    assert_eq!(DMS::new(34, 43, 40_008_000, Cardinal::North).to_degrees(), 347_177_780);
    assert_eq!(DMS::new(34, 43, 40_008_000, Cardinal::South).to_degrees(), -347_177_780);
    assert_eq!(DMS::new(32, 29, 80_016_000, Cardinal::East).to_degrees(), 324_855_560);
    assert_eq!(DMS::new(32, 29, 80_016_000, Cardinal::West).to_degrees(), -324_855_560);
    assert_eq!(DMS::new(1, 30, 0, Cardinal::North).to_degrees(), 15_000_000);
    assert_eq!(DMS::new(0, 0, 10_000_000, Cardinal::East).to_degrees(), 2_777);
    let bare = DMS { degrees: 10, minutes: 0, seconds: 0, cardinal: None };
    assert_eq!(bare.to_degrees(), 100_000_000);
}

#[test]
fn coordinates_survive_the_round_trip() {
    let values = [
        0i64, 1, 59, 60, 2_777, 9_999_999, 10_000_000, 347_177_780, 324_855_560, 900_000_000,
        1_800_000_000,
    ];
    for value in values {
        assert_eq!(DMS::from_degrees(value).to_degrees(), value);
        assert_eq!(DMS::from_degrees(-value).to_degrees(), value);
        assert_eq!(DMS::from_degrees_latitude(value).to_degrees(), value);
        assert_eq!(DMS::from_degrees_latitude(-value).to_degrees(), -value);
        assert_eq!(DMS::from_degrees_longitude(value).to_degrees(), value);
        assert_eq!(DMS::from_degrees_longitude(-value).to_degrees(), -value);
    }
}

#[test]
fn an_angle_comes_back_within_a_thousandth_of_a_second() {
    let angle = DMS { degrees: 12, minutes: 1, seconds: 0, cardinal: None };
    let back = DMS::from_degrees(angle.to_degrees());
    assert_eq!((back.degrees, back.minutes, back.seconds), (12, 0, 599_997_600));
    let angle = DMS { degrees: 34, minutes: 43, seconds: 40_008_000, cardinal: None };
    assert_eq!(DMS::from_degrees(angle.to_degrees()), angle);
}

#[test]
fn a_position_goes_to_angles_and_back() {
    let paphos = LatLon::new(347_177_780, 324_855_560);
    let (lat, lon) = paphos.to_dms();
    assert_eq!(lat, DMS::new(34, 43, 40_008_000, Cardinal::North));
    assert_eq!(lon, DMS::new(32, 29, 80_016_000, Cardinal::East));
    assert_eq!(LatLon::from_dms(lat, lon), paphos);

    let south_west = LatLon::new(-338_000_000, -700_000_001);
    let (lat, lon) = south_west.to_dms();
    assert_eq!(lat.cardinal, Some(Cardinal::South));
    assert_eq!(lon.cardinal, Some(Cardinal::West));
    assert_eq!(LatLon::from_dms(lat, lon), south_west);
    assert_eq!(south_west.latitude(), -338_000_000);
    assert_eq!(south_west.longitude(), -700_000_001);
}

#[test]
fn a_position_is_on_the_globe_within_its_limits() {
    assert!(LatLon::new(0, 0).is_on_globe());
    assert!(LatLon::new(900_000_000, 1_800_000_000).is_on_globe());
    assert!(LatLon::new(-900_000_000, -1_800_000_000).is_on_globe());
    assert!(!LatLon::new(900_000_001, 0).is_on_globe());
    assert!(!LatLon::new(-900_000_001, 0).is_on_globe());
    assert!(!LatLon::new(0, 1_800_000_001).is_on_globe());
    assert!(!LatLon::new(0, -1_800_000_001).is_on_globe());
}

#[test]
fn directions_have_their_letter() {
    assert_eq!(Cardinal::North.to_string(), "N");
    assert_eq!(Cardinal::South.to_string(), "S");
    assert_eq!(Cardinal::East.to_string(), "E");
    assert_eq!(Cardinal::West.to_string(), "W");
    assert!(!Cardinal::North.is_negative());
    assert!(Cardinal::South.is_negative());
    assert!(!Cardinal::East.is_negative());
    assert!(Cardinal::West.is_negative());
}

#[test]
fn an_angle_is_written_with_two_digits_of_the_seconds() {
    assert_eq!(DMS::new(34, 43, 40_008_000, Cardinal::North).to_string(), "34°43'4.00\"N");
    assert_eq!(DMS::new(32, 29, 80_016_000, Cardinal::West).to_string(), "32°29'8.00\"W");
    assert_eq!(DMS::new(0, 0, 123_450_000, Cardinal::East).to_string(), "0°0'12.35\"E");
    assert_eq!(DMS::new(0, 0, 123_449_999, Cardinal::East).to_string(), "0°0'12.34\"E");
    assert_eq!(DMS::new(180, 59, 599_999_999, Cardinal::South).to_string(), "180°59'60.00\"S");
    let bare = DMS { degrees: 7, minutes: 5, seconds: 500_000, cardinal: None };
    assert_eq!(bare.to_string(), "7°5'0.05\"");
    let large = DMS { degrees: 65535, minutes: 255, seconds: u32::MAX, cardinal: None };
    assert_eq!(large.to_string(), "65535°255'429.50\"");
}
