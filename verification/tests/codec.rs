use logbook::decimal::{from_decimal, to_decimal};
use logbook::sim_data::{CodecError, SimData};

fn units(degrees: f64) -> i64 {
    (degrees * 1e7).round() as i64
}

fn degrees(units: i64) -> f64 {
    units as f64 / 1e7
}

fn fields(texts: &[&str]) -> Vec<String> {
    texts.iter().map(|text| text.to_string()).collect()
}

#[test]
fn test_from_csv() {
    let csv = "CL60,Challenger 650,C-FAAV,32.000123,42.000123,false,true";
    let sim_data = SimData::from_csv(csv).unwrap();
    assert_eq!(sim_data.icao, String::from("CL60"));
    assert_eq!(sim_data.name, String::from("Challenger 650"));
    assert_eq!(sim_data.registration, String::from("C-FAAV"));
    assert_eq!(degrees(sim_data.latitude), 32.000123);
    assert_eq!(degrees(sim_data.longitude), 42.000123);
    assert!(!sim_data.engine_on);
    assert!(sim_data.on_ground);
}

#[test]
fn test_to_csv() {
    let sim_data = SimData {
        icao: String::from("CL60"),
        name: String::from("Challenger 650"),
        registration: String::from("C-FAAV"),
        latitude: units(32.000123),
        longitude: units(42.000123),
        engine_on: false,
        on_ground: true,
    };
    let csv = sim_data.to_csv().unwrap();
    assert_eq!(
        csv,
        String::from("CL60,Challenger 650,C-FAAV,32.000123,42.000123,false,true\n")
    );
}

#[test]
fn from_csv_keeps_exact_units() {
    let sim_data = SimData::from_csv("A320,Airbus,SX-ABC,-34.7177781,0.5,true,false\r\n").unwrap();
    assert_eq!(sim_data.latitude, -347_177_781);
    assert_eq!(sim_data.longitude, 5_000_000);
    assert!(sim_data.engine_on);
    assert!(!sim_data.on_ground);
}

#[test]
fn from_csv_rejects_fewer_than_seven_fields() {
    let result = SimData::from_csv("CL60,Challenger 650,C-FAAV,32.000123,42.000123,false");
    assert_eq!(result.unwrap_err(), CodecError::MalformedRecord);
}

#[test]
fn from_csv_rejects_empty_text() {
    assert_eq!(SimData::from_csv("").unwrap_err(), CodecError::MalformedRecord);
}

#[test]
fn from_csv_rejects_a_flag_that_is_no_token() {
    let result = SimData::from_csv("CL60,Challenger 650,C-FAAV,32.0,42.0,yes,true");
    assert_eq!(result.unwrap_err(), CodecError::MalformedRecord);
    let result = SimData::from_csv("CL60,Challenger 650,C-FAAV,32.0,42.0,false,TRUE");
    assert_eq!(result.unwrap_err(), CodecError::MalformedRecord);
}

#[test]
fn from_csv_rejects_a_coordinate_that_is_no_numeral() {
    let result = SimData::from_csv("CL60,Challenger 650,C-FAAV,north,42.0,false,true");
    assert_eq!(result.unwrap_err(), CodecError::MalformedRecord);
    let result = SimData::from_csv("CL60,Challenger 650,C-FAAV,32.0,,false,true");
    assert_eq!(result.unwrap_err(), CodecError::MalformedRecord);
}

#[test]
fn from_csv_ignores_fields_behind_the_seventh() {
    let sim_data = SimData::from_csv("CL60,Challenger 650,C-FAAV,1,2,true,true,more").unwrap();
    assert_eq!(sim_data.latitude, 10_000_000);
    assert_eq!(sim_data.longitude, 20_000_000);
}

#[test]
fn from_csv_reads_quoted_fields() {
    let sim_data =
        SimData::from_csv("C172,\"Cessna 172, \"\"Skyhawk\"\"\",N123,1.5,-2.5,false,true").unwrap();
    assert_eq!(sim_data.name, "Cessna 172, \"Skyhawk\"");
    assert_eq!(sim_data.latitude, 15_000_000);
    assert_eq!(sim_data.longitude, -25_000_000);
}

#[test]
fn to_csv_quotes_where_the_text_needs_it() {
    let sim_data = SimData {
        icao: String::from("C172"),
        name: String::from("Cessna 172, \"Skyhawk\""),
        registration: String::from("N123"),
        latitude: -5,
        longitude: 1_800_000_000,
        engine_on: true,
        on_ground: false,
    };
    assert_eq!(
        sim_data.to_csv().unwrap(),
        "C172,\"Cessna 172, \"\"Skyhawk\"\"\",N123,-0.0000005,180.0,true,false\n"
    );
}

#[test]
fn record_survives_the_round_trip() {
    let records = vec![
        ("CL60", "Challenger 650", "C-FAAV", 320_001_230i64, 420_001_230i64, false, true),
        ("", "", "", 0, 0, false, false),
        ("B738", "Boeing, 737-800", "D-\"X\"", -900_000_000, -1_800_000_000, true, true),
        ("X", "line\nbreak", " spaced ", i64::MAX, i64::MIN, true, false),
        ("É", "Zürich ✈", "HB-JÖ", 1, -1, false, true),
    ];
    for (icao, name, registration, latitude, longitude, engine_on, on_ground) in records {
        let written = SimData {
            icao: icao.to_string(),
            name: name.to_string(),
            registration: registration.to_string(),
            latitude,
            longitude,
            engine_on,
            on_ground,
        };
        let read = SimData::from_csv(&written.to_csv().unwrap()).unwrap();
        assert_eq!(read.icao, icao);
        assert_eq!(read.name, name);
        assert_eq!(read.registration, registration);
        assert_eq!(read.latitude, latitude);
        assert_eq!(read.longitude, longitude);
        assert_eq!(read.engine_on, engine_on);
        assert_eq!(read.on_ground, on_ground);
    }
}

#[test]
fn a_byte_order_mark_before_the_type_code_is_lost() {
    let written = SimData {
        icao: String::from("\u{feff}CL60"),
        name: String::from("\u{feff}Challenger 650"),
        registration: String::from("C-FAAV"),
        latitude: 1,
        longitude: 2,
        engine_on: true,
        on_ground: true,
    };
    let read = SimData::from_csv(&written.to_csv().unwrap()).unwrap();
    assert_eq!(read.icao, "CL60");
    assert_eq!(read.name, "\u{feff}Challenger 650");
    let read = SimData::from_fields(&written.to_fields()).unwrap();
    assert_eq!(read.icao, "\u{feff}CL60");
}

#[test]
fn fields_survive_the_round_trip() {
    let written = SimData {
        icao: String::from("CL60"),
        name: String::from("Challenger 650"),
        registration: String::from("C-FAAV"),
        latitude: 347_177_780,
        longitude: -324_855_560,
        engine_on: true,
        on_ground: false,
    };
    let between = written.to_fields();
    assert_eq!(
        between,
        fields(&["CL60", "Challenger 650", "C-FAAV", "34.717778", "-32.485556", "true", "false"])
    );
    let read = SimData::from_fields(&between).unwrap();
    assert_eq!(read.latitude, 347_177_780);
    assert_eq!(read.longitude, -324_855_560);
    assert!(read.engine_on);
    assert!(!read.on_ground);
}

#[test]
fn from_fields_rejects_six_fields() {
    let six = fields(&["CL60", "Challenger 650", "C-FAAV", "1.0", "2.0", "true"]);
    assert_eq!(SimData::from_fields(&six).unwrap_err(), CodecError::MalformedRecord);
}

#[test]
fn decimal_reads_exact_values() {
    assert_eq!(from_decimal(b"32.000123"), Some(320_001_230));
    assert_eq!(from_decimal(b"-0.5"), Some(-5_000_000));
    assert_eq!(from_decimal(b"+12"), Some(120_000_000));
    assert_eq!(from_decimal(b"7."), Some(70_000_000));
    assert_eq!(from_decimal(b".25"), Some(2_500_000));
    assert_eq!(from_decimal(b"0"), Some(0));
    assert_eq!(from_decimal(b"-0.0"), Some(0));
    assert_eq!(from_decimal(b"0007.5"), Some(75_000_000));
}

#[test]
fn decimal_cuts_off_behind_the_seventh_digit() {
    assert_eq!(from_decimal(b"1.23456789"), Some(12_345_678));
    assert_eq!(from_decimal(b"-1.23456789"), Some(-12_345_678));
    assert_eq!(from_decimal(b"34.71777812345678"), Some(347_177_781));
    assert_eq!(from_decimal(b"0.00000009"), Some(0));
}

#[test]
fn decimal_rejects_what_is_no_numeral() {
    assert_eq!(from_decimal(b""), None);
    assert_eq!(from_decimal(b"."), None);
    assert_eq!(from_decimal(b"-"), None);
    assert_eq!(from_decimal(b"+."), None);
    assert_eq!(from_decimal(b"1.2.3"), None);
    assert_eq!(from_decimal(b"--1"), None);
    assert_eq!(from_decimal(b"1-"), None);
    assert_eq!(from_decimal(b" 1"), None);
    assert_eq!(from_decimal(b"1 "), None);
    assert_eq!(from_decimal(b"1,5"), None);
    assert_eq!(from_decimal(b"1.5x"), None);
    assert_eq!(from_decimal(b"inf"), None);
    assert_eq!(from_decimal(b"infinity"), None);
    assert_eq!(from_decimal(b"NaN"), None);
    assert_eq!(from_decimal("١٢".as_bytes()), None);
}

#[test]
fn decimal_moves_the_point_by_the_exponent() {
    assert_eq!(from_decimal(b"1e2"), Some(1_000_000_000));
    assert_eq!(from_decimal(b"1E2"), Some(1_000_000_000));
    assert_eq!(from_decimal(b"1e+2"), Some(1_000_000_000));
    assert_eq!(from_decimal(b"-2.5e1"), Some(-250_000_000));
    assert_eq!(from_decimal(b"1.234e-6"), Some(12));
    assert_eq!(from_decimal(b"-1.234e-6"), Some(-12));
    assert_eq!(from_decimal(b"1e-7"), Some(1));
    assert_eq!(from_decimal(b"5E-8"), Some(0));
    assert_eq!(from_decimal(b"3.2000123e1"), Some(320_001_230));
    assert_eq!(from_decimal(b"320001230e-7"), Some(320_001_230));
    assert_eq!(from_decimal(b"0.000000000000000000001e21"), Some(10_000_000));
    assert_eq!(from_decimal(b".5e1"), Some(50_000_000));
    assert_eq!(from_decimal(b"5.e-1"), Some(5_000_000));
    assert_eq!(from_decimal(b"1e0"), Some(10_000_000));
    assert_eq!(from_decimal(b"1e-0"), Some(10_000_000));
    assert_eq!(from_decimal(b"1e007"), Some(100_000_000_000_000));
    assert_eq!(from_decimal(b"1e11"), Some(1_000_000_000_000_000_000));
    assert_eq!(from_decimal(b"1e12"), None);
}

#[test]
fn decimal_rejects_an_exponent_that_is_none() {
    assert_eq!(from_decimal(b"1e"), None);
    assert_eq!(from_decimal(b"1e+"), None);
    assert_eq!(from_decimal(b"1e-"), None);
    assert_eq!(from_decimal(b"e5"), None);
    assert_eq!(from_decimal(b".e1"), None);
    assert_eq!(from_decimal(b"-e1"), None);
    assert_eq!(from_decimal(b"1e5.0"), None);
    assert_eq!(from_decimal(b"1e5e5"), None);
    assert_eq!(from_decimal(b"1e+-5"), None);
    assert_eq!(from_decimal(b"1e 5"), None);
    assert_eq!(from_decimal(b"1x5"), None);
}

#[test]
fn decimal_takes_an_exponent_of_any_size() {
    assert_eq!(from_decimal(b"0e99999999999999999999999999999999999999999"), Some(0));
    assert_eq!(from_decimal(b"0.000e99999999999999999999999999999999999999999"), Some(0));
    assert_eq!(from_decimal(b"1e99999999999999999999999999999999999999999"), None);
    assert_eq!(from_decimal(b"-1e99999999999999999999999999999999999999999"), None);
    assert_eq!(from_decimal(b"1e-99999999999999999999999999999999999999999"), Some(0));
    assert_eq!(from_decimal(b"-1e-99999999999999999999999999999999999999999"), Some(0));
    assert_eq!(from_decimal(b"1e1000000000000000000000000000000"), None);
    assert_eq!(from_decimal(b"1e999999999999999999999999999999"), None);
    assert_eq!(from_decimal(b"0e1000000000000000000000000000000"), Some(0));
    assert_eq!(from_decimal(b"123e-1000000000000000000000000000000"), Some(0));
}

#[test]
fn decimal_keeps_to_64_bits() {
    assert_eq!(from_decimal(b"9223372036854775807e-7"), Some(i64::MAX));
    assert_eq!(from_decimal(b"9223372036854775808e-7"), None);
    assert_eq!(from_decimal(b"-9223372036854775808e-7"), Some(i64::MIN));
    assert_eq!(from_decimal(b"-9223372036854775809e-7"), None);
    assert_eq!(from_decimal(b"0.9223372036854775807e12"), Some(i64::MAX));
    assert_eq!(from_decimal(b"0.9223372036854775808e12"), None);
    assert_eq!(from_decimal(b"-0.9223372036854775808e12"), Some(i64::MIN));
    assert_eq!(from_decimal(b"92233720368547758079999e-11"), Some(i64::MAX));
    assert_eq!(from_decimal(b"922337203685.4775807"), Some(i64::MAX));
    assert_eq!(from_decimal(b"922337203685.4775808"), None);
    assert_eq!(from_decimal(b"-922337203685.4775808"), Some(i64::MIN));
    assert_eq!(from_decimal(b"-922337203685.4775809"), None);
    assert_eq!(from_decimal(b"922337203686"), None);
    assert_eq!(from_decimal(b"99999999999999999999999999999999"), None);
    assert_eq!(from_decimal(b"00000000000000000000000000000001"), Some(10_000_000));
}

#[test]
fn decimal_writes_exact_values() {
    assert_eq!(to_decimal(320_001_230), b"32.000123".to_vec());
    assert_eq!(to_decimal(0), b"0.0".to_vec());
    assert_eq!(to_decimal(-5_000_000), b"-0.5".to_vec());
    assert_eq!(to_decimal(1), b"0.0000001".to_vec());
    assert_eq!(to_decimal(-1), b"-0.0000001".to_vec());
    assert_eq!(to_decimal(1_800_000_000), b"180.0".to_vec());
    assert_eq!(to_decimal(10_000_010), b"1.000001".to_vec());
    assert_eq!(to_decimal(i64::MAX), b"922337203685.4775807".to_vec());
    assert_eq!(to_decimal(i64::MIN), b"-922337203685.4775808".to_vec());
}

#[test]
fn decimal_survives_the_round_trip() {
    let values = [
        0i64, 1, -1, 9, 10, 99, 100, 9_999_999, 10_000_000, 10_000_001, 347_177_780,
        -324_855_560, 900_000_000, -1_800_000_000, i64::MAX, i64::MIN, i64::MAX - 1, i64::MIN + 1,
    ];
    for value in values {
        assert_eq!(from_decimal(&to_decimal(value)), Some(value));
    }
}
