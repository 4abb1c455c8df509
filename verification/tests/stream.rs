use logbook::aircraft::Aircraft;
use logbook::frame::{encode_frame, FrameBuffer};
use logbook::geo::LatLon;
use logbook::sim_connection::SimMessage;
use logbook::sim_data::SimData;
use logbook::xplane::{packet, ReadEvent, TelemetryStream};

fn challenger() -> SimData {
    SimData {
        icao: String::from("CL60"),
        name: String::from("Challenger 650"),
        registration: String::from("C-FAAV"),
        latitude: 320_001_230,
        longitude: 420_001_230,
        engine_on: false,
        on_ground: true,
    }
}

fn sample(message: Option<SimMessage>) -> Aircraft {
    match message {
        Some(SimMessage::SimData(aircraft)) => aircraft,
        other => panic!("{:?}", other),
    }
}

#[test]
fn a_frame_is_its_length_and_its_payload() {
    assert_eq!(encode_frame(b"abc").unwrap(), vec![3, 0, b'a', b'b', b'c']);
    assert_eq!(encode_frame(b"").unwrap(), vec![0, 0]);
    let long = vec![7u8; 258];
    let framed = encode_frame(&long).unwrap();
    assert_eq!(&framed[..2], &[2, 1]);
    assert_eq!(&framed[2..], &long[..]);
    let longest = vec![1u8; 65535];
    let framed = encode_frame(&longest).unwrap();
    assert_eq!(&framed[..2], &[255, 255]);
    assert_eq!(framed.len(), 65537);
}

#[test]
fn a_payload_too_long_fits_no_frame() {
    assert!(encode_frame(&vec![0u8; 65536]).is_none());
    assert!(encode_frame(&vec![0u8; 70000]).is_none());
}

#[test]
fn no_frame_is_given_before_all_of_it_came() {
    let mut buffer = FrameBuffer::new();
    buffer.push(&[0x0a, 0x00]);
    assert!(buffer.next_frame().is_none());
    buffer.push(b"123456789");
    assert!(buffer.next_frame().is_none());
    assert_eq!(buffer.len(), 11);
    buffer.push(b"0");
    assert_eq!(buffer.next_frame().unwrap(), b"1234567890".to_vec());
    assert_eq!(buffer.len(), 0);
    assert!(buffer.next_frame().is_none());
}

#[test]
fn no_frame_is_given_for_half_a_length() {
    let mut buffer = FrameBuffer::new();
    assert!(buffer.next_frame().is_none());
    buffer.push(&[0x02]);
    assert!(buffer.next_frame().is_none());
    assert_eq!(buffer.len(), 1);
    buffer.push(&[0x00, b'h']);
    assert!(buffer.next_frame().is_none());
    buffer.push(&[b'i', 0x01]);
    assert_eq!(buffer.next_frame().unwrap(), b"hi".to_vec());
    assert_eq!(buffer.len(), 1);
    assert!(buffer.next_frame().is_none());
}

#[test]
fn frames_come_out_in_order() {
    let mut buffer = FrameBuffer::new();
    let mut bytes = encode_frame(b"first").unwrap();
    bytes.extend(encode_frame(b"").unwrap());
    bytes.extend(encode_frame(b"third").unwrap());
    bytes.extend(&[9, 0, b'p']);
    buffer.push(&bytes);
    assert_eq!(buffer.next_frame().unwrap(), b"first".to_vec());
    assert_eq!(buffer.next_frame().unwrap(), b"".to_vec());
    assert_eq!(buffer.next_frame().unwrap(), b"third".to_vec());
    assert!(buffer.next_frame().is_none());
    assert_eq!(buffer.len(), 3);
}

#[test]
fn the_length_is_read_least_significant_byte_first() {
    let mut buffer = FrameBuffer::new();
    buffer.push(&[0x00, 0x01]);
    buffer.push(&vec![5u8; 255]);
    assert!(buffer.next_frame().is_none());
    buffer.push(&[5u8]);
    assert_eq!(buffer.next_frame().unwrap(), vec![5u8; 256]);
}

#[test]
fn a_packet_is_the_framed_text_of_a_record() {
    let framed = packet(&challenger()).unwrap();
    let text = "CL60,Challenger 650,C-FAAV,32.000123,42.000123,false,true\n";
    assert_eq!(framed[0] as usize, text.len());
    assert_eq!(framed[1], 0);
    assert_eq!(&framed[2..], text.as_bytes());
}

#[test]
fn a_record_too_long_has_no_packet() {
    let mut long = challenger();
    long.name = "x".repeat(65536);
    assert!(packet(&long).is_none());
}

#[test]
fn a_packet_that_came_is_a_sample() {
    let mut stream = TelemetryStream::new();
    let aircraft = sample(stream.on_read(ReadEvent::Data(packet(&challenger()).unwrap())));
    assert_eq!(aircraft.title, "Challenger 650");
    assert_eq!(aircraft.icao, "CL60");
    assert_eq!(aircraft.registration, "C-FAAV");
    assert_eq!(aircraft.position, LatLon::new(320_001_230, 420_001_230));
    assert_eq!(aircraft.engines_on, [false, false, false, false]);
    assert!(aircraft.on_ground);
    assert!(stream.next_queued().is_none());
}

#[test]
fn a_packet_in_parts_waits_for_its_end() {
    let mut stream = TelemetryStream::new();
    let framed = packet(&challenger()).unwrap();
    for part in framed[..framed.len() - 1].chunks(7) {
        assert!(matches!(
            stream.on_read(ReadEvent::Data(part.to_vec())),
            Some(SimMessage::Waiting)
        ));
    }
    let last = framed[framed.len() - 1..].to_vec();
    let aircraft = sample(stream.on_read(ReadEvent::Data(last)));
    assert_eq!(aircraft.registration, "C-FAAV");
}

#[test]
fn packets_that_came_together_are_handed_on_one_by_one() {
    let mut stream = TelemetryStream::new();
    let mut second = challenger();
    second.registration = String::from("SECOND");
    second.engine_on = true;
    let mut third = challenger();
    third.registration = String::from("THIRD");
    let mut bytes = packet(&challenger()).unwrap();
    bytes.extend(packet(&second).unwrap());
    bytes.extend(packet(&third).unwrap());
    assert_eq!(sample(stream.on_read(ReadEvent::Data(bytes))).registration, "C-FAAV");
    let aircraft = sample(stream.next_queued());
    assert_eq!(aircraft.registration, "SECOND");
    assert_eq!(aircraft.engines_on, [true, false, false, false]);
    assert_eq!(sample(stream.on_read(ReadEvent::Data(Vec::new()))).registration, "THIRD");
    assert!(stream.next_queued().is_none());
    assert!(matches!(
        stream.on_read(ReadEvent::Data(Vec::new())),
        Some(SimMessage::Waiting)
    ));
}

#[test]
fn a_frame_without_a_record_is_dropped() {
    let mut stream = TelemetryStream::new();
    let mut bytes = encode_frame(b"no record here").unwrap();
    bytes.extend(encode_frame(&[0xff, 0xfe, b',']).unwrap());
    bytes.extend(encode_frame(b"").unwrap());
    bytes.extend(encode_frame(b"CL60,Challenger,C-FAAV,1,2,maybe,true").unwrap());
    bytes.extend(packet(&challenger()).unwrap());
    stream.receive(&bytes);
    assert_eq!(sample(stream.next_queued()).title, "Challenger 650");
    assert!(stream.next_queued().is_none());
}

#[test]
fn a_read_without_bytes_has_its_message() {
    let mut stream = TelemetryStream::new();
    assert!(matches!(stream.on_read(ReadEvent::TimedOut), Some(SimMessage::Waiting)));
    assert!(matches!(stream.on_read(ReadEvent::ConnectionAborted), Some(SimMessage::Quit)));
    assert!(matches!(stream.on_read(ReadEvent::Closed), Some(SimMessage::Quit)));
    assert!(stream.on_read(ReadEvent::Failed).is_none());
}

#[test]
fn a_read_without_bytes_keeps_what_is_pending() {
    let mut stream = TelemetryStream::new();
    let framed = packet(&challenger()).unwrap();
    stream.receive(&framed[..20]);
    assert!(matches!(stream.on_read(ReadEvent::TimedOut), Some(SimMessage::Waiting)));
    assert!(stream.on_read(ReadEvent::Failed).is_none());
    assert_eq!(
        sample(stream.on_read(ReadEvent::Data(framed[20..].to_vec()))).registration,
        "C-FAAV"
    );
}

#[test]
fn a_record_becomes_a_sample_with_one_engine() {
    let mut running = challenger();
    running.engine_on = true;
    running.on_ground = false;
    let aircraft = Aircraft::from(running);
    assert_eq!(aircraft.title, "Challenger 650");
    assert_eq!(aircraft.icao, "CL60");
    assert_eq!(aircraft.registration, "C-FAAV");
    assert_eq!(aircraft.position.latitude(), 320_001_230);
    assert_eq!(aircraft.position.longitude(), 420_001_230);
    assert_eq!(aircraft.engines_on, [true, false, false, false]);
    assert!(!aircraft.on_ground);
    let copy = aircraft.clone();
    assert_eq!(copy.title, aircraft.title);
    assert_eq!(copy.engines_on, aircraft.engines_on);
}
