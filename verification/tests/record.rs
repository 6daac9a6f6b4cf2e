use libsparkypi::codec::parse_record;
use libsparkypi::{ProtocolProperties, Transmission, protocol_one, protocol_two, xen};

#[test]
fn record_layout() {
    let t = Transmission::builder()
        .sequence("s0101")
        .pulse_length(320)
        .repeats(10)
        .protocol(protocol_one())
        .build();
    assert_eq!(t.csv_as_bytes(), b"s0101,320,10,1,3,1,31".to_vec());
}

#[test]
fn record_of_defaults() {
    let t = Transmission::new();
    assert_eq!(t.csv_as_bytes(), b",0,0,0,0,0,0".to_vec());
}

#[test]
fn record_of_extremes() {
    let t = Transmission::builder()
        .sequence("1")
        .pulse_length(65535)
        .repeats(255)
        .protocol(ProtocolProperties { short: 255, long: 255, sync_bit: 255, sync_gap: 255 })
        .build();
    assert_eq!(t.csv_as_bytes(), b"1,65535,255,255,255,255,255".to_vec());
}

#[test]
fn round_trip() {
    let t = Transmission::builder()
        .sequence("s000000000000010101010001")
        .pulse_length(320)
        .repeats(10)
        .protocol(protocol_one())
        .build();
    let bytes = t.csv_as_bytes();
    let rec = parse_record(&bytes).unwrap();
    assert_eq!(rec.sequence_bytes, b"s000000000000010101010001".to_vec());
    assert_eq!(rec.pulse_length, 320);
    assert_eq!(rec.repeats, 10);
    assert_eq!(rec.short, 1);
    assert_eq!(rec.long, 3);
    assert_eq!(rec.sync_bit, 1);
    assert_eq!(rec.sync_gap, 31);
}

#[test]
fn round_trip_with_comma_in_sequence() {
    // the numeric fields are split off the right end, so a comma inside
    // the sequence text still round-trips
    let t = Transmission::builder()
        .sequence("10,01")
        .pulse_length(150)
        .repeats(3)
        .protocol(protocol_two())
        .build();
    let bytes = t.csv_as_bytes();
    let rec = parse_record(&bytes).unwrap();
    assert_eq!(rec.sequence_bytes, b"10,01".to_vec());
    assert_eq!(rec.pulse_length, 150);
    assert_eq!(rec.repeats, 3);
    assert_eq!(rec.short, 1);
    assert_eq!(rec.long, 2);
    assert_eq!(rec.sync_bit, 1);
    assert_eq!(rec.sync_gap, 10);
}

#[test]
fn round_trip_with_non_ascii_sequence() {
    let t = Transmission::builder()
        .sequence("à1é")
        .pulse_length(42)
        .repeats(1)
        .protocol(xen())
        .build();
    let bytes = t.csv_as_bytes();
    let rec = parse_record(&bytes).unwrap();
    assert_eq!(rec.sequence_bytes, "à1é".as_bytes().to_vec());
    assert_eq!(String::from_utf8(rec.sequence_bytes).unwrap(), "à1é");
    assert_eq!(rec.pulse_length, 42);
    assert_eq!(rec.sync_gap, 11);
}

#[test]
fn parse_accepts_leading_zeros() {
    let rec = parse_record(b"abc,007,08,1,2,3,4").unwrap();
    assert_eq!(rec.sequence_bytes, b"abc".to_vec());
    assert_eq!(rec.pulse_length, 7);
    assert_eq!(rec.repeats, 8);
}

#[test]
fn parse_rejects_malformed_records() {
    // too few fields
    assert!(parse_record(b"").is_none());
    assert!(parse_record(b"abc").is_none());
    assert!(parse_record(b"abc,1,2,3,4,5").is_none());
    // an empty numeric field
    assert!(parse_record(b"abc,,2,3,4,5,6").is_none());
    assert!(parse_record(b"abc,1,2,3,4,5,").is_none());
    // a non-digit in a numeric field
    assert!(parse_record(b"abc,1,2,3,4x,5,6").is_none());
    assert!(parse_record(b"abc,1,2,3,-4,5,6").is_none());
    // out of range for the field's width
    assert!(parse_record(b"abc,65536,2,3,4,5,6").is_none());
    assert!(parse_record(b"abc,1,256,3,4,5,6").is_none());
    assert!(parse_record(b"abc,1,2,3,4,5,999").is_none());
}

#[test]
fn parse_boundary_values() {
    let rec = parse_record(b",65535,255,0,0,0,255").unwrap();
    assert_eq!(rec.sequence_bytes, Vec::<u8>::new());
    assert_eq!(rec.pulse_length, 65535);
    assert_eq!(rec.repeats, 255);
    assert_eq!(rec.short, 0);
    assert_eq!(rec.sync_gap, 255);
}
