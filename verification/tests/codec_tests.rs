use battery_graph::codec::{decode, encode, encode_state, file_descriptor_proto,
    parse_descriptor_proto, FormatError};
use battery_graph::state::BatteryState;

fn s(ts: u32, level: f32, charging: bool) -> BatteryState {
    BatteryState::new(ts, level.to_bits(), charging)
}

#[test]
fn round_trip_multiple_samples() {
    let h = vec![
        s(0, 55.5, false),
        s(300, 100.0, true),
        s(301, 0.0, false),
        s(u32::MAX, 87.25, true),
    ];
    let bytes = encode(&h);
    let back = decode(&bytes).unwrap();
    assert_eq!(back, h);
}

#[test]
fn round_trip_empty() {
    let h: Vec<BatteryState> = vec![];
    let bytes = encode(&h);
    assert!(bytes.is_empty());
    assert_eq!(decode(&bytes).unwrap(), h);
}

#[test]
fn single_record_exact_bytes() {
    // 42.5f32 has the little-endian bytes 00 00 2A 42.
    let h = vec![s(1, 42.5, true)];
    let bytes = encode(&h);
    assert_eq!(
        bytes,
        vec![0x0A, 0x09, 0x08, 0x01, 0x15, 0x00, 0x00, 0x2A, 0x42, 0x18, 0x01]
    );
}

#[test]
fn encode_state_is_one_record() {
    let sample = s(7, 99.0, false);
    let record = encode_state(&sample);
    let whole = encode(&vec![sample]);
    assert_eq!(record, whole);
}

#[test]
fn concatenated_blobs_decode_as_one_history() {
    let h1 = vec![s(0, 80.0, false), s(100, 79.0, false)];
    let h2 = vec![s(200, 78.0, true)];
    let mut blob = encode(&h1);
    blob.extend_from_slice(&encode(&h2));
    let mut joined = h1.clone();
    joined.extend_from_slice(&h2);
    assert_eq!(decode(&blob).unwrap(), joined);
}

#[test]
fn five_byte_timestamp_varint_round_trips() {
    let h = vec![s(u32::MAX, 1.0, false)];
    let bytes = encode(&h);
    assert_eq!(decode(&bytes).unwrap(), h);
}

#[test]
fn truncated_record_is_reported() {
    let bytes = encode(&vec![s(1, 42.5, true)]);
    for cut in 1..bytes.len() {
        let prefix: Vec<u8> = bytes[..cut].to_vec();
        assert!(decode(&prefix).is_err(), "prefix of {} bytes decoded", cut);
    }
    // Cutting inside the declared record body is a truncation.
    let prefix: Vec<u8> = bytes[..4].to_vec();
    assert_eq!(decode(&prefix).unwrap_err(), FormatError::Truncated);
}

#[test]
fn unknown_top_level_field_is_reported() {
    let blob = vec![0x12, 0x00];
    assert_eq!(decode(&blob).unwrap_err(), FormatError::UnexpectedField);
}

#[test]
fn unknown_field_inside_record_is_reported() {
    // Body declares field 4 (tag 0x20) where the timestamp should sit.
    let blob = vec![0x0A, 0x09, 0x20, 0x01, 0x15, 0x00, 0x00, 0x2A, 0x42, 0x18, 0x01];
    assert_eq!(decode(&blob).unwrap_err(), FormatError::UnexpectedField);
}

#[test]
fn trailing_bytes_inside_record_are_reported() {
    // A valid body followed by one extra byte, all covered by the length.
    let blob = vec![0x0A, 0x0A, 0x08, 0x01, 0x15, 0x00, 0x00, 0x2A, 0x42, 0x18, 0x01, 0x00];
    assert_eq!(decode(&blob).unwrap_err(), FormatError::UnexpectedField);
}

#[test]
fn charging_byte_above_one_is_reported() {
    let blob = vec![0x0A, 0x09, 0x08, 0x01, 0x15, 0x00, 0x00, 0x2A, 0x42, 0x18, 0x02];
    assert_eq!(decode(&blob).unwrap_err(), FormatError::UnexpectedField);
}

#[test]
fn padded_varint_is_accepted() {
    // Timestamp 0 spelled in two bytes: 0x80 0x00.
    let blob = vec![0x0A, 0x0A, 0x08, 0x80, 0x00, 0x15, 0x00, 0x00, 0x2A, 0x42, 0x18, 0x00];
    let h = decode(&blob).unwrap();
    assert_eq!(h, vec![s(0, 42.5, false)]);
}

#[test]
fn oversized_varint_is_reported() {
    // Six continuation-flagged bytes can never spell a 32-bit value.
    let blob = vec![0x0A, 0x0C, 0x08, 0x80, 0x80, 0x80, 0x80, 0x80, 0x01, 0x15, 0x00, 0x00,
        0x2A, 0x42];
    assert_eq!(decode(&blob).unwrap_err(), FormatError::UnexpectedField);
}

#[test]
fn descriptor_lists_the_three_fields() {
    let d = parse_descriptor_proto();
    assert_eq!(d.len(), 3);
    assert_eq!((d[0].number, d[0].wire), (1, 0));
    assert_eq!((d[1].number, d[1].wire), (2, 5));
    assert_eq!((d[2].number, d[2].wire), (3, 0));
    let f = file_descriptor_proto();
    assert_eq!(d, f);
}
