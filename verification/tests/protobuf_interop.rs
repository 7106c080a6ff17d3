//! The blob must stay readable by an ordinary protocol-buffers reader,
//! and blobs such a reader's writer produces must decode.
use battery_graph::codec::{decode, encode};
use battery_graph::state::BatteryState;
use protobuf::{CodedInputStream, CodedOutputStream};

fn s(ts: u32, level: f32, charging: bool) -> BatteryState {
    BatteryState::new(ts, level.to_bits(), charging)
}

#[test]
fn encoded_blob_reads_back_through_protobuf() {
    let h = vec![s(12345, 87.5, true), s(u32::MAX, 0.25, false)];
    let blob = encode(&h);
    let mut is = CodedInputStream::from_bytes(&blob);
    for expected in h.iter() {
        let tag = is.read_raw_tag_or_eof().unwrap().unwrap();
        assert_eq!(tag, (1 << 3) | 2, "record tag");
        let len = is.read_raw_varint32().unwrap();
        let body = {
            let mut body = Vec::new();
            is.read_raw_bytes_into(len, &mut body).unwrap();
            body
        };
        let mut bs = CodedInputStream::from_bytes(&body);
        assert_eq!(bs.read_raw_tag_or_eof().unwrap().unwrap(), 1 << 3);
        assert_eq!(bs.read_uint32().unwrap(), expected.get_timestamp());
        assert_eq!(bs.read_raw_tag_or_eof().unwrap().unwrap(), (2 << 3) | 5);
        let level = bs.read_float().unwrap();
        assert_eq!(level.to_bits(), expected.get_level_bits());
        assert_eq!(bs.read_raw_tag_or_eof().unwrap().unwrap(), 3 << 3);
        assert_eq!(bs.read_bool().unwrap(), expected.get_charging());
        assert!(bs.eof().unwrap());
    }
    assert!(is.eof().unwrap());
}

#[test]
fn protobuf_written_blob_decodes() {
    let samples = [(7u32, 66.25f32, true), (1000u32, 65.0f32, false)];
    let mut blob: Vec<u8> = Vec::new();
    {
        let mut os = CodedOutputStream::vec(&mut blob);
        for &(ts, level, charging) in samples.iter() {
            let mut body: Vec<u8> = Vec::new();
            {
                let mut bs = CodedOutputStream::vec(&mut body);
                bs.write_uint32(1, ts).unwrap();
                bs.write_float(2, level).unwrap();
                bs.write_bool(3, charging).unwrap();
                bs.flush().unwrap();
            }
            os.write_tag(1, protobuf::rt::WireType::LengthDelimited).unwrap();
            os.write_raw_varint32(body.len() as u32).unwrap();
            os.write_raw_bytes(&body).unwrap();
        }
        os.flush().unwrap();
    }
    let decoded = decode(&blob).unwrap();
    let expected: Vec<BatteryState> = samples
        .iter()
        .map(|&(ts, level, charging)| s(ts, level, charging))
        .collect();
    assert_eq!(decoded, expected);
}
