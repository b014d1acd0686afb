use seribot::frame::encode;
use seribot::frame::encode_bytes;
use seribot::frame::Frame;

fn data(offset: u16, payload: &[u8]) -> Frame {
    Frame::Data { offset, payload: payload.to_vec() }
}

fn pattern(len: usize) -> Vec<u8> {
    (0..len).map(|i| (i % 251) as u8).collect()
}

fn payloads(records: &[Frame]) -> Vec<u8> {
    let mut bytes = Vec::new();
    for record in records {
        if let Frame::Data { payload, .. } = record {
            bytes.extend_from_slice(payload);
        }
    }
    bytes
}

#[test]
fn encode_of_the_empty_string_is_the_terminator_alone() {
    assert_eq!(encode(""), vec![Frame::EndOfFile]);
    assert_eq!(encode_bytes(&[]), vec![Frame::EndOfFile]);
}

#[test]
fn encode_of_a_short_string_is_one_data_record_and_the_terminator() {
    assert_eq!(encode("hi\r\n"), vec![data(0, b"hi\r\n"), Frame::EndOfFile]);
    assert_eq!(encode("x"), vec![data(0, b"x"), Frame::EndOfFile]);
}

#[test]
fn encode_of_255_bytes_is_one_data_record() {
    let bytes = pattern(255);
    assert_eq!(encode_bytes(&bytes), vec![data(0, &bytes), Frame::EndOfFile]);
}

#[test]
fn encode_of_256_bytes_is_two_data_records() {
    let bytes = pattern(256);
    assert_eq!(
        encode_bytes(&bytes),
        vec![data(0, &bytes[..255]), data(255, &bytes[255..]), Frame::EndOfFile]
    );
}

#[test]
fn encode_of_300_bytes_has_no_address_record() {
    let text: String = (0..300).map(|i| (b'a' + (i % 26) as u8) as char).collect();
    let bytes = text.as_bytes();
    assert_eq!(
        encode(&text),
        vec![data(0, &bytes[..255]), data(255, &bytes[255..]), Frame::EndOfFile]
    );
    assert_eq!(bytes[255..].len(), 45);
}

#[test]
fn encode_takes_the_bytes_of_the_text_not_its_characters() {
    let text = "\u{e9}\u{8d8a}";
    assert_eq!(encode(text), vec![data(0, &[0xC3, 0xA9, 0xE8, 0xB6, 0x8A]), Frame::EndOfFile]);
}

#[test]
fn encode_offsets_grow_by_one_chunk_per_data_record() {
    let bytes = pattern(255 * 256);
    let records = encode_bytes(&bytes);
    assert_eq!(records.len(), 257);
    for k in 0..256usize {
        match &records[k] {
            Frame::Data { offset, payload } => {
                assert_eq!(*offset as usize, 255 * k);
                assert_eq!(payload.as_slice(), &bytes[255 * k..255 * (k + 1)]);
            }
            other => panic!("record {} is {:?}", k, other),
        }
    }
    assert_eq!(records[256], Frame::EndOfFile);
}

#[test]
fn encode_begins_a_new_segment_after_256_chunks() {
    let bytes = pattern(255 * 256 + 1);
    let records = encode_bytes(&bytes);
    assert_eq!(records.len(), 259);
    assert_eq!(records[255], data(65025, &bytes[65025..65280]));
    assert_eq!(records[256], Frame::ExtendedAddress(5));
    assert_eq!(records[257], data(0, &bytes[65280..]));
    assert_eq!(records[258], Frame::EndOfFile);
}

#[test]
fn encode_raises_the_address_base_by_five_for_each_segment() {
    let bytes = pattern(255 * 256 * 2 + 300);
    let records = encode_bytes(&bytes);
    assert_eq!(records.len(), 514 + 2 + 1);
    assert_eq!(records[256], Frame::ExtendedAddress(5));
    assert_eq!(records[257], data(0, &bytes[65280..65535]));
    assert_eq!(records[258], data(255, &bytes[65535..65790]));
    assert_eq!(records[513], Frame::ExtendedAddress(10));
    assert_eq!(records[514], data(0, &bytes[130560..130815]));
    assert_eq!(records[515], data(255, &bytes[130815..]));
    assert_eq!(records[516], Frame::EndOfFile);
    let bases: Vec<&Frame> =
        records.iter().filter(|r| matches!(r, Frame::ExtendedAddress(_))).collect();
    assert_eq!(bases.len(), 2);
}

#[test]
fn encode_loses_nothing() {
    for len in [0usize, 1, 254, 255, 256, 509, 510, 511, 65279, 65280, 65281, 70000] {
        let bytes = pattern(len);
        let records = encode_bytes(&bytes);
        assert_eq!(payloads(&records), bytes, "{} bytes", len);
    }
}

#[test]
fn encode_ends_in_its_only_terminator() {
    for len in [0usize, 1, 255, 256, 65280, 65281] {
        let records = encode_bytes(&pattern(len));
        assert_eq!(records.last(), Some(&Frame::EndOfFile));
        assert_eq!(records.iter().filter(|r| **r == Frame::EndOfFile).count(), 1);
    }
}

#[test]
fn encode_fills_every_data_record_but_the_last() {
    let records = encode_bytes(&pattern(1000));
    let sizes: Vec<usize> = records
        .iter()
        .filter_map(|r| match r {
            Frame::Data { payload, .. } => Some(payload.len()),
            _ => None,
        })
        .collect();
    assert_eq!(sizes, vec![255, 255, 255, 235]);
}
