use prost::encoding::decode_key;
use prost::encoding::float;
use prost::encoding::int32;
use prost::encoding::string as string_field;
use prost::encoding::DecodeContext;
use prost::encoding::WireType;
use wire_envelope::envelope::build_payload;
use wire_envelope::message::RequestMessage;

fn sample_record() -> RequestMessage {
    RequestMessage {
        integer: 42,
        float_bits: 1.23f32.to_bits(),
        string: b"hello from Rust".to_vec(),
        boolean: true,
    }
}

#[test]
fn envelope_total_length() {
    let payload = build_payload(sample_record());
    // 14 header bytes, then 2 + 5 + 17 + 2 bytes of message.
    assert_eq!(payload.len(), 40);
}

#[test]
fn envelope_payload_size_field() {
    let payload = build_payload(sample_record());
    let message_len = payload.len() - 14;
    let payload_size = (4 + 2 + 4 + message_len) as u32;
    assert_eq!(&payload[0..4], &payload_size.to_le_bytes());
}

#[test]
fn envelope_type_tag_field_length() {
    let payload = build_payload(sample_record());
    assert_eq!(&payload[4..6], &[0x02, 0x00]);
    assert_eq!(&payload[6..8], &[0x00, 0x00]);
}

#[test]
fn envelope_type_tag() {
    let payload = build_payload(sample_record());
    assert_eq!(&payload[8..10], &[0x01, 0x00]);
}

#[test]
fn envelope_message_length_field() {
    let payload = build_payload(sample_record());
    let message_len = (payload.len() - 14) as u32;
    assert_eq!(&payload[10..14], &message_len.to_le_bytes());
}

#[test]
fn message_bytes_match_schema_encoder() {
    let payload = build_payload(sample_record());
    let mut expected: Vec<u8> = Vec::new();
    int32::encode(1, &42i32, &mut expected);
    float::encode(2, &1.23f32, &mut expected);
    string_field::encode(3, &String::from("hello from Rust"), &mut expected);
    prost::encoding::bool::encode(4, &true, &mut expected);
    assert_eq!(&payload[14..], &expected[..]);
}

#[test]
fn message_bytes_spelled_out() {
    let payload = build_payload(sample_record());
    let mut expected: Vec<u8> = vec![0x08, 0x2a, 0x15];
    expected.extend_from_slice(&1.23f32.to_le_bytes());
    expected.extend_from_slice(&[0x1a, 0x0f]);
    expected.extend_from_slice(b"hello from Rust");
    expected.extend_from_slice(&[0x20, 0x01]);
    assert_eq!(&payload[14..], &expected[..]);
}

#[test]
fn schema_decoder_round_trip() {
    let payload = build_payload(sample_record());
    let mut body: &[u8] = &payload[14..];

    let (tag, wire_type) = decode_key(&mut body).unwrap();
    assert_eq!(tag, 1);
    assert_eq!(wire_type, WireType::Varint);
    let mut integer: i32 = 0;
    int32::merge(wire_type, &mut integer, &mut body, DecodeContext::default()).unwrap();
    assert_eq!(integer, 42);

    let (tag, wire_type) = decode_key(&mut body).unwrap();
    assert_eq!(tag, 2);
    assert_eq!(wire_type, WireType::ThirtyTwoBit);
    let mut float_value: f32 = 0.0;
    float::merge(wire_type, &mut float_value, &mut body, DecodeContext::default()).unwrap();
    assert_eq!(float_value, 1.23f32);

    let (tag, wire_type) = decode_key(&mut body).unwrap();
    assert_eq!(tag, 3);
    assert_eq!(wire_type, WireType::LengthDelimited);
    let mut text = String::new();
    string_field::merge(wire_type, &mut text, &mut body, DecodeContext::default()).unwrap();
    assert_eq!(text, "hello from Rust");

    let (tag, wire_type) = decode_key(&mut body).unwrap();
    assert_eq!(tag, 4);
    assert_eq!(wire_type, WireType::Varint);
    let mut boolean = false;
    prost::encoding::bool::merge(wire_type, &mut boolean, &mut body, DecodeContext::default())
        .unwrap();
    assert!(boolean);

    assert!(body.is_empty());
}

#[test]
fn default_record_gives_empty_message() {
    let payload = build_payload(RequestMessage {
        integer: 0,
        float_bits: 0,
        string: Vec::new(),
        boolean: false,
    });
    assert_eq!(payload.len(), 14);
    assert_eq!(&payload[0..4], &10u32.to_le_bytes());
    assert_eq!(&payload[10..14], &0u32.to_le_bytes());
}

#[test]
fn negative_integer_matches_schema_encoder() {
    let record = RequestMessage {
        integer: -1,
        float_bits: 0,
        string: Vec::new(),
        boolean: false,
    };
    let payload = build_payload(record);
    let mut expected: Vec<u8> = Vec::new();
    int32::encode(1, &-1i32, &mut expected);
    assert_eq!(&payload[14..], &expected[..]);
}
