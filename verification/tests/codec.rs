use wire_envelope::codec::decode_message;
use wire_envelope::codec::encode_message;
use wire_envelope::message::RequestMessage;
use wire_envelope::wire::decode_varint;
use wire_envelope::wire::encode_varint;

#[test]
fn decoder_round_trip_sample_record() {
    let record = RequestMessage {
        integer: 42,
        float_bits: 1.23f32.to_bits(),
        string: b"hello from Rust".to_vec(),
        boolean: true,
    };
    let bytes = encode_message(&record);
    let back = decode_message(&bytes).expect("well-formed message");
    assert_eq!(back, record);
}

#[test]
fn decoder_round_trip_negative_integer() {
    let record = RequestMessage {
        integer: -123456,
        float_bits: (-2.5f32).to_bits(),
        string: Vec::new(),
        boolean: false,
    };
    let bytes = encode_message(&record);
    let back = decode_message(&bytes).expect("well-formed message");
    assert_eq!(back, record);
}

#[test]
fn decoder_round_trip_extreme_integers() {
    for integer in [i32::MIN, i32::MAX, -1, 1] {
        let record = RequestMessage {
            integer,
            float_bits: 0,
            string: b"x".to_vec(),
            boolean: true,
        };
        let bytes = encode_message(&record);
        let back = decode_message(&bytes).expect("well-formed message");
        assert_eq!(back, record);
    }
}

#[test]
fn empty_message_decodes_to_defaults() {
    let back = decode_message(&[]).expect("empty message is valid");
    assert_eq!(back.integer, 0);
    assert_eq!(back.float_bits, 0);
    assert!(back.string.is_empty());
    assert!(!back.boolean);
}

#[test]
fn truncated_varint_is_rejected() {
    // Field 1 key followed by an unterminated varint.
    assert!(decode_message(&[0x08]).is_none());
    assert!(decode_message(&[0x08, 0x80]).is_none());
}

#[test]
fn truncated_float_is_rejected() {
    // Field 2 key with only three of four value bytes.
    assert!(decode_message(&[0x15, 0x01, 0x02, 0x03]).is_none());
}

#[test]
fn string_length_overrun_is_rejected() {
    // Field 3 claims five bytes but carries one.
    assert!(decode_message(&[0x1a, 0x05, 0x61]).is_none());
}

#[test]
fn trailing_bytes_are_rejected() {
    // A valid boolean field followed by a stray zero byte.
    assert!(decode_message(&[0x20, 0x01, 0x00]).is_none());
}

#[test]
fn varint_encoding_of_small_and_large_values() {
    let mut out: Vec<u8> = Vec::new();
    encode_varint(0, &mut out);
    assert_eq!(out, vec![0x00]);

    let mut out: Vec<u8> = Vec::new();
    encode_varint(300, &mut out);
    assert_eq!(out, vec![0xac, 0x02]);

    let mut out: Vec<u8> = Vec::new();
    encode_varint(u64::MAX, &mut out);
    assert_eq!(
        out,
        vec![0xff, 0xff, 0xff, 0xff, 0xff, 0xff, 0xff, 0xff, 0xff, 0x01]
    );
}

#[test]
fn varint_decoding_inverts_encoding() {
    for value in [0u64, 1, 127, 128, 300, 0xffff_ffff, u64::MAX] {
        let mut bytes: Vec<u8> = Vec::new();
        encode_varint(value, &mut bytes);
        let (decoded, next) = decode_varint(&bytes, 0).expect("valid varint");
        assert_eq!(decoded, value);
        assert_eq!(next, bytes.len());
    }
}
