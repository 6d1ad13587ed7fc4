use bytes::BytesMut;
use cycbox::codec::cobs::CobsCodec;
use cycbox::codec::line::{LineCodec, LineEnding};
use cycbox::codec::passthrough::PassthroughCodec;
use cycbox::codec::slip::{SlipCodec, END, ESC, ESC_END, ESC_ESC};
use cycbox::codec::timeout::{frame_due, TimeoutCodec};
use cycbox::error::CodecError;
use cycbox::message::{Message, PayloadType};

#[test]
fn test_cobs_encode_decode() {
    type TestCase = (Vec<u8>, Vec<u8>);
    let test_cases: Vec<TestCase> = vec![
        (vec![], vec![0x01, 0x00]),
        (vec![0x00], vec![0x01, 0x01, 0x00]),
        (vec![0x00, 0x00], vec![0x01, 0x01, 0x01, 0x00]),
        (vec![0x00, 0x11, 0x00], vec![0x01, 0x02, 0x11, 0x01, 0x00]),
        (vec![0x11, 0x22, 0x00, 0x33], vec![0x03, 0x11, 0x22, 0x02, 0x33, 0x00]),
        (vec![0x11, 0x22, 0x33, 0x44], vec![0x05, 0x11, 0x22, 0x33, 0x44, 0x00]),
    ];
    for (input, expected_encoded) in test_cases {
        let codec = CobsCodec::default();
        let encoded = codec.encode_cobs(&input);
        assert_eq!(encoded, expected_encoded, "Encoding failed for input: {:?}", input);
        let encoded_without_delimiter = &encoded[..encoded.len() - 1];
        let decoded = codec.decode_cobs(encoded_without_delimiter).expect("Decoding failed");
        assert_eq!(decoded, input, "Decoded output does not match original input");
    }
}

#[test]
fn test_cobs_codec_with_leading_sentinel() {
    let mut codec = CobsCodec::default();
    let mut buffer = BytesMut::new();
    let payload = vec![0x11, 0x22, 0x33];
    let encoded = codec.encode_cobs(&payload);
    buffer.extend_from_slice(&[0x00, 0x00]);
    buffer.extend_from_slice(&encoded);

    let result1 = codec.decode(&mut buffer).expect("Decode should succeed");
    assert!(result1.is_none(), "First leading sentinel should be skipped");
    let result2 = codec.decode(&mut buffer).expect("Decode should succeed");
    assert!(result2.is_none(), "Second leading sentinel should be skipped");
    let result3 = codec.decode(&mut buffer).expect("Decode should succeed");
    assert!(result3.is_some(), "Should decode actual data");
    let msg = result3.unwrap();
    assert_eq!(msg.payload, payload, "Payload should match original");
    assert_eq!(buffer.len(), 0);
}

#[test]
fn test_cobs_codec_without_leading_sentinel() {
    let mut codec = CobsCodec::default();
    let mut buffer = BytesMut::new();
    let payload = vec![0x11, 0x22, 0x33];
    let encoded = codec.encode_cobs(&payload);
    buffer.extend_from_slice(&encoded);
    let result = codec.decode(&mut buffer).expect("Decode should succeed");
    assert!(result.is_some(), "Should decode data");
    let msg = result.unwrap();
    assert_eq!(msg.payload, payload);
}

#[test]
fn cobs_long_run_splits_blocks() {
    let codec = CobsCodec::default();
    let input: Vec<u8> = (1..=254u8).collect();
    let encoded = codec.encode_cobs(&input);
    assert_eq!(encoded[0], 0xFF);
    assert_eq!(encoded.len(), 254 + 3);
    let decoded = codec.decode_cobs(&encoded[..encoded.len() - 1]).unwrap();
    assert_eq!(decoded, input);
}

#[test]
fn cobs_decode_errors() {
    let codec = CobsCodec::default();
    assert_eq!(codec.decode_cobs(&[0x02, 0x11, 0x00]), Err(CodecError::CobsZeroCode));
    assert_eq!(codec.decode_cobs(&[0x05, 0x11]), Ok(vec![0x11]));
}

#[test]
fn cobs_encode_sets_frame() {
    let mut codec = CobsCodec::default();
    let mut msg = Message::tx(0, PayloadType::Binary, vec![0x11, 0x00], Vec::new(), 0);
    codec.encode(&mut msg);
    assert_eq!(msg.frame, vec![0x02, 0x11, 0x01, 0x00]);
}

#[test]
fn test_line_ending_from_str() {
    assert_eq!(LineEnding::new_from_str("lf"), LineEnding::Lf);
    assert_eq!(LineEnding::new_from_str("crlf"), LineEnding::CrLf);
    assert_eq!(LineEnding::new_from_str("invalid"), LineEnding::Lf);
    assert_eq!(LineEnding::new_from_str(""), LineEnding::Lf);
}

#[test]
fn line_codec_round_trip() {
    let mut codec = LineCodec::new(LineEnding::CrLf);
    let mut msg = Message::tx(0, PayloadType::Text, b"AT+OK".to_vec(), Vec::new(), 0);
    codec.encode(&mut msg);
    assert_eq!(msg.frame, b"AT+OK\r\n".to_vec());
    let mut buf = BytesMut::from(&msg.frame[..]);
    buf.extend_from_slice(b"next");
    let got = codec.decode(&mut buf).unwrap().expect("line");
    assert_eq!(got.payload, b"AT+OK".to_vec());
    assert_eq!(got.frame, b"AT+OK\r\n".to_vec());
    assert_eq!(&buf[..], b"next");
    assert!(codec.decode(&mut buf).unwrap().is_none());
}

#[test]
fn line_codec_keeps_existing_terminator() {
    let mut codec = LineCodec::default_codec();
    let mut msg = Message::tx(0, PayloadType::Text, b"hi\n".to_vec(), Vec::new(), 0);
    codec.encode(&mut msg);
    assert_eq!(msg.frame, b"hi\n".to_vec());
}

#[test]
fn test_passthrough_codec_new() {
    let _codec = PassthroughCodec::new();
}

#[test]
fn test_passthrough_codec_default() {
    let _codec = PassthroughCodec::default();
}

#[test]
fn test_decode_timeout_same_as_decode() {
    let mut codec = PassthroughCodec::default();
    let mut src = BytesMut::from(&b"timeout data"[..]);
    let result = codec.decode_timeout(&mut src);
    assert!(result.is_some());
    let msg = result.unwrap();
    assert_eq!(msg.payload, b"timeout data");
    assert_eq!(src.len(), 0);
}

#[test]
fn test_slip_encode_decode() {
    type TestCase = (Vec<u8>, Vec<u8>);
    let test_cases: Vec<TestCase> = vec![
        (vec![], vec![]),
        (vec![0x11, 0x22, 0x33], vec![0x11, 0x22, 0x33]),
        (vec![0x11, END, 0x22], vec![0x11, ESC, ESC_END, 0x22]),
        (vec![0x11, ESC, 0x22], vec![0x11, ESC, ESC_ESC, 0x22]),
        (vec![END, 0x11, ESC, 0x22, END], vec![ESC, ESC_END, 0x11, ESC, ESC_ESC, 0x22, ESC, ESC_END]),
        (vec![END, END, ESC, ESC], vec![ESC, ESC_END, ESC, ESC_END, ESC, ESC_ESC, ESC, ESC_ESC]),
    ];
    for (input, expected_middle) in test_cases {
        let codec = SlipCodec::default();
        let encoded = codec.encode_slip(&input);
        assert_eq!(encoded[0], END, "First byte should be END");
        assert_eq!(encoded[encoded.len() - 1], END, "Last byte should be END");
        let middle = &encoded[1..encoded.len() - 1];
        assert_eq!(middle, expected_middle.as_slice(), "Encoding failed for input: {:?}", input);
        let decoded = codec.decode_slip(middle).expect("Decoding failed");
        assert_eq!(decoded, input, "Decoded output does not match original input");
    }
}

#[test]
fn test_slip_decode_errors() {
    let codec = SlipCodec::default();
    let result = codec.decode_slip(&[0x11, ESC]);
    assert!(result.is_err());
    let result = codec.decode_slip(&[0x11, ESC, 0x99]);
    assert!(result.is_err());
    let result = codec.decode_slip(&[0x11, END, 0x22]);
    assert!(result.is_err());
}

#[test]
fn test_slip_codec_decode() {
    let mut codec = SlipCodec::default();
    let mut buffer = BytesMut::new();
    buffer.extend_from_slice(&[END, 0x11, 0x22, 0x33, END]);
    let result1 = codec.decode(&mut buffer).expect("Decode should succeed");
    assert!(result1.is_none());
    let result2 = codec.decode(&mut buffer).expect("Decode should succeed");
    assert!(result2.is_some());
    let msg = result2.unwrap();
    assert_eq!(msg.payload, vec![0x11, 0x22, 0x33]);
    assert_eq!(buffer.len(), 0);
}

#[test]
fn test_slip_codec_empty_frames() {
    let mut codec = SlipCodec::default();
    let mut buffer = BytesMut::new();
    buffer.extend_from_slice(&[END, END, 0x11, 0x22, END]);
    let result1 = codec.decode(&mut buffer).expect("Decode should succeed");
    assert!(result1.is_none());
    let result2 = codec.decode(&mut buffer).expect("Decode should succeed");
    assert!(result2.is_none());
    let result3 = codec.decode(&mut buffer).expect("Decode should succeed");
    assert!(result3.is_some());
    let msg = result3.unwrap();
    assert_eq!(msg.payload, vec![0x11, 0x22]);
}

#[test]
fn test_slip_encoder_adds_end_bytes() {
    let codec = SlipCodec::default();
    let payload = vec![0x11, 0x22, 0x33];
    let encoded = codec.encode_slip(&payload);
    assert_eq!(encoded[0], END, "First byte should be END");
    assert_eq!(encoded[encoded.len() - 1], END, "Last byte should be END");
    let middle = &encoded[1..encoded.len() - 1];
    assert_eq!(middle, payload.as_slice(), "Middle should be payload");
}

#[test]
fn test_slip_push_leading_end_config() {
    let codec_with_leading = SlipCodec { push_leading_end: true };
    let payload = vec![0x11, 0x22, 0x33];
    let encoded_with = codec_with_leading.encode_slip(&payload);
    assert_eq!(encoded_with[0], END, "Should have leading END when enabled");
    assert_eq!(encoded_with[encoded_with.len() - 1], END, "Should have trailing END");
    assert_eq!(encoded_with.len(), payload.len() + 2, "Should have 2 END bytes");

    let codec_without_leading = SlipCodec { push_leading_end: false };
    let encoded_without = codec_without_leading.encode_slip(&payload);
    assert_eq!(encoded_without[0], payload[0], "First byte should be payload data");
    assert_eq!(encoded_without[encoded_without.len() - 1], END, "Should have trailing END");
    assert_eq!(encoded_without.len(), payload.len() + 1, "Should have only 1 END byte");
    assert_eq!(&encoded_without[..encoded_without.len() - 1], payload.as_slice());
}

#[test]
fn test_slip_codec_with_user_added_end_bytes() {
    let mut codec = SlipCodec::default();
    let mut buffer = BytesMut::new();
    let payload = vec![0x11, 0x22, 0x33];
    let encoded = codec.encode_slip(&payload);
    buffer.extend_from_slice(&[END]);
    buffer.extend_from_slice(&encoded);
    buffer.extend_from_slice(&[END]);

    let r1 = codec.decode(&mut buffer).unwrap();
    assert!(r1.is_none(), "Extra leading END creates empty frame");
    let r2 = codec.decode(&mut buffer).unwrap();
    assert!(r2.is_none(), "Encoder's leading END creates empty frame");
    let r3 = codec.decode(&mut buffer).unwrap();
    assert!(r3.is_some(), "Should decode actual data");
    assert_eq!(r3.unwrap().payload, payload);
    let r4 = codec.decode(&mut buffer).unwrap();
    assert!(r4.is_none(), "Extra trailing END creates empty frame");
    assert_eq!(buffer.len(), 0);
}

#[test]
fn slip_decode_error_variants() {
    let codec = SlipCodec::default();
    assert_eq!(codec.decode_slip(&[0x11, ESC]), Err(CodecError::SlipEscapeAtEnd));
    assert_eq!(codec.decode_slip(&[0x11, ESC, 0x99]), Err(CodecError::SlipBadEscape(0x99)));
    assert_eq!(codec.decode_slip(&[0x11, END, 0x22]), Err(CodecError::SlipUnescapedEnd));
}

#[test]
fn timeout_frame_due_after_timeout() {
    assert!(!frame_due(19, 20));
    assert!(frame_due(20, 20));
    let mut codec = TimeoutCodec::new(20);
    let mut buf = BytesMut::new();
    assert!(codec.decode(&mut buf).is_none());
}

#[test]
fn timeout_step_emits_once_due() {
    let mut codec = TimeoutCodec::new(20);
    let mut buf = BytesMut::from(&b"abc"[..]);
    assert!(codec.decode_elapsed(&mut buf, 5).is_none());
    assert_eq!(&buf[..], b"abc");
    let m = codec.decode_elapsed(&mut buf, 20).unwrap();
    assert_eq!(m.payload, b"abc".to_vec());
    assert_eq!(m.frame, b"abc".to_vec());
    assert!(buf.is_empty());
    assert!(codec.frame_start.is_none());
    assert!(codec.decode_elapsed(&mut buf, 100).is_none());
}

#[test]
fn zero_timeout_emits_at_once() {
    let mut codec = TimeoutCodec::new(0);
    let mut buf = BytesMut::from(&b"xy"[..]);
    let m = codec.decode(&mut buf).unwrap();
    assert_eq!(m.payload, b"xy".to_vec());
    assert!(buf.is_empty());
}

#[test]
fn fresh_frame_waits_for_its_timeout() {
    let mut codec = TimeoutCodec::new(60_000);
    let mut buf = BytesMut::from(&b"xy"[..]);
    assert!(codec.decode(&mut buf).is_none());
    assert!(codec.frame_start.is_some());
    assert_eq!(&buf[..], b"xy");
}
