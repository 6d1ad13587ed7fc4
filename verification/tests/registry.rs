use cycbox::codec::line::LineEnding;
use cycbox::registry::{CodecSettings, RuntimeCodec, RuntimeRunMode, RuntimeTransformer};

fn no_settings() -> CodecSettings {
    CodecSettings { line_ending: None, receive_timeout_ms: None, slip_push_leading_end: None }
}

#[test]
fn timeout_codec_defaults_to_fifty_ms() {
    let rm = RuntimeRunMode::new();
    match rm.create_codec("timeout_codec", &no_settings()) {
        Some(RuntimeCodec::Timeout(c)) => {
            assert_eq!(c.timeout_ms, 50);
            assert!(c.frame_start.is_none());
        }
        _ => panic!("expected the timeout codec"),
    }
}

#[test]
fn timeout_codec_takes_configured_timeout() {
    let rm = RuntimeRunMode::new();
    let s = CodecSettings { receive_timeout_ms: Some(250), ..no_settings() };
    match rm.create_codec("timeout_codec", &s) {
        Some(RuntimeCodec::Timeout(c)) => assert_eq!(c.timeout_ms, 250),
        _ => panic!("expected the timeout codec"),
    }
}

#[test]
fn line_codec_reads_its_ending() {
    let rm = RuntimeRunMode::new();
    let s = CodecSettings { line_ending: Some("crlf".to_string()), ..no_settings() };
    match rm.create_codec("line_codec", &s) {
        Some(RuntimeCodec::Line(c)) => assert_eq!(c.line_ending, LineEnding::CrLf),
        _ => panic!("expected the line codec"),
    }
    match rm.create_codec("line_codec", &no_settings()) {
        Some(RuntimeCodec::Line(c)) => assert_eq!(c.line_ending, LineEnding::Lf),
        _ => panic!("expected the line codec"),
    }
}

#[test]
fn cobs_slip_and_passthrough_are_offered() {
    let rm = RuntimeRunMode::new();
    match rm.create_codec("cobs_codec", &no_settings()) {
        Some(RuntimeCodec::Cobs(c)) => assert_eq!(c.sentinel, 0),
        _ => panic!("expected the COBS codec"),
    }
    let s = CodecSettings { slip_push_leading_end: Some(false), ..no_settings() };
    match rm.create_codec("slip_codec", &s) {
        Some(RuntimeCodec::Slip(c)) => assert!(!c.push_leading_end),
        _ => panic!("expected the SLIP codec"),
    }
    match rm.create_codec("slip_codec", &no_settings()) {
        Some(RuntimeCodec::Slip(c)) => assert!(c.push_leading_end),
        _ => panic!("expected the SLIP codec"),
    }
    assert!(matches!(rm.create_codec("passthrough_codec", &no_settings()), Some(RuntimeCodec::Passthrough(_))));
}

#[test]
fn unknown_codec_is_unsupported() {
    let rm = RuntimeRunMode::new();
    assert!(rm.create_codec("modbus_codec", &no_settings()).is_none());
    assert!(rm.create_codec("", &no_settings()).is_none());
}

#[test]
fn transformers_by_id_fall_back_to_disable() {
    let rm = RuntimeRunMode::new();
    assert!(matches!(rm.create_transformer("csv_transformer"), RuntimeTransformer::Csv(_)));
    assert!(matches!(rm.create_transformer("json_transformer"), RuntimeTransformer::Json(_)));
    assert!(matches!(rm.create_transformer("disable_transformer"), RuntimeTransformer::Disable(_)));
    assert!(matches!(rm.create_transformer("whatever"), RuntimeTransformer::Disable(_)));
}
