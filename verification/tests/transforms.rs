use cycbox::message::{Message, PayloadType, Value, ValueType};
use cycbox::transform::csv::{csv_line, csv_values, parse_i64, CsvTransformer};
use cycbox::transform::disable::DisableTransformer;
use cycbox::transform::json::{flatten, json_values, JsonNumber, JsonTransformer, JsonValue};
use cycbox::error::TransformError;

fn floats_of(tokens: &Vec<Vec<char>>) -> Vec<Option<u64>> {
    tokens
        .iter()
        .map(|t| t.iter().collect::<String>().parse::<f64>().ok().map(|f| f.to_bits()))
        .collect()
}

#[test]
fn csv_line_typed_values() {
    let tokens = csv_line(b"  12, -3.5\ttrue,,hello FALSE\r\n").unwrap();
    let words: Vec<String> = tokens.iter().map(|t| t.iter().collect()).collect();
    assert_eq!(words, vec!["12", "-3.5", "true", "hello", "FALSE"]);
    let values = csv_values(9, &tokens, &floats_of(&tokens));
    assert_eq!(values[0].id, "csv_0");
    assert_eq!(values[0].value_type, ValueType::Int64);
    assert_eq!(values[0].value_payload, 12i64.to_le_bytes().to_vec());
    assert_eq!(values[1].value_type, ValueType::Float64);
    assert_eq!(values[1].value_payload, (-3.5f64).to_le_bytes().to_vec());
    assert_eq!(values[2].value_payload, vec![1]);
    assert_eq!(values[3].value_type, ValueType::String);
    assert_eq!(values[3].value_payload, b"hello".to_vec());
    assert_eq!(values[4].value_type, ValueType::Boolean);
    assert_eq!(values[4].value_payload, vec![0]);
    assert_eq!(values[4].timestamp, 9);
    assert_eq!(csv_line(&[0xFF]), Err(TransformError::InvalidUtf8));
}

#[test]
fn csv_integer_parsing() {
    let p = |s: &str| parse_i64(&s.chars().collect::<Vec<char>>());
    assert_eq!(p("42"), Some(42));
    assert_eq!(p("+7"), Some(7));
    assert_eq!(p("-9223372036854775808"), Some(i64::MIN));
    assert_eq!(p("9223372036854775807"), Some(i64::MAX));
    assert_eq!(p("9223372036854775808"), None);
    assert_eq!(p("-"), None);
    assert_eq!(p("1e3"), None);
    assert_eq!(p(""), None);
}

#[test]
fn csv_transformer_appends() {
    let t = CsvTransformer::new();
    let mut m = Message::rx(PayloadType::Text, b"1 2".to_vec(), Vec::new(), 5);
    let tokens = csv_line(&m.payload.clone()).unwrap();
    t.append_values(&mut m, &tokens, &floats_of(&tokens));
    assert_eq!(m.values.len(), 2);
    assert_eq!(m.values[1].id, "csv_1");
}

fn obj(entries: Vec<(&str, JsonValue)>) -> JsonValue {
    JsonValue::Object(entries.into_iter().map(|(k, v)| (k.to_string(), v)).collect())
}

#[test]
fn json_flatten_sorted_paths() {
    let doc = obj(vec![
        ("a", obj(vec![("x", JsonValue::Number(JsonNumber::I64(1))), ("y", JsonValue::Array(vec![JsonValue::Bool(true), JsonValue::Null]))])),
        ("b", JsonValue::Str("s".to_string())),
        ("e", obj(vec![])),
    ]);
    let flat = flatten(&doc);
    let keys: Vec<&str> = flat.entries.iter().map(|(k, _)| k.as_str()).collect();
    assert_eq!(keys, vec!["a.x", "a.y.0", "a.y.1", "b"]);
    let values = json_values(3, &flat, &Some("dev.1".to_string()));
    let ids: Vec<&str> = values.iter().map(|v| v.id.as_str()).collect();
    assert_eq!(ids, vec!["dev.1.a.x", "dev.1.a.y.0", "dev.1.b"]);
    assert_eq!(values[1].value_payload, vec![1]);
    assert_eq!(values[2].value_payload, b"s".to_vec());
}

#[test]
fn json_later_duplicate_key_wins() {
    let doc = obj(vec![
        ("a", obj(vec![("b", JsonValue::Number(JsonNumber::U64(u64::MAX)))])),
        ("a.b", JsonValue::Number(JsonNumber::I64(-1))),
    ]);
    let values = json_values(0, &flatten(&doc), &None);
    assert_eq!(values.len(), 1);
    assert_eq!(values[0].value_type, ValueType::Int64);
}

#[test]
fn json_transformer_steps() {
    let t = JsonTransformer::new();
    assert_eq!(t.json_text(b"  [1]"), Err(TransformError::NotJsonObject));
    assert_eq!(t.json_text(b" {\"a\":1} ").unwrap(), "{\"a\":1}");
    let mut m = Message::rx(PayloadType::Text, Vec::new(), Vec::new(), 2);
    m.metadata.push(Value { id: "mqtt_topic".to_string(), timestamp: 0, value_type: ValueType::String, value_payload: b"home/room".to_vec() });
    assert_eq!(t.append_parsed(&mut m, None), Err(TransformError::JsonSyntax));
    let doc = obj(vec![("t", JsonValue::Number(JsonNumber::F64(1.5f64.to_bits())))]);
    t.append_parsed(&mut m, Some(&doc)).unwrap();
    assert_eq!(m.values[0].id, "home.room.t");
    assert_eq!(m.values[0].value_payload, 1.5f64.to_le_bytes().to_vec());
}

#[test]
fn disable_transformer_keeps_message() {
    let t = DisableTransformer::new();
    let mut m = Message::rx(PayloadType::Text, b"x".to_vec(), Vec::new(), 1);
    assert_eq!(t.on_receive(&mut m), Ok(()));
    assert_eq!(m.payload, b"x".to_vec());
}

#[test]
fn json_transformer_parses_and_flattens_payload() {
    let t = JsonTransformer::new();
    let mut m = Message::rx(PayloadType::Binary, b"  {\"b\": {\"x\": 1, \"y\": [true, \"s\"]}, \"a\": -2.5} ".to_vec(), Vec::new(), 7);
    t.on_receive(&mut m).unwrap();
    let ids: Vec<&str> = m.values.iter().map(|v| v.id.as_str()).collect();
    assert_eq!(ids, vec!["a", "b.x", "b.y.0", "b.y.1"]);
    assert_eq!(m.values[0].value_type, ValueType::Float64);
    assert_eq!(m.values[0].value_payload, (-2.5f64).to_le_bytes().to_vec());
    assert_eq!(m.values[1].value_type, ValueType::Int64);
    assert_eq!(m.values[2].value_type, ValueType::Boolean);
    assert_eq!(m.values[3].value_type, ValueType::String);
    assert!(m.values.iter().all(|v| v.timestamp == 7));
}

#[test]
fn json_transformer_reports_errors() {
    let t = JsonTransformer::new();
    let mut m = Message::rx(PayloadType::Binary, b"[1, 2]".to_vec(), Vec::new(), 0);
    assert_eq!(t.on_receive(&mut m), Err(TransformError::NotJsonObject));
    let mut m = Message::rx(PayloadType::Binary, b"{\"a\": ".to_vec(), Vec::new(), 0);
    assert_eq!(t.on_receive(&mut m), Err(TransformError::JsonSyntax));
    assert!(m.values.is_empty());
    let mut m = Message::rx(PayloadType::Binary, vec![0xFF], Vec::new(), 0);
    assert_eq!(t.on_receive(&mut m), Err(TransformError::InvalidUtf8));
}
