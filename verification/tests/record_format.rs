//! The single-line JSON rendering, held against an independent encoder and
//! against fixed expected lines.

use service::level::Level;
use service::record::{
    target_matches, CustomTracingLayer, EventFields, FieldValue, LogRecord,
};

fn record_with(fields: EventFields) -> LogRecord {
    LogRecord {
        timestamp_secs: 0,
        timestamp_nanos: 0,
        level: Level::Info,
        target: "service".to_string(),
        name: "event src/main.rs:86".to_string(),
        fields,
    }
}

#[test]
fn plain_record_renders_one_line() {
    let mut fields = EventFields::new();
    fields.record("message".to_string(), FieldValue::Text("Main entry point...".to_string()));
    let line = CustomTracingLayer.on_event(&record_with(fields));
    assert_eq!(
        line,
        "{\"fields\":{\"message\":\"Main entry point...\"},\"level\":\"INFO\",\
         \"name\":\"event src/main.rs:86\",\"target\":\"service\",\
         \"timestamp\":\"1970-01-01T00:00:00Z\"}"
    );
}

#[test]
fn rendering_matches_reference_encoder() {
    let mut fields = EventFields::new();
    fields.record("zeta".to_string(), FieldValue::UInt(7));
    fields.record("alpha".to_string(), FieldValue::Int(-42));
    fields.record("quote\"back\\slash".to_string(), FieldValue::Text("line\nbreak\ttab".to_string()));
    fields.record("flag".to_string(), FieldValue::Bool(true));
    fields.record("odd\u{1}ctl".to_string(), FieldValue::Text("\u{1f}and\u{7f}".to_string()));
    let rec = record_with(fields);
    let line = CustomTracingLayer.on_event(&rec);

    // the same record through serde_json and chrono directly
    let mut m = serde_json::Map::new();
    m.insert("zeta".to_string(), serde_json::Value::Number(serde_json::Number::from(7u64)));
    m.insert("alpha".to_string(), serde_json::Value::Number(serde_json::Number::from(-42i64)));
    m.insert(
        "quote\"back\\slash".to_string(),
        serde_json::Value::String("line\nbreak\ttab".to_string()),
    );
    m.insert("flag".to_string(), serde_json::Value::Bool(true));
    m.insert("odd\u{1}ctl".to_string(), serde_json::Value::String("\u{1f}and\u{7f}".to_string()));
    let dt: chrono::DateTime<chrono::Utc> = chrono::DateTime::from_timestamp(0, 0).unwrap();
    let mut top = serde_json::Map::new();
    top.insert("timestamp".to_string(), serde_json::Value::String(format!("{dt:?}")));
    top.insert("level".to_string(), serde_json::Value::String("INFO".to_string()));
    top.insert("target".to_string(), serde_json::Value::String("service".to_string()));
    top.insert("name".to_string(), serde_json::Value::String("event src/main.rs:86".to_string()));
    top.insert("fields".to_string(), serde_json::Value::Object(m));
    let expected = serde_json::to_string(&serde_json::Value::Object(top)).unwrap();

    assert_eq!(line, expected);
}

#[test]
fn timestamp_carries_nanosecond_precision() {
    let fields = EventFields::new();
    let mut rec = record_with(fields);
    rec.timestamp_secs = 1674851330;
    rec.timestamp_nanos = 4726747;
    let line = CustomTracingLayer.on_event(&rec);
    assert!(line.contains("\"timestamp\":\"2023-01-27T20:28:50.004726747Z\""));
}

#[test]
fn fields_sort_by_key_and_replace_on_equal_keys() {
    let mut fields = EventFields::new();
    fields.record("b".to_string(), FieldValue::UInt(2));
    fields.record("a".to_string(), FieldValue::UInt(1));
    fields.record("c".to_string(), FieldValue::UInt(3));
    fields.record("b".to_string(), FieldValue::UInt(9));
    let keys: Vec<String> = fields.entries.iter().map(|e| e.0.clone()).collect();
    assert_eq!(keys, vec!["a".to_string(), "b".to_string(), "c".to_string()]);
    assert!(matches!(fields.entries[1].1, FieldValue::UInt(9)));
}

#[test]
fn error_and_debug_fields_render_as_text() {
    let mut fields = EventFields::new();
    fields.record("error".to_string(), FieldValue::ErrorText("boom".to_string()));
    fields.record("extra".to_string(), FieldValue::DebugText("Thing { x: 1 }".to_string()));
    let line = CustomTracingLayer.on_event(&record_with(fields));
    assert!(line.contains("\"error\":\"boom\""));
    assert!(line.contains("\"extra\":\"Thing { x: 1 }\""));
}

#[test]
fn signed_numbers_render_at_the_extremes() {
    let mut fields = EventFields::new();
    fields.record("min".to_string(), FieldValue::Int(i64::MIN));
    fields.record("max".to_string(), FieldValue::UInt(u64::MAX));
    fields.record("zero".to_string(), FieldValue::Int(0));
    let line = CustomTracingLayer.on_event(&record_with(fields));
    assert!(line.contains("\"min\":-9223372036854775808"));
    assert!(line.contains("\"max\":18446744073709551615"));
    assert!(line.contains("\"zero\":0"));
}

#[test]
fn only_the_service_namespace_passes() {
    assert!(target_matches("service"));
    assert!(!target_matches("hyper"));
    assert!(!target_matches("service2"));
    assert!(!target_matches(""));
}

#[test]
fn empty_fields_render_an_empty_object() {
    let line = CustomTracingLayer.on_event(&record_with(EventFields::new()));
    assert!(line.starts_with("{\"fields\":{},\"level\":\"INFO\""));
}

#[test]
fn text_beyond_ascii_passes_through_unescaped() {
    let mut fields = EventFields::new();
    fields.record("msg".to_string(), FieldValue::Text("h\u{e9}llo \u{2603}".to_string()));
    let line = CustomTracingLayer.on_event(&record_with(fields));
    assert!(line.contains("\"msg\":\"h\u{e9}llo \u{2603}\""));
}
