use tracing_stackdriver::{Event, EventFormatter, Field, FieldValue, Level, LogSeverity, Span};

const NOW: i128 = 1_700_000_000_123_456_789;

fn message(text: &str) -> Field {
    Field { name: "message".to_string(), value: FieldValue::Debug(text.to_string()) }
}

fn info_event(target: &str, fields: Vec<Field>, spans: Vec<Span>) -> Event {
    Event {
        target: target.to_string(),
        file: Some("tests/default.rs".to_string()),
        line: Some(42),
        level: Level::Info,
        fields,
        spans,
    }
}

fn format(event: &Event, timestamp: i128) -> serde_json::Value {
    let line = EventFormatter::default().format_line(event, timestamp).expect("formatting failed");
    assert!(line.ends_with('\n'));
    serde_json::from_str(&line).expect("Error converting test buffer to JSON")
}

fn stackdriver_span() -> Span {
    Span {
        name: "stackdriver_span".to_string(),
        fields: "{\"foo\":\"bar\"}".to_string(),
        field_names: vec!["foo".to_string()],
        trace_context: None,
    }
}

#[test]
fn default_includes_span() {
    let event = info_event(
        "default",
        vec![message("some stackdriver message")],
        vec![stackdriver_span()],
    );
    let output = format(&event, NOW);
    assert_eq!(output["span"]["name"], "stackdriver_span");
    assert_eq!(output["span"]["foo"], "bar");
}

#[test]
fn default_includes_correct_custom_fields() {
    let start = time::OffsetDateTime::from_unix_timestamp_nanos(NOW - 1).unwrap();
    let event = info_event("test target", vec![message("some stackdriver message")], vec![]);
    let output = format(&event, NOW);
    let time = time::OffsetDateTime::parse(
        output["time"].as_str().unwrap(),
        &time::format_description::well_known::Rfc3339,
    )
    .unwrap();
    assert!(time > start);
    assert_eq!(output["target"], "test target");
    assert_eq!(output["severity"], "INFO");
}

#[test]
fn includes_custom_fields_with_dot() {
    let event = info_event(
        "default",
        vec![
            Field { name: "foo.bar".to_string(), value: FieldValue::Str("value".to_string()) },
            message("message"),
        ],
        vec![],
    );
    let output = format(&event, NOW);
    assert_eq!(
        output.get("fooBar"),
        Some(&serde_json::Value::String("value".to_string())),
        "full event: {:?}",
        output
    );
}

#[test]
fn default_handles_stringly_severity_override() {
    let event = info_event(
        "default",
        vec![
            Field { name: "severity".to_string(), value: FieldValue::Str("notice".to_string()) },
            message("notice me, senpai!"),
        ],
        vec![],
    );
    let output = format(&event, NOW);
    assert_eq!(output["severity"], "NOTICE");
}

#[test]
fn default_handles_enum_severity_override() {
    let event = info_event(
        "default",
        vec![
            Field {
                name: "severity".to_string(),
                value: FieldValue::Debug(LogSeverity::Notice.to_string()),
            },
            message("notice me, senpai!"),
        ],
        vec![],
    );
    let output = format(&event, NOW);
    assert_eq!(output["severity"], "NOTICE");
}

#[test]
fn default_includes_correct_timestamps() {
    let span = Span {
        name: "test span".to_string(),
        fields: "{\"foo\":\"bar\"}".to_string(),
        field_names: vec!["foo".to_string()],
        trace_context: None,
    };
    let first = info_event("first target", vec![message("some stackdriver message")], vec![span]);
    let second = info_event("second target", vec![message("some stackdriver message")], vec![]);
    let first_event = format(&first, NOW);
    let second_event = format(&second, NOW + 1_000);
    let parse = |value: &serde_json::Value| {
        time::OffsetDateTime::parse(
            value["time"].as_str().unwrap(),
            &time::format_description::well_known::Rfc3339,
        )
        .unwrap()
    };
    assert!(parse(&first_event) < parse(&second_event));
}

#[test]
fn default_includes_flattened_fields() {
    let baz = 123;
    let event = info_event(
        "default",
        vec![
            Field { name: "baz".to_string(), value: FieldValue::I64(baz) },
            message("some stackdriver message"),
        ],
        vec![],
    );
    let output = format(&event, NOW);
    assert_eq!(output["baz"], baz);
    assert_eq!(output["message"], "some stackdriver message");
}
