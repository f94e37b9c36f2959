use tracing_stackdriver::{
    Event, EventFormatter, Field, FieldValue, HttpRequest, JsonValue, Level, LogSeverity, Span,
};

const NOW: i128 = 1_700_000_000_123_456_789;

fn message(text: &str) -> Field {
    Field { name: "message".to_string(), value: FieldValue::Debug(text.to_string()) }
}

fn event(target: &str, fields: Vec<Field>, spans: Vec<Span>) -> Event {
    Event {
        target: target.to_string(),
        file: Some("tests/stackdriver.rs".to_string()),
        line: Some(7),
        level: Level::Info,
        fields,
        spans,
    }
}

fn run(event: &Event, timestamp: i128) -> serde_json::Value {
    let line = EventFormatter::default().format_line(event, timestamp).unwrap();
    serde_json::from_str(&line).expect("Error converting test buffer to JSON")
}

fn parse_time(value: &serde_json::Value) -> time::OffsetDateTime {
    time::OffsetDateTime::parse(
        value["time"].as_str().unwrap(),
        &time::format_description::well_known::Rfc3339,
    )
    .unwrap()
}

#[test]
fn mod_includes_span() {
    let span = Span {
        name: "stackdriver_span".to_string(),
        fields: "{\"foo\":\"bar\"}".to_string(),
        field_names: vec!["foo".to_string()],
        trace_context: None,
    };
    let output = run(&event("stackdriver", vec![message("some stackdriver message")], vec![span]), NOW);
    assert_eq!(output["span"]["name"], "stackdriver_span");
    assert_eq!(output["span"]["foo"], "bar");
}

#[test]
fn mod_includes_correct_custom_fields() {
    let start = time::OffsetDateTime::from_unix_timestamp_nanos(NOW - 1).unwrap();
    let output = run(&event("test target", vec![message("some stackdriver message")], vec![]), NOW);
    assert!(parse_time(&output) > start);
    assert_eq!(output["target"], "test target");
    assert_eq!(output["severity"], "INFO");
}

#[test]
fn mod_handles_stringly_severity_override() {
    let fields = vec![
        Field { name: "severity".to_string(), value: FieldValue::Str("notice".to_string()) },
        message("notice me, senpai!"),
    ];
    let output = run(&event("stackdriver", fields, vec![]), NOW);
    assert_eq!(output["severity"], "NOTICE");
}

#[test]
fn mod_handles_enum_severity_override() {
    let fields = vec![
        Field {
            name: "severity".to_string(),
            value: FieldValue::Debug(LogSeverity::Notice.to_string()),
        },
        message("notice me, senpai!"),
    ];
    let output = run(&event("stackdriver", fields, vec![]), NOW);
    assert_eq!(output["severity"], "NOTICE");
}

#[test]
fn mod_handles_valuable_severity_override() {
    let encoded = JsonValue::Object(vec![("Notice".to_string(), JsonValue::Array(vec![]))]);
    let fields = vec![
        Field { name: "severity".to_string(), value: FieldValue::Value(encoded) },
        message("notice me, senpai!"),
    ];
    let output = run(&event("stackdriver", fields, vec![]), NOW);
    assert_eq!(output["severity"], "NOTICE");
}

#[test]
fn mod_includes_correct_timestamps() {
    let span = || Span {
        name: "test span".to_string(),
        fields: "{\"foo\":\"bar\"}".to_string(),
        field_names: vec!["foo".to_string()],
        trace_context: None,
    };
    let first = event("first target", vec![message("some stackdriver message")], vec![span()]);
    let second = event("second target", vec![message("some stackdriver message")], vec![span()]);
    let first_event = run(&first, NOW);
    let second_event = run(&second, NOW + 1);
    assert!(parse_time(&first_event) < parse_time(&second_event));
}

#[test]
fn mod_includes_flattened_fields() {
    let baz = 123;
    let fields = vec![
        Field { name: "baz".to_string(), value: FieldValue::I64(baz) },
        message("some stackdriver message"),
    ];
    let output = run(&event("stackdriver", fields, vec![]), NOW);
    assert_eq!(output["baz"], baz);
    assert_eq!(output["message"], "some stackdriver message");
}

#[test]
fn mod_nests_http_request() {
    let request_method = "GET";
    let latency = "0.23s";
    let remote_ip = "192.168.1.1";
    let status: u16 = 200;
    let text = |name: &str, value: &str| Field {
        name: name.to_string(),
        value: FieldValue::Str(value.to_string()),
    };
    let fields = vec![
        text("http_request.request_method", request_method),
        text("http_request.latency", latency),
        text("http_request.remote_ip", remote_ip),
        Field { name: "http_request.status".to_string(), value: FieldValue::U64(u64::from(status)) },
        message("some stackdriver message"),
    ];
    let output = run(&event("stackdriver", fields, vec![]), NOW);
    let http_request = &output["httpRequest"];
    assert_eq!(http_request["requestMethod"], request_method);
    assert_eq!(http_request["latency"], latency);
    assert_eq!(http_request["remoteIp"], remote_ip);
    assert_eq!(http_request["status"], status);
}

#[test]
fn mod_validates_structured_http_requests() {
    let request_method = "GET";
    let latency = std::time::Duration::from_millis(1234);
    let status: u16 = 200;
    let remote_ip = "127.0.0.1";

    let mut http_request = HttpRequest::new();
    http_request.request_method = Some(request_method.to_string());
    http_request.latency = Some(format!("{}s", latency.as_secs_f32()));
    http_request.status = Some(status);
    http_request.remote_ip = Some(remote_ip.to_string());

    let fields = vec![
        Field { name: "http_request".to_string(), value: FieldValue::Value(http_request.as_value()) },
        message("http_request testing"),
    ];
    let output = run(&event("stackdriver", fields, vec![]), NOW);
    assert_eq!(output["httpRequest"]["requestMethod"], request_method.to_string());
    assert_eq!(output["httpRequest"]["latency"], format!("{}s", latency.as_secs_f32()));
    assert_eq!(output["httpRequest"]["status"], status);
    assert_eq!(output["httpRequest"]["remoteIp"], remote_ip.to_string());
}

#[test]
fn mod_includes_valuable_structures() {
    let structured_log = JsonValue::Object(vec![
        ("foo".to_string(), JsonValue::String("testing".to_string())),
        (
            "bar".to_string(),
            JsonValue::Object(vec![("baz".to_string(), JsonValue::UInt(123))]),
        ),
    ]);
    let fields = vec![
        Field { name: "structured_log".to_string(), value: FieldValue::Value(structured_log) },
        message("another message"),
    ];
    let output = run(&event("stackdriver", fields, vec![]), NOW);
    let found = &output["structuredLog"];
    assert_eq!(found["foo"], "testing");
    assert_eq!(found["bar"].as_object().unwrap().len(), 1);
    assert_eq!(found["bar"]["baz"], 123);
    assert_eq!(found.as_object().unwrap().len(), 2);
}
