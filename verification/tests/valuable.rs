use tracing_stackdriver::{
    Event, EventFormatter, Field, FieldValue, HttpRequest, JsonValue, Level,
};

fn run(name: &str, value: JsonValue, message: &str) -> serde_json::Value {
    let event = Event {
        target: "valuable".to_string(),
        file: Some("tests/valuable.rs".to_string()),
        line: Some(16),
        level: Level::Info,
        fields: vec![
            Field { name: name.to_string(), value: FieldValue::Value(value) },
            Field { name: "message".to_string(), value: FieldValue::Debug(message.to_string()) },
        ],
        spans: vec![],
    };
    let line = EventFormatter::default().format_line(&event, 1_700_000_000_000_000_000).unwrap();
    serde_json::from_str(&line).expect("Error converting test buffer to JSON")
}

#[test]
fn valuable_handles_valuable_severity_override() {
    let encoded = JsonValue::Object(vec![("Notice".to_string(), JsonValue::Array(vec![]))]);
    let event = run("severity", encoded, "notice me, senpai!");
    assert_eq!(event["severity"], "NOTICE");
}

#[test]
fn valuable_validates_structured_http_requests() {
    let request_method = "GET";
    let latency = std::time::Duration::from_millis(1234);
    let status: u16 = 200;
    let remote_ip = "127.0.0.1";

    let http_request = HttpRequest {
        request_method: Some(request_method.to_string()),
        latency: Some(format!("{}s", latency.as_secs_f32())),
        status: Some(status),
        remote_ip: Some(remote_ip.to_string()),
        ..Default::default()
    };

    let event = run("http_request", http_request.as_value(), "http_request testing");
    assert_eq!(event["httpRequest"]["requestMethod"], request_method.to_string());
    assert_eq!(event["httpRequest"]["latency"], format!("{}s", latency.as_secs_f32()));
    assert_eq!(event["httpRequest"]["status"], status);
    assert_eq!(event["httpRequest"]["remoteIp"], remote_ip.to_string());
}

#[test]
fn valuable_includes_valuable_structures() {
    let structured_log = JsonValue::Object(vec![
        ("foo".to_string(), JsonValue::String("testing".to_string())),
        (
            "bar".to_string(),
            JsonValue::Object(vec![("baz".to_string(), JsonValue::UInt(123))]),
        ),
    ]);
    let event = run("structured_log", structured_log, "another message");
    let expected: serde_json::Value =
        serde_json::from_str("{\"foo\":\"testing\",\"bar\":{\"baz\":123}}").unwrap();
    assert_eq!(event["structuredLog"], expected);
}
