use tracing_stackdriver::{Event, EventFormatter, Field, FieldValue, Level};

fn text(name: &str, value: &str) -> Field {
    Field { name: name.to_string(), value: FieldValue::Str(value.to_string()) }
}

#[test]
fn http_request_nests_http_request() {
    let request_method = "GET";
    let latency = "0.23s";
    let remote_ip = "192.168.1.1";
    let status: u16 = 200;

    let event = Event {
        target: "http_request".to_string(),
        file: None,
        line: None,
        level: Level::Info,
        fields: vec![
            text("http_request.request_method", request_method),
            text("http_request.latency", latency),
            text("http_request.remote_ip", remote_ip),
            Field {
                name: "http_request.status".to_string(),
                value: FieldValue::U64(u64::from(status)),
            },
            Field {
                name: "message".to_string(),
                value: FieldValue::Debug("some stackdriver message".to_string()),
            },
        ],
        spans: vec![],
    };
    let line = EventFormatter::default().format_line(&event, 1_700_000_000_000_000_000).unwrap();
    let output: serde_json::Value =
        serde_json::from_str(&line).expect("Error converting test buffer to JSON");

    let http_request = output["httpRequest"].as_object().expect("No event heard");
    assert_eq!(http_request.len(), 4);
    assert_eq!(http_request["requestMethod"], request_method);
    assert_eq!(http_request["latency"], latency);
    assert_eq!(http_request["remoteIp"], remote_ip);
    assert_eq!(http_request["status"], status);
}
