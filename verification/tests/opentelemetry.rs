use tracing_stackdriver::{
    CloudTraceConfiguration, Event, EventFormatter, Field, FieldValue, Level, ParentContext, Span,
    TraceContext,
};

static PROJECT_ID: &str = "my_project_123";

const PARENT_SPAN_ID: u64 = 0x00f0_67aa_0ba9_02b7;
const TRACE_ID: u128 = 0x0af7_6519_16cd_43dd_8448_eb21_1c80_319c;

fn formatter() -> EventFormatter {
    EventFormatter::default()
        .enable_cloud_trace(CloudTraceConfiguration { project_id: PROJECT_ID.to_owned() })
}

fn span(name: &str, span_id: u64) -> Span {
    Span {
        name: name.to_string(),
        fields: "{}".to_string(),
        field_names: vec![],
        trace_context: Some(TraceContext {
            span_id: Some(span_id),
            trace_id: None,
            parent: Some(ParentContext { trace_id: TRACE_ID, sampled: false }),
        }),
    }
}

fn debug_event(text: &str, spans: Vec<Span>) -> Event {
    Event {
        target: "opentelemetry".to_string(),
        file: Some("tests/opentelemetry.rs".to_string()),
        line: Some(108),
        level: Level::Debug,
        fields: vec![Field { name: "message".to_string(), value: FieldValue::Debug(text.to_string()) }],
        spans,
    }
}

fn run(event: &Event) -> serde_json::Value {
    let line = formatter().format_line(event, 1_700_000_000_000_000_000).unwrap();
    serde_json::from_str(&line).expect("Error converting test buffer to JSON")
}

fn span_id_of(output: &serde_json::Value) -> u64 {
    let hex = output["logging.googleapis.com/spanId"].as_str().expect("no span id");
    assert_eq!(hex.len(), 16);
    u64::from_str_radix(hex, 16).expect("the span id is no hexadecimal number")
}

#[test]
fn includes_correct_cloud_trace_fields() {
    let output = run(&debug_event("test event", vec![span("root", 0x1122_3344_5566_7788)]));

    assert_ne!(span_id_of(&output), PARENT_SPAN_ID, "Span IDs are the same, but should not be");
    assert_eq!(span_id_of(&output), 0x1122_3344_5566_7788);
    assert_eq!(
        output["logging.googleapis.com/trace"],
        format!("projects/{PROJECT_ID}/traces/{:032x}", TRACE_ID),
        "Trace IDs are not compatible",
    );
    assert!(output.get("logging.googleapis.com/trace_sampled").is_none());
}

#[test]
fn handles_nested_spans() {
    let root = 0x0000_0000_0000_00a1;
    let inner = 0xffff_0000_0000_00b2;
    let messages = vec![
        run(&debug_event("top-level test event", vec![span("root", root)])),
        run(&debug_event("inner test event", vec![span("root", root), span("inner", inner)])),
    ];

    let mut messages = messages.iter().peekable();
    while let Some(message) = messages.next() {
        assert_ne!(span_id_of(message), PARENT_SPAN_ID, "Span IDs are the same, but should not be");
        if let Some(next_message) = messages.peek() {
            assert_ne!(
                span_id_of(message),
                span_id_of(next_message),
                "Span IDs between messages are the same, but should not be"
            );
        }
        assert_eq!(
            message["logging.googleapis.com/trace"],
            format!("projects/{PROJECT_ID}/traces/{:032x}", TRACE_ID),
            "Trace IDs are not compatible",
        );
        assert!(message.get("logging.googleapis.com/trace_sampled").is_none());
    }
}
