use tracing_stackdriver::event_formatter::{can_read_trace_ids, can_unpack, read_trace_id, unpack};
use tracing_stackdriver::{
    CloudTraceConfiguration, Error, Event, EventFormatter, Field, FieldValue, JsonValue, Level,
    ParentContext, Span, TraceContext, TraceIdVisitor, WriteAdaptor,
};

const NOW: i128 = 1_700_000_000_123_456_789;

fn field(name: &str, value: FieldValue) -> Field {
    Field { name: name.to_string(), value }
}

fn text(name: &str, value: &str) -> Field {
    field(name, FieldValue::Str(value.to_string()))
}

fn message(value: &str) -> Field {
    field("message", FieldValue::Debug(value.to_string()))
}

fn event(level: Level, fields: Vec<Field>, spans: Vec<Span>) -> Event {
    Event {
        target: "entries".to_string(),
        file: Some("src/main.rs".to_string()),
        line: Some(29),
        level,
        fields,
        spans,
    }
}

fn span(name: &str, fields: &str, field_names: &[&str]) -> Span {
    Span {
        name: name.to_string(),
        fields: fields.to_string(),
        field_names: field_names.iter().map(|name| name.to_string()).collect(),
        trace_context: None,
    }
}

fn parse(line: &str) -> serde_json::Value {
    serde_json::from_str(line).expect("the line is no JSON")
}

fn keys(value: &serde_json::Value) -> Vec<String> {
    value.as_object().expect("no object").keys().cloned().collect()
}

#[test]
fn writes_one_line_with_the_members_in_order() {
    let line = EventFormatter::default()
        .format_line(&event(Level::Info, vec![message("hello!")], vec![]), NOW)
        .unwrap();
    assert_eq!(
        line,
        "{\"time\":\"2023-11-14T22:13:20.123456789Z\",\"target\":\"entries\",\
         \"logging.googleapis.com/sourceLocation\":{\"file\":\"src/main.rs\",\"line\":\"29\"},\
         \"severity\":\"INFO\",\"message\":\"hello!\"}\n"
    );
}

#[test]
fn event_outside_any_span_has_no_span_members() {
    let formatter = EventFormatter::default()
        .with_span_list(true)
        .enable_cloud_trace(CloudTraceConfiguration { project_id: "p".to_string() });
    let line = formatter.format_line(&event(Level::Info, vec![message("hello!")], vec![]), NOW).unwrap();
    let output = parse(&line);
    let mut found = keys(&output);
    found.sort();
    assert_eq!(
        found,
        vec!["logging.googleapis.com/sourceLocation", "message", "severity", "target", "time"]
    );
}

#[test]
fn severity_follows_the_level() {
    for (level, expected) in [
        (Level::Trace, "DEBUG"),
        (Level::Debug, "DEBUG"),
        (Level::Info, "INFO"),
        (Level::Warn, "WARNING"),
        (Level::Error, "ERROR"),
    ] {
        let line = EventFormatter::default()
            .format_line(&event(level, vec![message("m")], vec![]), NOW)
            .unwrap();
        assert_eq!(parse(&line)["severity"], expected);
    }
}

#[test]
fn severity_field_overrides_and_does_not_leak() {
    let fields = vec![text("severity", "Notice"), message("m")];
    let line = EventFormatter::default().format_line(&event(Level::Error, fields, vec![]), NOW).unwrap();
    assert_eq!(line.matches("\"severity\"").count(), 1);
    assert_eq!(line.matches("otice").count(), 0);
    assert_eq!(parse(&line)["severity"], "NOTICE");
}

#[test]
fn later_severity_field_wins() {
    let fields = vec![text("severity", "alert"), text("severity", "critical")];
    let line = EventFormatter::default().format_line(&event(Level::Info, fields, vec![]), NOW).unwrap();
    assert_eq!(parse(&line)["severity"], "CRITICAL");
}

#[test]
fn unknown_severity_is_default() {
    let fields = vec![text("severity", "loud")];
    let line = EventFormatter::default().format_line(&event(Level::Info, fields, vec![]), NOW).unwrap();
    assert_eq!(parse(&line)["severity"], "DEFAULT");
    let fields = vec![field("severity", FieldValue::I64(3))];
    let line = EventFormatter::default().format_line(&event(Level::Info, fields, vec![]), NOW).unwrap();
    assert_eq!(parse(&line)["severity"], "DEFAULT");
}

#[test]
fn http_request_fields_are_nested_and_never_top_level() {
    let fields = vec![
        text("http_request.request_method", "GET"),
        field("http_request.status", FieldValue::U64(200)),
    ];
    let line = EventFormatter::default()
        .with_source_location(false)
        .format_line(&event(Level::Info, fields, vec![]), NOW)
        .unwrap();
    assert!(line.contains("\"httpRequest\":{\"requestMethod\":\"GET\",\"status\":200}"));
    let output = parse(&line);
    for key in keys(&output) {
        assert!(!key.starts_with("http_request."));
        assert!(!key.starts_with("httpRequest."));
    }
}

#[test]
fn remainder_keeps_its_dots_as_word_breaks() {
    let fields = vec![text("http_request.cache.lookup_done", "yes"), text("labels.a.b", "c")];
    let line = EventFormatter::default().format_line(&event(Level::Info, fields, vec![]), NOW).unwrap();
    let output = parse(&line);
    assert_eq!(output["httpRequest"]["cacheLookupDone"], "yes");
    assert_eq!(output["logging.googleapis.com/labels"]["aB"], "c");
}

#[test]
fn first_segment_without_remainder_is_a_plain_field() {
    let fields = vec![text("http_request", "whole"), text("labels", "all")];
    let line = EventFormatter::default().format_line(&event(Level::Info, fields, vec![]), NOW).unwrap();
    let output = parse(&line);
    assert_eq!(output["httpRequest"], "whole");
    assert_eq!(output["labels"], "all");
}

#[test]
fn fields_are_written_in_the_order_of_their_keys() {
    let fields = vec![text("zeta", "1"), text("alpha_beta", "2"), text("mid", "3")];
    let line = EventFormatter::default()
        .with_source_location(false)
        .format_line(&event(Level::Info, fields, vec![]), NOW)
        .unwrap();
    assert!(line.ends_with("\"severity\":\"INFO\",\"alphaBeta\":\"2\",\"mid\":\"3\",\"zeta\":\"1\"}\n"));
}

#[test]
fn two_fields_under_one_key_leave_one_member() {
    let fields = vec![text("foo_bar", "first"), text("fooBar", "second"), text("a", "x"), text("a", "y")];
    let line = EventFormatter::default().format_line(&event(Level::Info, fields, vec![]), NOW).unwrap();
    assert_eq!(line.matches("\"fooBar\"").count(), 1);
    assert_eq!(line.matches("\"a\":").count(), 1);
    let output = parse(&line);
    assert_eq!(output["fooBar"], "first");
    assert_eq!(output["a"], "y");
}

#[test]
fn label_values_are_strings() {
    let nested = JsonValue::Object(vec![("k".to_string(), JsonValue::Array(vec![JsonValue::Null]))]);
    let fields = vec![
        field("labels.object", FieldValue::Value(nested)),
        field("labels.big", FieldValue::U64(u64::MAX)),
        field("labels.small", FieldValue::I64(i64::MIN)),
    ];
    let line = EventFormatter::default().format_line(&event(Level::Info, fields, vec![]), NOW).unwrap();
    let labels = &parse(&line)["logging.googleapis.com/labels"];
    assert_eq!(labels["object"], "{\"k\":[null]}");
    assert_eq!(labels["big"], "18446744073709551615");
    assert_eq!(labels["small"], "-9223372036854775808");
}

#[test]
fn span_is_written_with_its_fields_and_its_name_last() {
    let spans = vec![span("stackdriver_span", "{ \"foo\" : \"bar\", \"n\": 1.50 }", &["foo", "n"])];
    let line = EventFormatter::default()
        .with_source_location(false)
        .format_line(&event(Level::Info, vec![], spans), NOW)
        .unwrap();
    assert!(line.contains("\"span\":{\"foo\":\"bar\",\"n\":1.5,\"name\":\"stackdriver_span\"}"));
}

#[test]
fn span_field_called_name_stays_beside_the_span_name() {
    let spans = vec![span("outer", "{\"name\":\"inner\"}", &["name"])];
    let line = EventFormatter::default().format_line(&event(Level::Info, vec![], spans), NOW).unwrap();
    assert!(line.contains("\"span\":{\"name\":\"inner\",\"name\":\"outer\"}"));
    assert_eq!(parse(&line)["span"]["name"], "outer");
}

#[test]
fn span_list_goes_from_root_to_leaf() {
    let spans = vec![span("root", "{}", &[]), span("middle", "{\"a\":1}", &["a"]), span("leaf", "{}", &[])];
    let formatter = EventFormatter::default().with_span_list(true);
    let line = formatter.format_line(&event(Level::Info, vec![], spans), NOW).unwrap();
    let output = parse(&line);
    assert_eq!(output["span"]["name"], "leaf");
    let list = output["spans"].as_array().unwrap();
    let names: Vec<&str> = list.iter().map(|item| item["name"].as_str().unwrap()).collect();
    assert_eq!(names, vec!["root", "middle", "leaf"]);
    assert_eq!(list[1]["a"], 1);
    let without = EventFormatter::default()
        .format_line(&event(Level::Info, vec![], vec![span("root", "{}", &[])]), NOW)
        .unwrap();
    assert!(parse(&without).get("spans").is_none());
}

#[test]
fn malformed_span_fields_are_an_error() {
    for fields in ["", "{", "[1,2]", "\"text\"", "{\"a\":}"] {
        let spans = vec![span("broken", fields, &[])];
        let formatter = EventFormatter::default();
        assert_eq!(
            formatter.format_line(&event(Level::Info, vec![], spans), NOW),
            Err(Error::Serialization)
        );
    }
    let spans = vec![span("broken", "nothing", &[]), span("fine", "{}", &[])];
    assert!(EventFormatter::default().format_line(&event(Level::Info, vec![], spans), NOW).is_ok());
    let spans = vec![span("broken", "nothing", &[]), span("fine", "{}", &[])];
    assert_eq!(
        EventFormatter::default().with_span_list(true).format_line(&event(Level::Info, vec![], spans), NOW),
        Err(Error::Serialization)
    );
}

#[test]
fn error_leaves_the_writer_as_it_was() {
    let mut writer = WriteAdaptor::new("before".to_string());
    let spans = vec![span("broken", "{", &[])];
    let result = EventFormatter::default().format_event(&event(Level::Info, vec![], spans), NOW, &mut writer);
    assert_eq!(result, Err(Error::Serialization));
    assert_eq!(writer.into_inner(), "before");
    let mut writer = WriteAdaptor::new("before".to_string());
    let result = EventFormatter::default().format_event(&event(Level::Info, vec![], vec![]), NOW, &mut writer);
    assert_eq!(result, Ok(()));
    let written = writer.into_inner();
    assert!(written.starts_with("before{\"time\":"));
    assert!(written.ends_with("}"));
}

#[test]
fn time_outside_the_four_digit_years_is_an_error() {
    let first: i128 = -62_167_219_200_000_000_000;
    let end: i128 = 253_402_300_800_000_000_000;
    let hello = event(Level::Info, vec![], vec![]);
    let formatter = EventFormatter::default();
    assert_eq!(formatter.format_line(&hello, first - 1), Err(Error::Time));
    assert_eq!(formatter.format_line(&hello, end), Err(Error::Time));
    assert_eq!(formatter.format_line(&hello, i128::MAX), Err(Error::Time));
    assert_eq!(formatter.format_line(&hello, i128::MIN), Err(Error::Time));
    let line = formatter.format_line(&hello, first).unwrap();
    assert_eq!(parse(&line)["time"], "0000-01-01T00:00:00Z");
    let line = formatter.format_line(&hello, end - 1).unwrap();
    assert_eq!(parse(&line)["time"], "9999-12-31T23:59:59.999999999Z");
    let line = formatter.format_line(&hello, 0).unwrap();
    assert_eq!(parse(&line)["time"], "1970-01-01T00:00:00Z");
}

#[test]
fn time_error_comes_before_span_error() {
    let spans = vec![span("broken", "{", &[])];
    let result = EventFormatter::default().format_line(&event(Level::Info, vec![], spans), i128::MAX);
    assert_eq!(result, Err(Error::Time));
}

#[test]
fn cloud_trace_members_follow_the_trace_context() {
    let formatter = EventFormatter::default()
        .enable_cloud_trace(CloudTraceConfiguration { project_id: "my_project_123".to_string() });
    let mut current = span("root", "{}", &[]);
    current.trace_context = Some(TraceContext {
        span_id: Some(0xb7),
        trace_id: Some(1),
        parent: Some(ParentContext {
            trace_id: 0x0af7_6519_16cd_43dd_8448_eb21_1c80_319c,
            sampled: true,
        }),
    });
    let line = formatter.format_line(&event(Level::Info, vec![], vec![current]), NOW).unwrap();
    let output = parse(&line);
    assert_eq!(output["logging.googleapis.com/spanId"], "00000000000000b7");
    assert_eq!(
        output["logging.googleapis.com/trace"],
        "projects/my_project_123/traces/0af7651916cd43dd8448eb211c80319c"
    );
    assert_eq!(output["logging.googleapis.com/trace_sampled"], true);

    let mut current = span("root", "{}", &[]);
    current.trace_context = Some(TraceContext { span_id: None, trace_id: Some(0xabc), parent: None });
    let line = formatter.format_line(&event(Level::Info, vec![], vec![current]), NOW).unwrap();
    let output = parse(&line);
    assert!(output.get("logging.googleapis.com/spanId").is_none());
    assert_eq!(
        output["logging.googleapis.com/trace"],
        "projects/my_project_123/traces/00000000000000000000000000000abc"
    );
    assert!(output.get("logging.googleapis.com/trace_sampled").is_none());

    let mut current = span("root", "{}", &[]);
    current.trace_context = Some(TraceContext { span_id: Some(u64::MAX), trace_id: None, parent: None });
    let line = formatter.format_line(&event(Level::Info, vec![], vec![current]), NOW).unwrap();
    let output = parse(&line);
    assert_eq!(output["logging.googleapis.com/spanId"], "ffffffffffffffff");
    assert!(output.get("logging.googleapis.com/trace").is_none());
}

#[test]
fn cloud_trace_members_need_the_configuration() {
    let mut current = span("root", "{}", &[]);
    current.trace_context = Some(TraceContext {
        span_id: Some(7),
        trace_id: Some(8),
        parent: Some(ParentContext { trace_id: 9, sampled: true }),
    });
    let line = EventFormatter::default().format_line(&event(Level::Info, vec![], vec![current]), NOW).unwrap();
    let output = parse(&line);
    assert!(output.get("logging.googleapis.com/spanId").is_none());
    assert!(output.get("logging.googleapis.com/trace").is_none());
    assert!(output.get("logging.googleapis.com/trace_sampled").is_none());
}

#[test]
fn trace_id_is_read_from_the_innermost_span_that_declares_it() {
    let spans = vec![
        span("endpoint", "{\"trace_id\":\"25075b50-d745\"}", &["trace_id"]),
        span("business", "{}", &[]),
        span("database", "{\"other\":\"x\"}", &["other"]),
    ];
    let line = EventFormatter::default().format_line(&event(Level::Info, vec![], spans), NOW).unwrap();
    assert_eq!(parse(&line)["traceId"], "25075b50-d745");
    let spans = vec![
        span("outer", "{\"trace_id\":\"one\"}", &["trace_id"]),
        span("inner", "{\"trace_id\":\"two\"}", &["a", "trace_id"]),
    ];
    assert_eq!(read_trace_id(&spans), Some("two".to_string()));
    assert_eq!(read_trace_id(&vec![span("plain", "{\"trace_id\":\"x\"}", &["foo"])]), None);
}

#[test]
fn trace_id_is_cut_out_of_the_second_piece() {
    assert_eq!(unpack("{\"trace_id\":\"abc\"}"), "abc");
    assert_eq!(unpack("no colon at all"), "no colon at all");
    assert_eq!(unpack("a:bcdef:gh"), "cd");
    assert_eq!(unpack("a:123"), "");
    assert_eq!(unpack("{\"trace_id\":\"\u{e9}t\u{e9}\"}"), "\u{e9}t\u{e9}");
    assert_eq!(unpack("k:\"abc\u{e9}"), "abc");
    assert!(can_unpack("{\"trace_id\":\"abc\"}"));
    assert!(can_unpack("plain"));
    assert!(can_unpack("a:123"));
    assert!(!can_unpack("{\"trace_id\":5}"));
    assert!(!can_unpack("a:"));
    assert!(!can_unpack("a:\u{e9}bcd"));
    assert!(!can_unpack("a:bc\u{20ac}d"));
    assert!(can_read_trace_ids(&vec![span("s", "{\"trace_id\":5}", &["other"])]));
    assert!(!can_read_trace_ids(&vec![span("s", "{\"trace_id\":5}", &["trace_id"])]));
}

#[test]
fn trace_id_visitor_keeps_the_last_trace_id() {
    let mut visitor = TraceIdVisitor::new();
    visitor.record_str("other", "{\"other\":\"x\"}");
    visitor.record_debug("trace_id", "ignored");
    visitor.record_str("trace_id", "{\"trace_id\":\"first\"}");
    visitor.record_str("trace_id", "{\"trace_id\":\"second\"}");
    visitor.record_str("foo", "{\"trace_id\":\"third\"}");
    assert_eq!(visitor.into_trace_id(), Some("second".to_string()));
    assert_eq!(TraceIdVisitor::new().into_trace_id(), None);
}

#[test]
fn line_survives_parsing_and_writing_again() {
    let nested = JsonValue::Array(vec![
        JsonValue::Null,
        JsonValue::Bool(true),
        JsonValue::Int(-5),
        JsonValue::Raw("1.25e3".to_string()),
        JsonValue::String("quote \" backslash \\ tab \t bell \u{7} snow \u{2603}".to_string()),
    ]);
    let fields = vec![
        field("weird key \"\n", FieldValue::Value(nested)),
        text("http_request.request_url", "https://example.com/?q=\"x\""),
        text("labels.line", "a\nb"),
        message("done\r\n"),
    ];
    let spans = vec![span("s\"p", "{\"k\":[1,{\"z\":null}]}", &["k"])];
    let line = EventFormatter::default()
        .with_span_list(true)
        .format_line(&event(Level::Warn, fields, spans), NOW)
        .unwrap();
    assert_eq!(line.matches('\n').count(), 1);
    let first = parse(&line);
    let again = serde_json::to_string(&first).unwrap();
    assert_eq!(parse(&again), first);
    assert_eq!(first["message"], "done\r\n");
    assert_eq!(first["httpRequest"]["requestUrl"], "https://example.com/?q=\"x\"");
    assert_eq!(first["span"]["name"], "s\"p");
}

#[test]
fn field_keys_hold_neither_dots_nor_slashes() {
    let names = [
        "a.b/c",
        "logging.googleapis.com/trace",
        "logging.googleapis.com/sourceLocation",
        "x..y//z",
        "../..",
        "\u{e9}t\u{e9}.d\u{e9}j\u{e0}/vu",
        "snake_case_key",
        "kebab-case-key",
        "Title Case Key",
    ];
    let fields = names.iter().map(|name| text(name, "v")).collect();
    let line = EventFormatter::default()
        .with_source_location(false)
        .format_line(&event(Level::Info, fields, vec![]), NOW)
        .unwrap();
    let output = parse(&line);
    for key in keys(&output) {
        assert!(!key.contains('.'), "{key}");
        assert!(!key.contains('/'), "{key}");
    }
    assert_eq!(output["aBC"], "v");
    assert_eq!(output["snakeCaseKey"], "v");
    assert_eq!(output["kebabCaseKey"], "v");
    assert_eq!(output["titleCaseKey"], "v");
    assert_eq!(output["loggingGoogleapisComTrace"], "v");
}
