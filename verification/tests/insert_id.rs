use tracing_stackdriver::{Event, EventFormatter, Field, FieldValue, Level};

fn run(fields: Vec<Field>) -> serde_json::Value {
    let mut fields = fields;
    fields.push(Field { name: "message".to_string(), value: FieldValue::Debug("hello!".to_string()) });
    let event = Event {
        target: "insert_id".to_string(),
        file: Some("tests/insert_id.rs".to_string()),
        line: Some(11),
        level: Level::Info,
        fields,
        spans: vec![],
    };
    let line = EventFormatter::default().format_line(&event, 1_700_000_000_000_000_000).unwrap();
    serde_json::from_str(&line).expect("Error converting test buffer to JSON")
}

#[test]
fn includes_custom_insert_ids() {
    let insert_id = "my-new-event".to_string();
    let event = run(vec![Field {
        name: "insert_id".to_string(),
        value: FieldValue::Str(insert_id.clone()),
    }]);
    let found = event.get("logging.googleapis.com/insertId");
    assert!(found.is_some());
    assert_eq!(found, Some(&serde_json::Value::String(insert_id)));
}

#[test]
fn stringifies_primitive_insert_id_values() {
    let insert_id = 123;
    let event = run(vec![Field { name: "insert_id".to_string(), value: FieldValue::I64(insert_id) }]);
    let found = event.get("logging.googleapis.com/insertId");
    assert!(found.is_some());
    assert_eq!(found, Some(&serde_json::Value::String(insert_id.to_string())));
}

#[test]
fn omits_insert_id_by_default() {
    let event = run(vec![]);
    assert!(event.get("logging.googleapis.com/insertId").is_none());
    assert!(event.get("insertId").is_none());
}
