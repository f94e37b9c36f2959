use std::collections::BTreeMap;
use tracing_stackdriver::{Event, EventFormatter, Field, FieldValue, Level};

fn run(fields: Vec<Field>) -> serde_json::Value {
    let mut fields = fields;
    fields.push(Field { name: "message".to_string(), value: FieldValue::Debug("hello!".to_string()) });
    let event = Event {
        target: "labels".to_string(),
        file: Some("tests/labels.rs".to_string()),
        line: Some(15),
        level: Level::Info,
        fields,
        spans: vec![],
    };
    let line = EventFormatter::default().format_line(&event, 1_700_000_000_000_000_000).unwrap();
    serde_json::from_str(&line).expect("Error converting test buffer to JSON")
}

fn labels_of(event: &serde_json::Value) -> BTreeMap<String, String> {
    match event.get("logging.googleapis.com/labels") {
        Some(labels) => labels
            .as_object()
            .expect("labels are no object")
            .iter()
            .map(|(key, value)| (key.clone(), value.as_str().expect("label is no string").to_string()))
            .collect(),
        None => BTreeMap::new(),
    }
}

#[test]
fn nests_labels() {
    let mut labels = BTreeMap::new();
    labels.insert("foo", "bar".to_string());
    labels.insert("baz", "luhrmann".to_string());

    let event = run(vec![
        Field { name: "labels.foo".to_string(), value: FieldValue::Str(labels["foo"].clone()) },
        Field { name: "labels.baz".to_string(), value: FieldValue::Str(labels["baz"].clone()) },
    ]);
    let found = labels_of(&event);
    assert!(found.get("foo").is_some());
    assert_eq!(found.get("foo"), labels.get("foo"));
    assert!(found.get("baz").is_some());
    assert_eq!(found.get("baz"), labels.get("baz"));
}

#[test]
fn stringifies_primitive_label_values() {
    let number = 2;
    let boolean = false;
    let string = "a short note";
    let event = run(vec![
        Field { name: "labels.number".to_string(), value: FieldValue::I64(number) },
        Field { name: "labels.boolean".to_string(), value: FieldValue::Bool(boolean) },
        Field { name: "labels.string".to_string(), value: FieldValue::Str(string.to_string()) },
    ]);
    let found = labels_of(&event);
    assert_eq!(found.get("number"), Some(&number.to_string()));
    assert_eq!(found.get("boolean"), Some(&boolean.to_string()));
    assert_eq!(found.get("string"), Some(&string.to_string()));
}

#[test]
fn omits_labels_by_default() {
    let event = run(vec![]);
    assert!(labels_of(&event).is_empty());
    assert!(event.get("logging.googleapis.com/labels").is_none());
}
