use tracing_fluentd::fluent::{FieldMap, Message, Record, Severity, Value};

fn s(text: &str) -> String {
    text.to_owned()
}

#[test]
fn severity_names() {
    assert_eq!(Severity::Error.as_str(), "ERROR");
    assert_eq!(Severity::Warn.as_str(), "WARN");
    assert_eq!(Severity::Info.as_str(), "INFO");
    assert_eq!(Severity::Debug.as_str(), "DEBUG");
    assert_eq!(Severity::Trace.as_str(), "TRACE");
}

#[test]
fn map_insert_and_lookup() {
    let mut map = FieldMap::new();
    assert_eq!(map.len(), 0);
    assert!(!map.contains_key("a"));
    map.insert(s("a"), Value::Uint(1));
    map.insert(s("b"), Value::Bool(true));
    assert_eq!(map.len(), 2);
    assert!(map.contains_key("a"));
    assert!(map.contains_key("b"));
    assert!(!map.contains_key("c"));
    assert!(matches!(map.get("a"), Some(Value::Uint(1))));
    assert!(matches!(map.get("b"), Some(Value::Bool(true))));
    assert!(map.get("c").is_none());
}

#[test]
fn map_insert_existing_key_replaces_in_place() {
    let mut map = FieldMap::new();
    map.insert(s("x"), Value::Uint(1));
    map.insert(s("y"), Value::Uint(2));
    map.insert(s("x"), Value::Uint(9));
    // the key keeps its original position and the map does not grow
    assert_eq!(map.len(), 2);
    assert!(matches!(map.get("x"), Some(Value::Uint(9))));
    assert_eq!(map.entries[0].0, "x");
    assert_eq!(map.entries[1].0, "y");
}

#[test]
fn update_never_overwrites_existing_keys() {
    // A Record seeded with map A, then updated with map B: every key of A
    // keeps its value and position, and B's new keys append in B's order.
    let mut record = Record::with_timestamp(5, 0);
    record.insert(s("shared"), Value::Uint(1));
    record.insert(s("mine"), Value::Bool(true));

    let mut other = FieldMap::new();
    other.insert(s("shared"), Value::Uint(999));
    other.insert(s("new_b"), Value::Uint(2));
    other.insert(s("new_a"), Value::Uint(3));

    record.update(&other);

    assert!(matches!(record.get("shared"), Some(Value::Uint(1))));
    assert!(matches!(record.get("mine"), Some(Value::Bool(true))));
    assert!(matches!(record.get("new_b"), Some(Value::Uint(2))));
    assert!(matches!(record.get("new_a"), Some(Value::Uint(3))));
    let keys: Vec<&str> = record.entries.entries.iter().map(|p| p.0.as_str()).collect();
    assert_eq!(keys, vec!["shared", "mine", "new_b", "new_a"]);
}

#[test]
fn update_with_empty_map_changes_nothing() {
    let mut record = Record::with_timestamp(5, 0);
    record.insert(s("k"), Value::Uint(7));
    let empty = FieldMap::new();
    record.update(&empty);
    assert_eq!(record.entries.len(), 1);
    assert!(matches!(record.get("k"), Some(Value::Uint(7))));
}

#[test]
fn record_now_is_after_epoch() {
    let record = Record::now().expect("system clock reads after the epoch");
    assert!(record.secs > 0);
    assert!(record.nanos < 1_000_000_000);
    assert_eq!(record.entries.len(), 0);
}

#[test]
fn message_add_len_clear() {
    let mut message = Message::new("tag");
    assert_eq!(message.len(), 0);
    message.add(Record::with_timestamp(1, 0));
    message.add(Record::with_timestamp(2, 0));
    assert_eq!(message.len(), 2);
    assert_eq!(message.size, 2);
    message.clear();
    assert_eq!(message.len(), 0);
    assert_eq!(message.size, 0);
    assert_eq!(message.tag, "tag");
}

#[test]
fn values_clone_deeply() {
    let mut inner = FieldMap::new();
    inner.insert(s("n"), Value::Int(-5));
    let original = Value::Object(inner);
    let copy = original.clone();
    match (original, copy) {
        (Value::Object(a), Value::Object(b)) => {
            assert!(matches!(a.get("n"), Some(Value::Int(-5))));
            assert!(matches!(b.get("n"), Some(Value::Int(-5))));
        },
        _ => panic!("clone changed the variant"),
    }
}
