use telemetry::event::Payload;

#[test]
fn empty_payload_has_no_keys() {
    let payload = Payload::new();
    assert_eq!(payload.len(), 0);
    assert_eq!(payload.get("x"), None);
    assert!(!payload.contains_key("x"));
}

#[test]
fn insert_binds_key_to_value() {
    let mut payload = Payload::new();
    payload.insert("x".to_string(), "1".to_string());
    assert_eq!(payload.get("x"), Some(&"1".to_string()));
    assert!(payload.contains_key("x"));
    assert_eq!(payload.len(), 1);
}

#[test]
fn insert_replaces_earlier_binding() {
    let mut payload = Payload::new();
    payload.insert("x".to_string(), "1".to_string());
    payload.insert("x".to_string(), "9".to_string());
    assert_eq!(payload.get("x"), Some(&"9".to_string()));
    assert_eq!(payload.len(), 1);
}

#[test]
fn distinct_keys_are_independent() {
    let mut payload = Payload::new();
    payload.insert("x".to_string(), "1".to_string());
    payload.insert("y".to_string(), "2".to_string());
    assert_eq!(payload.get("x"), Some(&"1".to_string()));
    assert_eq!(payload.get("y"), Some(&"2".to_string()));
    assert_eq!(payload.get("z"), None);
    assert_eq!(payload.len(), 2);
}

#[test]
fn empty_value_and_empty_key_are_allowed() {
    let mut payload = Payload::new();
    payload.insert(String::new(), String::new());
    assert_eq!(payload.get(""), Some(&String::new()));
    assert_eq!(payload.len(), 1);
}
