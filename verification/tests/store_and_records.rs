use webhook_relay::request::{not_found_message, CapturedRequest};
use webhook_relay::session::event_record;
use webhook_relay::store::RequestStore;

#[test]
fn record_keeps_its_parts() {
    let record = CapturedRequest::new("GET", "{\"host\": \"a\"}", "payload");
    assert_eq!(record.method(), "GET");
    assert_eq!(record.headers(), "{\"host\": \"a\"}");
    assert_eq!(record.body(), "payload");
}

#[test]
fn callback_record_marks_the_body() {
    let record = CapturedRequest::from_callback("POST", "h", "hello");
    assert_eq!(record.method(), "POST");
    assert_eq!(record.headers(), "h");
    assert_eq!(record.body(), "Body: hello");
}

#[test]
fn callback_record_of_empty_body() {
    let record = CapturedRequest::from_callback("DELETE", "", "");
    assert_eq!(record.method(), "DELETE");
    assert_eq!(record.headers(), "");
    assert_eq!(record.body(), "Body: ");
}

#[test]
fn clone_is_equal() {
    let record = CapturedRequest::from_callback("PUT", "h", "päyload ✓");
    let copy = record.clone();
    assert_eq!(copy, record);
    assert_eq!(copy.body(), "Body: päyload ✓");
}

#[test]
fn not_found_message_names_the_identification() {
    assert_eq!(not_found_message("abc"), "No data available for identification: abc");
    assert_eq!(not_found_message(""), "No data available for identification: ");
}

#[test]
fn event_record_frames_the_payload() {
    assert_eq!(event_record("{\"a\":1}"), "data: {\"a\":1}\n\n");
    assert_eq!(event_record(""), "data: \n\n");
}

#[test]
fn empty_store_has_nothing() {
    let store = RequestStore::new();
    assert_eq!(store.get("abc"), None);
    assert!(!store.contains("abc"));
    assert!(!store.contains(""));
}

#[test]
fn upsert_then_get() {
    let mut store = RequestStore::new();
    store.upsert("abc", CapturedRequest::new("POST", "h", "one"));
    assert_eq!(store.get("abc"), Some(CapturedRequest::new("POST", "h", "one")));
    assert!(store.contains("abc"));
    assert_eq!(store.get("abd"), None);
}

#[test]
fn upsert_replaces_the_whole_value() {
    let mut store = RequestStore::new();
    store.upsert("abc", CapturedRequest::new("POST", "first headers", "one"));
    store.upsert("abc", CapturedRequest::new("PUT", "", "two"));
    let found = store.get("abc").expect("a value was recorded");
    assert_eq!(found.method(), "PUT");
    assert_eq!(found.headers(), "");
    assert_eq!(found.body(), "two");
}

#[test]
fn upsert_leaves_other_identifications() {
    let mut store = RequestStore::new();
    store.upsert("a", CapturedRequest::new("POST", "h", "one"));
    store.upsert("b", CapturedRequest::new("PUT", "h", "two"));
    store.upsert("a", CapturedRequest::new("PATCH", "h", "three"));
    assert_eq!(store.get("b"), Some(CapturedRequest::new("PUT", "h", "two")));
    assert_eq!(store.get("a"), Some(CapturedRequest::new("PATCH", "h", "three")));
}

#[test]
fn any_identification_is_accepted() {
    let mut store = RequestStore::new();
    store.upsert("", CapturedRequest::new("GET", "", ""));
    store.upsert("a/b c\n", CapturedRequest::new("GET", "", "x"));
    assert!(store.contains(""));
    assert_eq!(store.get("a/b c\n").map(|r| r.body().to_string()), Some("x".to_string()));
}

#[test]
fn get_hands_out_a_copy() {
    let mut store = RequestStore::new();
    store.upsert("abc", CapturedRequest::new("POST", "h", "one"));
    let first = store.get("abc");
    store.upsert("abc", CapturedRequest::new("POST", "h", "two"));
    assert_eq!(first, Some(CapturedRequest::new("POST", "h", "one")));
    assert_eq!(store.get("abc"), Some(CapturedRequest::new("POST", "h", "two")));
}
