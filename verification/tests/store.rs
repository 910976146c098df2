use ccs_sidecar::store::StoreData;
use serde_json::Value;

#[test]
fn a_value_reads_back_after_it_is_written() {
    let mut store = StoreData::load(None);
    assert!(store.get("key").is_none());
    store.set("key".to_string(), Value::String("v1".to_string()));
    assert_eq!(store.get("key"), Some(&Value::String("v1".to_string())));
    store.set("key".to_string(), Value::Bool(true));
    assert_eq!(store.get("key"), Some(&Value::Bool(true)));
    assert!(store.delete("key"));
    assert!(!store.delete("key"));
    assert!(store.get("key").is_none());
}

#[test]
fn a_file_that_holds_no_object_gives_an_empty_store() {
    assert!(StoreData::load(Some("[1, 2]".to_string())).get("0").is_none());
    assert!(StoreData::load(Some("not json".to_string())).get("a").is_none());
    let s = StoreData::load(Some("{\"a\": 1, \"b\": \"x\"}".to_string()));
    assert_eq!(s.get("a"), Some(&Value::from(1)));
    assert_eq!(s.get("b"), Some(&Value::String("x".to_string())));
}

#[test]
fn the_file_text_is_pretty_json_that_loads_again() {
    let mut s = StoreData::load(None);
    s.set("b".to_string(), Value::from(2));
    s.set("a".to_string(), Value::String("x".to_string()));
    let text = s.file_text().ok().unwrap();
    assert_eq!(text, "{\n  \"a\": \"x\",\n  \"b\": 2\n}");
    let again = StoreData::load(Some(text));
    assert_eq!(again.get("b"), Some(&Value::from(2)));
}

#[test]
fn later_writes_to_other_keys_leave_a_value_alone() {
    let mut store = StoreData::load(Some("{\"k3\": 0}".to_string()));
    store.set("k1".to_string(), Value::String("v1".to_string()));
    store.set("k2".to_string(), Value::from(1));
    assert!(store.delete("k3"));
    store.set("k2".to_string(), Value::from(2));
    assert_eq!(store.get("k1"), Some(&Value::String("v1".to_string())));
    assert_eq!(store.get("k2"), Some(&Value::from(2)));
    assert!(store.get("k3").is_none());
}
