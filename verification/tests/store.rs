use preferences::codec::save_to_bytes;
use preferences::errors::PreferencesError;
use preferences::store::{save_then_load, KeyedStore};

fn sample() -> Vec<(String, String)> {
    vec![
        ("color".to_string(), "blue".to_string()),
        ("programming language".to_string(), "Rust".to_string()),
    ]
}

#[test]
fn save_load_round_trip() {
    let mut store = KeyedStore::open("/tmp/fakehome/.config".to_string());
    let value = sample();
    store.save("app/options", &value);
    let back = store.load("app/options").unwrap();
    assert_eq!(back, value);
}

#[test]
fn round_trip_law_holds_on_a_sample() {
    let mut store = KeyedStore::open("/data".to_string());
    let value = sample();
    let back = save_then_load(&mut store, "saves/quicksave", &value);
    assert_eq!(back, value);
}

#[test]
fn concrete_scenario() {
    let mut store = KeyedStore::open("/tmp/fakehome/.config".to_string());
    let value = vec![("color".to_string(), "blue".to_string())];
    assert!(!store.contains_record("app/options"));
    store.save("app/options", &value);
    assert!(store.contains_record("app/options"));
    let raw = store.load_raw("app/options").unwrap();
    assert_eq!(raw, br#"[["color","blue"]]"#.to_vec());
    assert_eq!(store.load("app/options").unwrap(), value);
}

#[test]
fn repeated_identical_saves_are_idempotent() {
    let mut store = KeyedStore::open("/data".to_string());
    let value = sample();
    store.save("options/graphics", &value);
    store.save("options/graphics", &value);
    let back = store.load("options/graphics").unwrap();
    assert_eq!(back, value);
}

#[test]
fn a_save_overwrites_in_full() {
    let mut store = KeyedStore::open("/data".to_string());
    let first = vec![("a".to_string(), "1".to_string()), ("b".to_string(), "2".to_string())];
    let second = vec![("c".to_string(), "3".to_string())];
    store.save("k", &first);
    store.save("k", &second);
    assert_eq!(store.load("k").unwrap(), second);
}

#[test]
fn missing_key_is_not_found() {
    let store = KeyedStore::open("/data".to_string());
    let r = store.load("never/saved");
    assert!(matches!(r, Err(PreferencesError::NotFound)));
    assert!(!store.contains_record("never/saved"));
}

#[test]
fn loading_never_creates_a_record() {
    let mut store = KeyedStore::open("/data".to_string());
    store.save("present", &sample());
    let _ = store.load("absent/key");
    assert!(!store.contains_record("absent/key"));
    assert!(store.contains_record("present"));
}

#[test]
fn nested_keys_save_without_preparation() {
    let mut store = KeyedStore::open("/data".to_string());
    let value = sample();
    store.save("deep/nested/key", &value);
    assert_eq!(store.load("deep/nested/key").unwrap(), value);
}

#[test]
fn keys_with_traversal_tokens_are_distinct_records() {
    let mut store = KeyedStore::open("/data".to_string());
    let a = vec![("x".to_string(), "1".to_string())];
    let b = vec![("y".to_string(), "2".to_string())];
    store.save("../up", &a);
    store.save("_46__46_/up", &b);
    assert_eq!(store.load("../up").unwrap(), a);
    assert_eq!(store.load("_46__46_/up").unwrap(), b);
}

#[test]
fn corrupt_record_is_a_json_error_not_a_default() {
    let mut store = KeyedStore::open("/data".to_string());
    let value = sample();
    store.save("app/options", &value);
    let mut bytes = save_to_bytes(&value);
    bytes.truncate(bytes.len() - 3);
    store.save_raw("app/options", bytes);
    let r = store.load("app/options");
    assert!(matches!(r, Err(PreferencesError::Json(_))));
}

fn gen_test_name(name: &str) -> String {
    "tests/module".to_string() + "/" + name
}

fn gen_sample_prefs() -> Vec<(String, String)> {
    vec![
        ("foo".to_string(), "bar".to_string()),
        ("age".to_string(), "23".to_string()),
        ("PI".to_string(), "3.14".to_string()),
        ("offset".to_string(), "-9".to_string()),
    ]
}

#[test]
fn test_save_load() {
    let name = gen_test_name("save-load");
    let sample = gen_sample_prefs();
    let mut store = KeyedStore::open("/data".to_string());
    store.save(&name, &sample);
    println!("Save result: {:?}", store.contains_record(&name));
    assert!(store.contains_record(&name));
    let load_result = store.load(&name);
    println!("Load result: {:?}", load_result);
    assert!(load_result.is_ok());
    assert_eq!(load_result.unwrap(), sample);
}

#[test]
fn raw_bytes_round_trip() {
    let mut store = KeyedStore::open("/data".to_string());
    store.save_raw("blob", vec![1, 2, 3, 255]);
    assert_eq!(store.load_raw("blob").unwrap(), vec![1, 2, 3, 255]);
}
