use preferences::codec::{load_from_bytes, save_to_bytes};
use preferences::errors::PreferencesError;

fn sample() -> Vec<(String, String)> {
    vec![
        ("color".to_string(), "blue".to_string()),
        ("age".to_string(), "23".to_string()),
    ]
}

#[test]
fn encoding_is_plain_json() {
    let bytes = save_to_bytes(&vec![("color".to_string(), "blue".to_string())]);
    assert_eq!(bytes, br#"[["color","blue"]]"#.to_vec());
}

#[test]
fn bytes_round_trip() {
    let value = sample();
    let bytes = save_to_bytes(&value);
    let back = load_from_bytes(&bytes).unwrap();
    assert_eq!(back, value);
}

#[test]
fn empty_value_round_trips() {
    let value: Vec<(String, String)> = vec![];
    let back = load_from_bytes(&save_to_bytes(&value)).unwrap();
    assert_eq!(back, value);
}

#[test]
fn truncated_record_is_a_json_error() {
    let mut bytes = save_to_bytes(&sample());
    bytes.truncate(bytes.len() / 2);
    let r = load_from_bytes(&bytes);
    assert!(matches!(r, Err(PreferencesError::Json(_))));
}

#[test]
fn garbage_record_is_a_json_error() {
    let r = load_from_bytes(&b"not json at all".to_vec());
    assert!(matches!(r, Err(PreferencesError::Json(_))));
    let r2 = load_from_bytes(&Vec::new());
    assert!(matches!(r2, Err(PreferencesError::Json(_))));
}

#[test]
fn wrong_shape_is_a_json_error() {
    let r = load_from_bytes(&br#"{"color":"blue"}"#.to_vec());
    assert!(matches!(r, Err(PreferencesError::Json(_))));
}
