use preferences::sanitize::sanitize;

fn segs(key: &str) -> Vec<String> {
    sanitize(key)
}

#[test]
fn allowed_characters_pass_through() {
    assert_eq!(segs("Az 0-9"), vec!["Az 0-9".to_string()]);
    assert_eq!(segs("app/options"), vec!["app".to_string(), "options".to_string()]);
}

#[test]
fn traversal_tokens_are_escaped() {
    assert_eq!(
        segs("../../etc/passwd"),
        vec![
            "_46__46_".to_string(),
            "_46__46_".to_string(),
            "etc".to_string(),
            "passwd".to_string(),
        ]
    );
}

#[test]
fn dot_segments_cannot_survive() {
    assert_eq!(segs("."), vec!["_46_".to_string()]);
    assert_eq!(segs(".."), vec!["_46__46_".to_string()]);
    assert_eq!(segs("./x"), vec!["_46_".to_string(), "x".to_string()]);
}

#[test]
fn empty_segments_get_placeholder() {
    assert_eq!(segs("a//b"), vec!["a".to_string(), "_".to_string(), "b".to_string()]);
    assert_eq!(segs("/a/b"), vec!["_".to_string(), "a".to_string(), "b".to_string()]);
    assert_eq!(segs("a/b/"), vec!["a".to_string(), "b".to_string(), "_".to_string()]);
    assert_eq!(segs(""), vec!["_".to_string()]);
}

#[test]
fn escapes_use_decimal_code_points() {
    assert_eq!(segs("dot.txt"), vec!["dot_46_txt".to_string()]);
    assert_eq!(segs("a_b"), vec!["a_95_b".to_string()]);
    assert_eq!(segs("tab\there"), vec!["tab_9_here".to_string()]);
    assert_eq!(segs("nul\0"), vec!["nul_0_".to_string()]);
    assert_eq!(segs("caf\u{e9}"), vec!["caf_233_".to_string()]);
    assert_eq!(segs("\u{1f600}"), vec!["_128512_".to_string()]);
}

#[test]
fn backslash_and_drive_letters_are_neutralized() {
    assert_eq!(segs("..\\x"), vec!["_46__46__92_x".to_string()]);
    assert_eq!(segs("C:"), vec!["C_58_".to_string()]);
}
