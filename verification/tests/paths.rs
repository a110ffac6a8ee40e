use preferences::paths::compute_file_path;

#[test]
fn resolved_path_is_deterministic() {
    let p = compute_file_path("/tmp/fakehome/.config", "app/options");
    assert_eq!(p, "/tmp/fakehome/.config/app/options/prefs.json");
    let q = compute_file_path("/tmp/fakehome/.config", "app/options");
    assert_eq!(p, q);
}

#[test]
fn traversal_keys_stay_under_the_base() {
    let p = compute_file_path("/base", "../../etc/passwd");
    assert_eq!(p, "/base/_46__46_/_46__46_/etc/passwd/prefs.json");
    let q = compute_file_path("/base", "/etc/passwd");
    assert_eq!(q, "/base/_/etc/passwd/prefs.json");
}

#[test]
fn nested_keys_form_nested_directories() {
    let p = compute_file_path("/data", "deep/nested/key");
    assert_eq!(p, "/data/deep/nested/key/prefs.json");
}

#[test]
fn empty_key_still_resolves() {
    let p = compute_file_path("/data", "");
    assert_eq!(p, "/data/_/prefs.json");
}
