use preferences::errors::PreferencesError;
use preferences::platform::{
    build_file_path, prefs_base_dir, resolve_base_dir, PlatformEnv, PlatformKind,
};

fn env(
    home: Option<&str>,
    xdg_config_home: Option<&str>,
    app_data: Option<&str>,
) -> PlatformEnv {
    PlatformEnv {
        home: home.map(|s| s.to_string()),
        xdg_config_home: xdg_config_home.map(|s| s.to_string()),
        app_data: app_data.map(|s| s.to_string()),
    }
}

#[test]
fn unix_prefers_the_xdg_configuration_home() {
    let r = resolve_base_dir(PlatformKind::Unix, &env(Some("/home/u"), Some("/custom/cfg"), None));
    assert_eq!(r.unwrap(), "/custom/cfg");
}

#[test]
fn unix_falls_back_to_home() {
    let r = resolve_base_dir(PlatformKind::Unix, &env(Some("/home/u"), None, None));
    assert_eq!(r.unwrap(), "/home/u/.config");
}

#[test]
fn macos_uses_the_application_support_library() {
    let r = resolve_base_dir(PlatformKind::MacOs, &env(Some("/Users/u"), None, None));
    assert_eq!(r.unwrap(), "/Users/u/Library/Application Support");
}

#[test]
fn windows_prefers_the_known_folder() {
    let r = resolve_base_dir(
        PlatformKind::Windows,
        &env(Some("C:/Users/u"), None, Some("C:/Users/u/AppData/Roaming")),
    );
    assert_eq!(r.unwrap(), "C:/Users/u/AppData/Roaming");
}

#[test]
fn windows_falls_back_to_the_conventional_location() {
    let r = resolve_base_dir(PlatformKind::Windows, &env(Some("C:/Users/u"), None, None));
    assert_eq!(r.unwrap(), "C:/Users/u/AppData/Roaming");
}

#[test]
fn missing_home_is_a_directory_error() {
    for kind in [PlatformKind::MacOs, PlatformKind::Unix, PlatformKind::Windows] {
        let r = resolve_base_dir(kind, &env(None, None, None));
        assert!(matches!(r, Err(PreferencesError::Directory)));
    }
}

#[test]
fn full_path_construction_composes_resolution_and_sanitization() {
    let r = build_file_path(
        PlatformKind::Unix,
        &env(Some("/tmp/fakehome"), None, None),
        "app/options",
    );
    assert_eq!(r.unwrap(), "/tmp/fakehome/.config/app/options/prefs.json");
    let missing = build_file_path(PlatformKind::Unix, &env(None, None, None), "app/options");
    assert!(matches!(missing, Err(PreferencesError::Directory)));
}

#[test]
fn error_messages_describe_the_failure() {
    let io = PreferencesError::Io("disk full".to_string());
    assert_eq!(io.message(), "disk full");
    let dir = PreferencesError::Directory;
    assert!(!dir.message().is_empty());
    let missing = PreferencesError::NotFound;
    assert!(!missing.message().is_empty());
}

#[test]
fn platform_base_dir_query_runs() {
    // Environment-dependent: only exercise the call and the shape of its
    // result.
    match prefs_base_dir() {
        Some(dir) => assert!(!dir.is_empty()),
        None => {}
    }
}
