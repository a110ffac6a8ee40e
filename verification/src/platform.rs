//! Cross-platform resolution of the base directory that all records live
//! under.
//!
//! The decision logic is a pure function of platform facts — the kind of
//! operating system and the values of the environment sources that matter —
//! so an embedding gathers those facts once at startup and any host can
//! exercise the logic by supplying them directly. The one call that only
//! the platform itself can answer, asking the platform-paths collaborator
//! for its own idea of the directory, is [`prefs_base_dir`].

use crate::errors::PreferencesError;
use crate::paths::{compute_file_path, file_path_spec};
use vstd::prelude::*;

verus! {

/// The kind of operating system the store runs on, detected once by the
/// embedding.
#[derive(Clone, Copy, PartialEq, Eq, Structural, Debug)]
pub enum PlatformKind {
    /// macOS: per-user application data lives under the user's library.
    MacOs,
    /// Other Unix-likes: XDG conventions.
    Unix,
    /// Windows: the user's roaming application-data folder.
    Windows,
}

/// The environment facts base-directory resolution depends on, each the
/// value of one platform source or `None` where that source is unset or
/// unavailable.
pub struct PlatformEnv {
    /// The user's home directory: `HOME`, or `HOMEDRIVE` followed by
    /// `HOMEPATH` on Windows.
    pub home: Option<String>,
    /// `XDG_CONFIG_HOME`, where set and non-empty.
    pub xdg_config_home: Option<String>,
    /// The roaming application-data folder reported by the platform's
    /// known-folder interface, on Windows.
    pub app_data: Option<String>,
}

/// The base directory that resolution yields from the given facts, when
/// the facts supply one: the per-user application-support library on
/// macOS; the XDG configuration home, else `.config` under the home
/// directory, on other Unix-likes; the roaming application-data folder,
/// else its conventional location under the home directory, on Windows.
pub open spec fn base_dir_spec(kind: PlatformKind, env: PlatformEnv) -> Option<Seq<char>> {
    match kind {
        PlatformKind::MacOs => match env.home {
            Some(h) => Some(h@ + "/Library/Application Support"@),
            None => None,
        },
        PlatformKind::Unix => match env.xdg_config_home {
            Some(x) => Some(x@),
            None => match env.home {
                Some(h) => Some(h@ + "/.config"@),
                None => None,
            },
        },
        PlatformKind::Windows => match env.app_data {
            Some(d) => Some(d@),
            None => match env.home {
                Some(h) => Some(h@ + "/AppData/Roaming"@),
                None => None,
            },
        },
    }
}

/// Resolves the base directory from the given platform facts.
///
/// Returns the directory [`base_dir_spec`] prescribes, and fails with
/// `Directory` exactly when the facts supply none — when every source the
/// platform kind consults is unavailable.
pub fn resolve_base_dir(kind: PlatformKind, env: &PlatformEnv) -> (r: Result<
    String,
    PreferencesError,
>)
    ensures
        match r {
            Ok(b) => base_dir_spec(kind, *env) == Some(b@),
            Err(e) => e is Directory && base_dir_spec(kind, *env) is None,
        },
{
    match kind {
        PlatformKind::MacOs => match &env.home {
            Some(h) => Ok(h.clone().concat("/Library/Application Support")),
            None => Err(PreferencesError::Directory),
        },
        PlatformKind::Unix => match &env.xdg_config_home {
            Some(x) => Ok(x.clone()),
            None => match &env.home {
                Some(h) => Ok(h.clone().concat("/.config")),
                None => Err(PreferencesError::Directory),
            },
        },
        PlatformKind::Windows => match &env.app_data {
            Some(d) => Ok(d.clone()),
            None => match &env.home {
                Some(h) => Ok(h.clone().concat("/AppData/Roaming")),
                None => Err(PreferencesError::Directory),
            },
        },
    }
}

/// Composes base-directory resolution with key-to-path construction: where
/// the record for `key` lives, given the platform facts. Fails with
/// `Directory` exactly when the facts supply no base directory;
/// sanitization itself never rejects a key.
pub fn build_file_path(kind: PlatformKind, env: &PlatformEnv, key: &str) -> (r: Result<
    String,
    PreferencesError,
>)
    ensures
        match r {
            Ok(p) => base_dir_spec(kind, *env) matches Some(b) && p@ == file_path_spec(b, key@),
            Err(e) => e is Directory && base_dir_spec(kind, *env) is None,
        },
{
    match resolve_base_dir(kind, env) {
        Ok(base) => Ok(compute_file_path(base.as_str(), key)),
        Err(e) => Err(e),
    }
}

/// Full path to the platform's own base directory for user configuration
/// data, as the platform-paths collaborator reports it, or `None` when the
/// platform cannot determine one. Makes no guarantee that the directory
/// exists.
///
/// Relies on `app_dirs::get_data_root` for user-configuration data: the
/// result depends on the process environment (and, on Windows, the
/// known-folder interface), so nothing is assumed about it.
#[verifier::external_body]
pub fn prefs_base_dir() -> (r: Option<String>) {
    app_dirs::get_data_root(app_dirs::AppDataType::UserConfig).ok().map(
        |p| p.to_string_lossy().into_owned(),
    )
}

} // verus!
