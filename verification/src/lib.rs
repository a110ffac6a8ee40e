//! Store and retrieve user-local application data under stable,
//! hierarchical keys.
//!
//! A caller-supplied key such as `"app/options"` is sanitized into
//! filesystem-safe path segments ([`sanitize`]), joined under a platform
//! base directory ([`paths`], [`platform`]), and the value is serialized to
//! JSON as the record at the resulting location ([`codec`], [`store`]).
//! The sanitizer escapes every character outside a small allowed set, so a
//! key can never name a location outside the base directory, and never
//! needs to be rejected.

pub mod codec;
pub mod errors;
pub mod paths;
pub mod platform;
pub mod sanitize;
pub mod store;

pub use codec::{load_from_bytes, save_to_bytes};
pub use errors::PreferencesError;
pub use paths::compute_file_path;
pub use platform::{build_file_path, prefs_base_dir, resolve_base_dir, PlatformEnv, PlatformKind};
pub use sanitize::sanitize;
pub use store::KeyedStore;
