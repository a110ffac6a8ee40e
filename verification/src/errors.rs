//! The errors that can occur when saving or loading user data.

use vstd::prelude::*;

verus! {

/// The JSON codec's error type, carried through unchanged so callers can
/// inspect or report it.
#[verifier::external_type_specification]
#[verifier::external_body]
pub struct ExJsonError(serde_json::Error);

/// Error type for saving and loading user data.
///
/// Sanitization never rejects a key (every character outside the allowed
/// set is escaped), so there is no invalid-key error: the taxonomy covers
/// only the base directory, the record's existence, the filesystem, and the
/// codec.
#[derive(Debug)]
pub enum PreferencesError {
    /// The platform base directory could not be determined.
    Directory,
    /// No record has been saved under the requested key.
    NotFound,
    /// An underlying filesystem operation failed; holds the description
    /// supplied by the I/O layer that performed it.
    Io(String),
    /// The record's bytes are not a well-formed encoding of a stored value.
    Json(serde_json::Error),
}

/// Formats the codec's error for display.
///
/// Relies on `serde_json::Error`'s `Display` implementation for the text.
#[verifier::external_body]
fn json_error_message(e: &serde_json::Error) -> String {
    format!("{}", e)
}

impl PreferencesError {
    /// A human-readable description of the error.
    pub fn message(&self) -> (r: String)
        ensures
            self matches PreferencesError::Io(m) ==> r@ == m@,
    {
        match self {
            PreferencesError::Directory => String::from_str(
                "could not determine the platform data directory",
            ),
            PreferencesError::NotFound => String::from_str(
                "no user data has been saved under this key",
            ),
            PreferencesError::Io(m) => m.clone(),
            PreferencesError::Json(e) => json_error_message(e),
        }
    }
}

} // verus!
