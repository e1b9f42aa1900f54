//! Errors of reading and writing project and preference files.

use vstd::prelude::*;
use crate::text::concat;

verus! {

/// Error from loading or saving a project file
#[derive(Debug)]
pub enum ProjectError {
    IoError(String),
    ParseError(String),
    SerializeError(String),
    NoPath,
}

impl ProjectError {
    /// The message shown for the error.
    pub fn message(&self) -> (r: String)
        ensures
            r@ == match self {
                ProjectError::IoError(e) => "IO error: "@ + e@,
                ProjectError::ParseError(e) => "Parse error: "@ + e@,
                ProjectError::SerializeError(e) => "Serialize error: "@ + e@,
                ProjectError::NoPath => "No file path set"@,
            },
    {
        match self {
            ProjectError::IoError(e) => concat("IO error: ", e.as_str()),
            ProjectError::ParseError(e) => concat("Parse error: ", e.as_str()),
            ProjectError::SerializeError(e) => concat("Serialize error: ", e.as_str()),
            ProjectError::NoPath => String::from_str("No file path set"),
        }
    }
}

/// Error from loading or saving the editor preferences
#[derive(Debug)]
pub enum PreferencesError {
    IoError(String),
    ParseError(String),
    SerializeError(String),
    NoConfigDir,
}

impl PreferencesError {
    /// The message shown for the error.
    pub fn message(&self) -> (r: String)
        ensures
            r@ == match self {
                PreferencesError::IoError(e) => "IO error: "@ + e@,
                PreferencesError::ParseError(e) => "Parse error: "@ + e@,
                PreferencesError::SerializeError(e) => "Serialize error: "@ + e@,
                PreferencesError::NoConfigDir => "Could not determine config directory"@,
            },
    {
        match self {
            PreferencesError::IoError(e) => concat("IO error: ", e.as_str()),
            PreferencesError::ParseError(e) => concat("Parse error: ", e.as_str()),
            PreferencesError::SerializeError(e) => concat("Serialize error: ", e.as_str()),
            PreferencesError::NoConfigDir => String::from_str("Could not determine config directory"),
        }
    }
}

} // verus!
