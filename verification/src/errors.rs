//! The error values that the library's operations report.
use vstd::prelude::*;

verus! {

/// Why the templates could not be loaded, with the configuration file that
/// caused it where there is one.
pub struct LoadError {
    pub message: String,
    pub configPath: Option<String>,
}

/// Why initializing a project from a template failed.
pub struct InitError {
    pub message: String,
}

/// Why running a command of the configuration failed.
pub struct RunError {
    pub message: String,
}

/// Why the variables of a command could not be substituted.
pub struct ReplaceError {
    pub message: String,
}

/// Why a configuration was refused.
pub struct ValidationError {
    pub message: String,
}

/// Why a command could not be started, and which program it was.
#[allow(non_camel_case_types)]
pub struct commandExecuteError {
    pub message: String,
    pub command: String,
}

} // verus!
