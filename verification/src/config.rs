//! Runtime configuration handed in by the caller. Loading the file and
//! filling in platform defaults involve the filesystem and stay with the
//! caller; the validated shape lives here.

use vstd::prelude::*;

verus! {

/// The `[general]` table of the configuration.
#[derive(Debug)]
pub struct General {
    pub database_path: Option<String>,
}

/// The whole configuration.
#[derive(Debug)]
pub struct Config {
    pub general: General,
}

impl Config {
    /// Every well-typed configuration is accepted.
    pub fn validate(&self) -> (r: Result<(), String>)
        ensures
            r is Ok,
    {
        Ok(())
    }
}

} // verus!
