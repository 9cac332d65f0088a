//! What a command hands back, and how it is configured.
use vstd::prelude::*;

use crate::config::{Config, ConfigView};
use crate::text::to_owned_string;

verus! {

/// The outcome of a command: the problems found, the errors met, and the
/// messages for the user.
#[derive(Debug)]
pub struct RunResult {
    pub validation_errors: Vec<String>,
    pub io_errors: Vec<String>,
    pub info_messages: Vec<String>,
}

impl Default for RunResult {
    fn default() -> (r: Self)
        ensures
            r.validation_errors@.len() == 0,
            r.io_errors@.len() == 0,
            r.info_messages@.len() == 0,
    {
        RunResult { validation_errors: Vec::new(), io_errors: Vec::new(), info_messages: Vec::new() }
    }
}

impl RunResult {
    /// Whether the command met an error or found a problem.
    pub fn has_errors(&self) -> (r: bool)
        ensures
            r == (self.io_errors@.len() > 0 || self.validation_errors@.len() > 0),
    {
        self.io_errors.len() > 0 || self.validation_errors.len() > 0
    }
}

/// The owner of a file as `for-file --json` shows it: the team, its GitHub
/// team, its team file relative to the project's root, and how it came to
/// own the file.
#[derive(Debug)]
pub struct ForFileResult {
    pub team_name: String,
    pub github_team: String,
    pub team_yml: String,
    pub description: Vec<String>,
}

/// Where the project, its CODEOWNERS file and its configuration are,
/// whether the cache is used, and the command name to show in messages when
/// it is not the one that the configuration file gives.
#[derive(Debug, Clone)]
pub struct RunConfig {
    pub project_root: String,
    pub codeowners_file_path: String,
    pub config_path: String,
    pub no_cache: bool,
    pub executable_name: Option<String>,
}

impl RunConfig {
    /// The configuration this run works with: the configuration file's, with
    /// this run's executable name in place of the file's when it names one.
    pub fn apply_to(&self, config: Config) -> (r: Config)
        ensures
            r@ == (ConfigView {
                executable_name: match self.executable_name {
                    Some(n) => n@,
                    None => config@.executable_name,
                },
                ..config@
            }),
    {
        let mut c = config;
        match &self.executable_name {
            Some(n) => {
                c.executable_name = n.clone();
            },
            None => {},
        }
        c
    }
}

#[derive(Debug)]
pub enum Error {
    Io(String),
    ValidationFailed,
}

impl Error {
    /// The error's text (its `Display`).
    pub fn to_text(&self) -> (r: String)
        ensures
            r@ == match self {
                Error::Io(msg) => msg@,
                Error::ValidationFailed => "Error::ValidationFailed"@,
            },
    {
        match self {
            Error::Io(msg) => msg.clone(),
            Error::ValidationFailed => to_owned_string("Error::ValidationFailed"),
        }
    }
}

} // verus!
