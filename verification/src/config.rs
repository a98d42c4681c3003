//! Environments and store configuration.
//!
//! The configuration is read into a `StoreConfig` value and passed on explicitly; the process
//! environment is never changed.

use vstd::prelude::*;
use crate::error::AppError;
use crate::text::{trim, lower, trim_str, to_ascii_lowercase, str_eq};

verus! {

/// `std::path::PathBuf`, carried through opaquely: nothing inside a path is read by the logic.
#[verifier::external_type_specification]
#[verifier::external_body]
pub struct ExPathBuf(std::path::PathBuf);

/// `PathBuf::clone`: a copy of the path; nothing about the path is stated.
pub assume_specification[ <std::path::PathBuf as Clone>::clone ](p: &std::path::PathBuf) -> std::path::PathBuf;

#[derive(Debug, Clone, PartialEq, Eq)]
pub struct Environment {
    /// `default` or `<name>`.
    pub name: String,
    /// `Default` or `<name>` with its first character in upper case.
    pub display_name: String,
    pub file_path: std::path::PathBuf,
}

#[derive(Debug, Clone, Copy, PartialEq, Eq)]
pub enum LogFormat {
    Pretty,
    Json,
}

/// The log format that a setting names: `json` in any ASCII case (surrounding whitespace
/// ignored) selects JSON; anything else selects the pretty format.
pub open spec fn log_format_named(s: Seq<char>) -> LogFormat {
    if lower(trim(s)) == "json"@ {
        LogFormat::Json
    } else {
        LogFormat::Pretty
    }
}

impl LogFormat {
    /// The log format that `s` names (see `log_format_named`).
    pub fn from_str(s: &str) -> (r: Self)
        ensures
            r == log_format_named(s@),
    {
        let t = trim_str(s);
        let l = to_ascii_lowercase(t.as_str());
        if str_eq(l.as_str(), "json") {
            LogFormat::Json
        } else {
            LogFormat::Pretty
        }
    }
}

#[derive(Debug, Clone, PartialEq, Eq)]
pub struct StoreConfig {
    pub env_name: String,
    pub shop_domain: String,
    pub access_token: String,
    pub log_format: LogFormat,
    /// Disable the best-effort update check.
    pub disable_update_check: bool,
    /// How often to check for updates on startup (in days).
    pub update_check_days: u64,
}

/// Port: environment discovery and loading.
pub trait EnvironmentService {
    fn detect(&self) -> Result<Vec<Environment>, AppError>;

    fn load_store_config(&self, env: &Environment) -> Result<StoreConfig, AppError>;
}

} // verus!
