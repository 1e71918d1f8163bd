//! Application state: the configured log directory, the events read so far
//! and the log file being followed; and how a log path given by the user is
//! resolved against the log directory.
//!
//! Paths are handled as strings; whether a path is absolute and what joining
//! two paths gives are decided by the target platform's path rules
//! (`std::path`).
use crate::event_models::CombatEvent;
use vstd::prelude::*;
use vstd::string::*;

verus! {

/// Whether `p` is an absolute path under the target platform's path rules.
pub uninterp spec fn absolute_path(p: Seq<char>) -> bool;

/// The path `p` adjoined to `base` under the target platform's path rules.
pub uninterp spec fn joined_path(base: Seq<char>, p: Seq<char>) -> Seq<char>;

/// Calls `Path::is_absolute` on the path written as `p`. Claimed: the result
/// is [`absolute_path`] of `p`, a function of `p` alone.
#[verifier::external_body]
fn is_absolute_path(p: &str) -> (r: bool)
    ensures
        r == absolute_path(p@),
{
    std::path::Path::new(p).is_absolute()
}

/// Calls `Path::join` and writes the joined path back as a string (joining
/// two UTF-8 paths gives a UTF-8 path, so nothing is lost). Claimed: the
/// result is [`joined_path`] of the two, a function of them alone.
#[verifier::external_body]
fn join_paths(base: &str, p: &str) -> (r: String)
    ensures
        r@ == joined_path(base@, p@),
{
    std::path::Path::new(base).join(p).to_string_lossy().into_owned()
}

/// Application configuration.
#[derive(Debug, Clone)]
pub struct AppConfig {
    pub log_directory: String,
}

impl Default for AppConfig {
    fn default() -> (r: Self)
        ensures
            r.log_directory@ == "/home/prescott/baras/test-log-files/"@,
    {
        Self { log_directory: String::from_str("/home/prescott/baras/test-log-files/") }
    }
}

/// The path a log file given as `path` resolves to: itself when absolute,
/// else joined to the log directory.
pub open spec fn resolved_path(log_directory: Seq<char>, path: Seq<char>) -> Seq<char> {
    if absolute_path(path) {
        path
    } else {
        joined_path(log_directory, path)
    }
}

/// Resolve a log file path, joining with log_directory if relative.
pub fn resolve_log_path(config: &AppConfig, path: &str) -> (r: String)
    ensures
        r@ == resolved_path(config.log_directory@, path@),
{
    if is_absolute_path(path) {
        path.to_owned()
    } else {
        join_paths(config.log_directory.as_str(), path)
    }
}

/// Application state: the events read, how far the log was read, the
/// configuration and the log file being followed.
#[derive(Debug)]
pub struct AppState {
    pub events: Vec<CombatEvent>,
    pub current_byte: Option<u64>,
    pub config: AppConfig,
    pub active_file: Option<String>,
}

impl Default for AppState {
    fn default() -> (r: Self)
        ensures
            r.events@.len() == 0,
            r.current_byte is None,
            r.config.log_directory@ == "/home/prescott/baras/test-log-files/"@,
            r.active_file is None,
    {
        AppState::with_config(AppConfig::default())
    }
}

impl AppState {
    /// A state with the given configuration and nothing read yet.
    pub fn with_config(config: AppConfig) -> (r: Self)
        ensures
            r.events@.len() == 0,
            r.current_byte is None,
            r.config.log_directory@ == config.log_directory@,
            r.active_file is None,
    {
        AppState { events: Vec::new(), current_byte: None, config, active_file: None }
    }

    /// Makes the log file given as `path` the active one, resolved against
    /// the log directory when relative, and returns the resolved path.
    pub fn set_active_file(&mut self, path: &str) -> (r: String)
        ensures
            r@ == resolved_path(old(self).config.log_directory@, path@),
            final(self).active_file matches Some(f) && f@ == r@,
            final(self).events@ == old(self).events@,
            final(self).current_byte == old(self).current_byte,
            final(self).config.log_directory@ == old(self).config.log_directory@,
    {
        // A path is relative exactly when it is not absolute.
        let resolved = if !is_absolute_path(path) {
            join_paths(self.config.log_directory.as_str(), path)
        } else {
            path.to_owned()
        };
        self.active_file = Some(resolved.clone());
        resolved
    }
}

} // verus!
