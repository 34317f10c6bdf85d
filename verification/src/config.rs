//! The settings of a synchronisation run.
use vstd::prelude::*;
use vstd::string::*;

use crate::paths::{join_path, parent_path, path_join, path_parent};

verus! {

/// The settings, as read from `config.toml`.
#[derive(Debug, Clone)]
pub struct Config {
    /// Endpoint of the remote store, if not the default one.
    pub endpoint: Option<String>,
    /// Access token for the remote store, if any.
    pub token: Option<String>,
    /// The remote location, `s3://bucket/prefix` (anything else is a local target).
    pub remote_path: String,
    /// The local directory.
    pub local_path: String,
    /// The file that the log is appended to.
    pub log_path: String,
    /// Files older than this (in milliseconds) are deleted when `delete_old_files` is set.
    pub max_file_age_ms: u64,
    /// Whether old local files are deleted while scanning.
    pub delete_old_files: bool,
    /// `pull` (remote to local) or `push` (local to remote).
    pub sync_mode: String,
    /// Pause between cycles, in milliseconds.
    pub polling_interval_ms: u64,
    /// Time a cycle's transfers may take, in milliseconds.
    pub timeout_ms: u64,
    /// Regular expression that file names must match to take part.
    pub match_regex: String,
    /// In a pull, whether files missing locally are downloaded again.
    pub refetch_deleted_file: bool,
    /// Version of the settings format.
    pub version: u32,
}

/// The name of the settings file.
pub open spec fn config_file_name() -> Seq<char> {
    seq!['c', 'o', 'n', 'f', 'i', 'g', '.', 't', 'o', 'm', 'l']
}

impl Config {
    /// Where the settings are read from: `config.toml` in the directory of the executable at
    /// `exe_path`; `None` when that path has no parent directory.
    pub fn file_beside(exe_path: &str) -> (r: Option<String>)
        ensures
            match path_parent(exe_path@) {
                Some(dir) => r matches Some(p) && p@ == path_join(dir, config_file_name()),
                None => r is None,
            },
    {
        let name = "config.toml";
        proof {
            reveal_strlit("config.toml");
            assert(name@ =~= config_file_name());
        }
        match parent_path(exe_path) {
            Some(dir) => Some(join_path(dir.as_str(), name)),
            None => None,
        }
    }
}

} // verus!
