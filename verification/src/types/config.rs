//! Repository and program configuration.
use vstd::prelude::*;
use crate::types::package::PackageFormat;

verus! {

/// The priority a repository has when its configuration names none.
pub const DEFAULT_REPO_PRIORITY: u32 = 100;

/// One configured package repository.
#[derive(Debug, Clone)]
pub struct RepoConfig {
    pub source: RepoSource,
    pub priority: Option<u32>,
    pub distro: Option<String>,
    pub codename: Option<String>,
    pub components: Option<Vec<String>>,
    pub mirrors: Option<Vec<String>>,
    pub release: Option<String>,
    pub repos: Option<Vec<String>>,
    pub url: Option<String>,
    /// Path to the Ed25519 private key (PEM) that signs Release files.
    pub signing_key: Option<String>,
}

impl RepoConfig {
    /// The configured priority, or the default one.
    pub fn effective_priority(&self) -> (p: u32)
        ensures
            p == match self.priority {
                Some(q) => q,
                None => DEFAULT_REPO_PRIORITY,
            },
    {
        match self.priority {
            Some(q) => q,
            None => DEFAULT_REPO_PRIORITY,
        }
    }
}

/// The kind of a repository.
#[derive(Debug, Clone, Copy, PartialEq, Eq, Structural)]
pub enum RepoSource {
    Deb,
    Rpm,
    Native,
}

/// The name `Display` gives a repository kind.
pub open spec fn repo_source_name(s: RepoSource) -> Seq<char> {
    match s {
        RepoSource::Deb => seq!['d', 'e', 'b'],
        RepoSource::Rpm => seq!['r', 'p', 'm'],
        RepoSource::Native => seq!['n', 'a', 't', 'i', 'v', 'e'],
    }
}

impl RepoSource {
    /// The lower-case name of the repository kind.
    pub fn name(&self) -> (s: String)
        ensures
            s@ == repo_source_name(*self),
    {
        let mut s = String::new();
        match self {
            RepoSource::Deb => {
                s.push('d');
                s.push('e');
                s.push('b');
            },
            RepoSource::Rpm => {
                s.push('r');
                s.push('p');
                s.push('m');
            },
            RepoSource::Native => {
                s.push('n');
                s.push('a');
                s.push('t');
                s.push('i');
                s.push('v');
                s.push('e');
            },
        }
        proof {
            assert(s@ =~= repo_source_name(*self));
        }
        s
    }
}

/// Program-wide settings; every one is optional.
#[derive(Debug, Clone)]
pub struct SpmConfig {
    pub db_path: Option<String>,
    pub cache_path: Option<String>,
    pub sandbox_path: Option<String>,
    pub log_level: Option<String>,
    pub auto_snapshot: Option<bool>,
    pub prefer_newest: Option<bool>,
    pub auto_update_interval: Option<u64>,
    /// Preferred repository source: "apt", "dnf" or "native".
    pub preferred_source: Option<String>,
}

impl Default for SpmConfig {
    fn default() -> (c: SpmConfig)
        ensures
            c.db_path is None,
            c.cache_path is None,
            c.sandbox_path is None,
            c.log_level is None,
            c.auto_snapshot is None,
            c.prefer_newest is None,
            c.auto_update_interval is None,
            c.preferred_source is None,
    {
        SpmConfig {
            db_path: None,
            cache_path: None,
            sandbox_path: None,
            log_level: None,
            auto_snapshot: None,
            prefer_newest: None,
            auto_update_interval: None,
            preferred_source: None,
        }
    }
}

/// How strictly a package is confined.
#[derive(Debug, Clone, Copy, PartialEq, Eq, Structural)]
pub enum SandboxLevel {
    /// No confinement (`"none"` in configuration files).
    Off,
    Standard,
    Strict,
    Full,
}

/// A package installed for one user.
#[derive(Debug, Clone)]
pub struct UserInstall {
    pub user_id: u32,
    pub package_name: String,
    pub package_format: PackageFormat,
    pub package_hash: String,
    pub installed_at: String,
}

/// One package entry in a remote repository index.
#[derive(Debug, Clone)]
pub struct RepoIndexRecord {
    pub name: String,
    pub version: String,
    pub architecture: String,
    pub description: String,
    pub dependencies: Vec<String>,
    pub provides_soname: Vec<String>,
    pub conflicts: Vec<String>,
    pub filename: String,
    pub hash: String,
    pub size: u64,
}

/// The index file of a native repository.
#[derive(Debug, Clone)]
pub struct RepoIndex {
    pub repo_name: String,
    pub format_version: u32,
    pub packages: Vec<RepoIndexRecord>,
}

} // verus!
