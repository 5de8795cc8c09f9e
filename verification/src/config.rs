//! The settings of one run and the options that override them.

use crate::error::{IoError, IoErrorKind};
use crate::weburl::Url;
use vstd::prelude::*;
use vstd::string::StringExecFns;

pub mod default;

verus! {

/// The name under which the tool keeps its files.
pub const APP: &'static str = "bitcli";

/// Why the settings of a run could not be had.
#[derive(Debug, PartialEq, Eq)]
pub enum ConfigError {
    /// The configuration file, or one that it imports, cannot be read as
    /// settings.
    Load(String),
    /// The platform does not say where configuration files are kept.
    Xdg(String),
    /// The configuration file cannot be found or reached.
    Io(IoError),
}

/// The settings of one run, as the pipeline reads them.
#[derive(PartialEq, Eq)]
pub struct Config {
    /// The address of the remote service.
    pub api_url: Url,
    /// The access token that goes with every request.
    pub api_token: String,
    /// The domain to create short links under, if one is chosen.
    pub domain: Option<String>,
    /// The group to create short links under. Where there is none, the
    /// group is asked of the remote service for each link.
    pub default_group_guid: Option<String>,
    /// The directory of the cache. An empty path disables caching.
    pub cache_dir: Option<String>,
    /// Whether remote requests are forbidden.
    pub offline: bool,
    /// The number of requests that may be in flight at once.
    pub max_concurrent: usize,
}

/// Settings given on the command line. Those that are present replace the
/// ones of the configuration file.
#[derive(Debug, PartialEq, Eq)]
pub struct Options {
    pub domain: Option<String>,
    pub group_guid: Option<String>,
    pub cache_dir: Option<String>,
    pub offline: Option<bool>,
    /// Never `Some(0)` in options built by this library.
    pub max_concurrent: Option<usize>,
}

impl Default for Options {
    fn default() -> (r: Self)
        ensures
            r == Options::spec_default(),
    {
        Options { domain: None, group_guid: None, cache_dir: None, offline: None, max_concurrent: None }
    }
}

impl Options {
    /// The options that override nothing.
    pub open spec fn spec_default() -> Options {
        Options { domain: None, group_guid: None, cache_dir: None, offline: None, max_concurrent: None }
    }

    /// A bound on the requests in flight, where one is given, is at least 1.
    pub open spec fn wf(&self) -> bool {
        self.max_concurrent != Some(0usize)
    }
}

impl Config {
    /// The pipeline needs room for at least one request in flight.
    pub open spec fn wf(&self) -> bool {
        self.max_concurrent >= 1
    }

    /// These settings with every option that is present in `ops` put in
    /// place of the setting it stands for.
    pub open spec fn spec_override_with(self, ops: Options) -> Config {
        Config {
            api_url: self.api_url,
            api_token: self.api_token,
            domain: if ops.domain is Some { ops.domain } else { self.domain },
            default_group_guid: if ops.group_guid is Some {
                ops.group_guid
            } else {
                self.default_group_guid
            },
            cache_dir: if ops.cache_dir is Some { ops.cache_dir } else { self.cache_dir },
            offline: match ops.offline {
                Some(offline) => offline,
                None => self.offline,
            },
            max_concurrent: match ops.max_concurrent {
                Some(max_concurrent) => max_concurrent,
                None => self.max_concurrent,
            },
        }
    }

    /// Replaces the settings for which `ops` holds a value and keeps the
    /// others.
    pub fn override_with(&mut self, ops: Options)
        ensures
            *final(self) == old(self).spec_override_with(ops),
            old(self).wf() && ops.wf() ==> final(self).wf(),
    {
        if ops.domain.is_some() {
            self.domain = ops.domain;
        }
        if ops.group_guid.is_some() {
            self.default_group_guid = ops.group_guid;
        }
        if ops.cache_dir.is_some() {
            self.cache_dir = ops.cache_dir;
        }
        if let Some(offline) = ops.offline {
            self.offline = offline;
        }
        if let Some(max_concurrent) = ops.max_concurrent {
            self.max_concurrent = max_concurrent;
        }
    }

    /// The access token.
    pub fn api_token(&self) -> (r: &str)
        ensures
            r@ == self.api_token@,
    {
        self.api_token.as_str()
    }

    /// Puts another address in place of the one of the remote service.
    pub fn with_api_url(&mut self, api_url: Url)
        ensures
            *final(self) == (Config { api_url, ..*old(self) }),
    {
        self.api_url = api_url;
    }
}

/// The directory that relative imports of a configuration file start
/// from.
#[derive(Debug, PartialEq, Eq)]
pub enum ConfigDir {
    /// The directory that the process runs in.
    Current,
    /// This directory.
    Given(String),
}

/// Where the file that a configuration file imports is looked for.
#[derive(Debug, PartialEq, Eq)]
pub enum ImportPath {
    /// Below the user's home directory, at this path.
    Home(String),
    /// Below the directory of the configuration file, at this path.
    ConfigDir(String),
    /// At this path, as it stands.
    Absolute(String),
}

/// The directory of a configuration file, given the parent of its path:
/// the parent itself, or the current directory where the path is a bare
/// file name. A path without a parent names no file.
pub fn get_config_dir(parent: Option<String>) -> (r: Result<ConfigDir, IoError>)
    ensures
        match parent {
            None => r matches Err(failure) && failure.kind == IoErrorKind::Other && failure.message@
                == "config file has no parent directory"@,
            Some(path) => r == Ok::<ConfigDir, IoError>(
                if path@.len() == 0 {
                    ConfigDir::Current
                } else {
                    ConfigDir::Given(path)
                },
            ),
        },
{
    match parent {
        None => Err(
            IoError {
                kind: IoErrorKind::Other,
                message: String::from_str("config file has no parent directory"),
            },
        ),
        Some(path) => {
            if path.as_str().is_empty() {
                Ok(ConfigDir::Current)
            } else {
                Ok(ConfigDir::Given(path))
            }
        },
    }
}

/// Where an imported file is looked for. `home_relative` is what is left
/// of `path` behind a leading `~`, where it has one; `relative` says
/// whether `path` is relative. A path below `~` is looked for in the home
/// directory, any other relative path beside the configuration file.
pub fn resolve_import_path(home_relative: Option<String>, relative: bool, path: String) -> (r:
    ImportPath)
    ensures
        r == match home_relative {
            Some(rest) => ImportPath::Home(rest),
            None => if relative {
                ImportPath::ConfigDir(path)
            } else {
                ImportPath::Absolute(path)
            },
        },
{
    match home_relative {
        Some(rest) => ImportPath::Home(rest),
        None => {
            if relative {
                ImportPath::ConfigDir(path)
            } else {
                ImportPath::Absolute(path)
            }
        },
    }
}

} // verus!
