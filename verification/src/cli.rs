//! What the command line says, once it is parsed, and what it overrides
//! in the settings.

use crate::api::{copy_text, text_of};
use crate::config::{ConfigError, Options};
use crate::error::{IoError, IoErrorKind};
use crate::weburl::Url;
use vstd::prelude::*;
use vstd::string::StringExecFns;

verus! {

/// The order in which results leave the pipeline.
#[derive(Clone, Copy, Debug, PartialEq, Eq, Structural)]
pub enum OutputOrder {
    /// Results follow the order of the input.
    Ordered,
    /// Results follow the order in which the operations finish; each is
    /// handed out together with the position of its input.
    Unordered,
}

impl Default for OutputOrder {
    fn default() -> (r: Self)
        ensures
            r == OutputOrder::Ordered,
    {
        OutputOrder::Ordered
    }
}

/// The arguments of the command that shortens URLs.
#[derive(Debug, PartialEq, Eq)]
pub struct ShortenArgs {
    /// The URLs to shorten. Where there are none, they are read from the
    /// input.
    pub urls: Vec<Url>,
    /// The number of requests that may be in flight at once.
    pub max_concurrent: u64,
    /// The order of the output.
    pub ordering: OutputOrder,
    /// The domain to create links under.
    pub domain: Option<String>,
    /// The group to create links under.
    pub group_guid: Option<String>,
}

/// The commands of the tool.
#[derive(Debug, PartialEq, Eq)]
pub enum Command {
    /// Shorten URLs and print the results.
    Shorten(ShortenArgs),
}

/// The command line as a whole.
#[derive(Debug, PartialEq, Eq)]
pub struct Cli {
    /// The command, where one is named.
    pub command: Option<Command>,
    /// Another path to the configuration file.
    pub config_file: Option<String>,
    /// Another path to the directory of the cache.
    pub cache_dir: Option<String>,
    /// Whether the cache is switched off for this run. It counts for more
    /// than `cache_dir`.
    pub no_cache: bool,
    /// Whether remote requests are forbidden.
    pub offline: bool,
    /// The arguments of the command that is meant where none is named.
    pub shorten: ShortenArgs,
}

/// The name of the configuration file that is looked for where none is
/// given.
pub const CONFIG_FILE: &'static str = "config.toml";

impl Cli {
    /// The path of the configuration file: the one given on the command
    /// line or, failing that, the one that was `found` in the place where
    /// the platform keeps such files.
    pub fn config_file(&self, found: Option<String>) -> (r: Result<String, ConfigError>)
        ensures
            match r {
                Ok(path) => match self.config_file {
                    Some(given) => path == given,
                    None => found == Some(path),
                },
                Err(error) => {
                    &&& self.config_file is None
                    &&& found is None
                    &&& error matches ConfigError::Io(failure)
                    &&& failure.kind == IoErrorKind::Other
                    &&& failure.message@ == "missing config.toml"@
                },
            },
    {
        match &self.config_file {
            Some(given) => Ok(given.clone()),
            None => match found {
                Some(path) => Ok(path),
                None => Err(
                    ConfigError::Io(
                        IoError {
                            kind: IoErrorKind::Other,
                            message: String::from_str("missing config.toml"),
                        },
                    ),
                ),
            },
        }
    }

    /// The command that the command line asks for: the one it names, or
    /// else the one that shortens URLs.
    pub fn into_command(self) -> (r: Command)
        ensures
            r == match self.command {
                Some(command) => command,
                None => Command::Shorten(self.shorten),
            },
    {
        match self.command {
            Some(command) => command,
            None => Command::Shorten(self.shorten),
        }
    }
}

impl Options {
    /// What the flags before the command override. A cache that is
    /// switched off is a cache whose directory is the empty path.
    pub fn from_cli(cli: &Cli) -> (r: Options)
        ensures
            r.domain is None,
            r.group_guid is None,
            r.max_concurrent is None,
            r.offline == Some(cli.offline),
            text_of(r.cache_dir) == if cli.no_cache {
                Some(Seq::<char>::empty())
            } else {
                text_of(cli.cache_dir)
            },
            r.wf(),
    {
        let cache_dir = if cli.no_cache {
            Some(String::new())
        } else {
            copy_text(&cli.cache_dir)
        };
        Options {
            domain: None,
            group_guid: None,
            cache_dir,
            offline: Some(cli.offline),
            max_concurrent: None,
        }
    }

    /// What the arguments of the command override. A bound of zero
    /// requests in flight overrides nothing.
    pub fn from_command(command: &Command) -> (r: Options)
        ensures
            ({
                let Command::Shorten(args) = *command;
                &&& r.domain == args.domain
                &&& r.group_guid == args.group_guid
                &&& r.cache_dir is None
                &&& r.offline is None
                &&& r.max_concurrent == if args.max_concurrent as usize == 0 {
                    None
                } else {
                    Some(args.max_concurrent as usize)
                }
            }),
            r.wf(),
    {
        match command {
            Command::Shorten(args) => {
                let bound = #[verifier::truncate]
                (args.max_concurrent as usize);
                Options {
                    domain: copy_text(&args.domain),
                    group_guid: copy_text(&args.group_guid),
                    cache_dir: None,
                    offline: None,
                    max_concurrent: if bound == 0 {
                        None
                    } else {
                        Some(bound)
                    },
                }
            },
        }
    }
}

} // verus!
