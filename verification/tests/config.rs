use bitcli::cli::{Cli, Command, OutputOrder, ShortenArgs};
use bitcli::config::default::{max_concurrent, offline};
use bitcli::config::{
    get_config_dir, resolve_import_path, Config, ConfigDir, ConfigError, ImportPath, Options, APP,
};
use bitcli::error::{IoError, IoErrorKind};
use bitcli::weburl::Url;

fn api_url() -> Url {
    Url::parse("https://api-ssl.bitly.com").expect("valid API URL")
}

fn config() -> Config {
    Config {
        api_url: api_url(),
        api_token: "test-api-token".to_string(),
        domain: None,
        default_group_guid: None,
        cache_dir: None,
        offline: offline(),
        max_concurrent: max_concurrent(),
    }
}

fn args() -> ShortenArgs {
    ShortenArgs {
        urls: vec![],
        max_concurrent: 16,
        ordering: OutputOrder::default(),
        domain: None,
        group_guid: None,
    }
}

fn cli() -> Cli {
    Cli {
        command: None,
        config_file: None,
        cache_dir: None,
        no_cache: false,
        offline: false,
        shorten: args(),
    }
}

#[test]
fn override_options() {
    let mut config = config();

    config.override_with(Options {
        domain: Some("my-domain".to_string()),
        group_guid: None,
        cache_dir: None,
        offline: None,
        max_concurrent: None,
    });

    config.override_with(Options {
        domain: None,
        group_guid: None,
        cache_dir: None,
        offline: Some(true),
        max_concurrent: None,
    });

    let expected = Config {
        api_url: api_url(),
        api_token: "test-api-token".to_string(),
        domain: Some("my-domain".to_string()),
        default_group_guid: None,
        cache_dir: None,
        offline: true,
        max_concurrent: max_concurrent(),
    };

    assert!(expected == config);
}

#[test]
fn defaults() {
    assert_eq!(APP, "bitcli");
    assert!(!offline());
    assert_eq!(max_concurrent(), 16);
    assert_eq!(OutputOrder::default(), OutputOrder::Ordered);
    assert_eq!(
        Options::default(),
        Options { domain: None, group_guid: None, cache_dir: None, offline: None, max_concurrent: None }
    );
}

#[test]
fn override_replaces_every_option_that_is_present() {
    let mut config = Config {
        domain: Some("old-domain".to_string()),
        default_group_guid: Some("old-group".to_string()),
        cache_dir: Some("/old/cache".to_string()),
        offline: true,
        ..config()
    };

    config.override_with(Options {
        domain: Some("new-domain".to_string()),
        group_guid: Some("new-group".to_string()),
        cache_dir: Some(String::new()),
        offline: Some(false),
        max_concurrent: Some(3),
    });

    let expected = Config {
        api_url: api_url(),
        api_token: "test-api-token".to_string(),
        domain: Some("new-domain".to_string()),
        default_group_guid: Some("new-group".to_string()),
        cache_dir: Some(String::new()),
        offline: false,
        max_concurrent: 3,
    };
    assert!(expected == config);

    config.override_with(Options::default());
    assert!(expected == config);
}

#[test]
fn api_token_and_url_accessors() {
    let mut config = config();
    assert_eq!(config.api_token(), "test-api-token");
    let other = Url::parse("http://127.0.0.1:8080").expect("valid URL");
    config.with_api_url(other.clone());
    assert!(config.api_url == other);
    assert_eq!(config.api_token(), "test-api-token");
}

#[test]
fn options_from_cli() {
    let ops = Options::from_cli(&Cli { offline: true, ..cli() });
    assert_eq!(ops, Options { offline: Some(true), ..Options::default() });

    let ops = Options::from_cli(&Cli { cache_dir: Some("/tmp/cache".to_string()), ..cli() });
    assert_eq!(
        ops,
        Options {
            cache_dir: Some("/tmp/cache".to_string()),
            offline: Some(false),
            ..Options::default()
        }
    );

    // NOTE: empty path for the `cache_dir` disables the cache
    let ops = Options::from_cli(&Cli {
        cache_dir: Some("/tmp/cache".to_string()),
        no_cache: true,
        ..cli()
    });
    assert_eq!(
        ops,
        Options { cache_dir: Some(String::new()), offline: Some(false), ..Options::default() }
    );
}

#[test]
fn options_from_command() {
    let command = Command::Shorten(ShortenArgs {
        max_concurrent: 8,
        domain: Some("my-domain".to_string()),
        group_guid: Some("my-group".to_string()),
        ..args()
    });
    assert_eq!(
        Options::from_command(&command),
        Options {
            domain: Some("my-domain".to_string()),
            group_guid: Some("my-group".to_string()),
            cache_dir: None,
            offline: None,
            max_concurrent: Some(8),
        }
    );

    let command = Command::Shorten(ShortenArgs { max_concurrent: 0, ..args() });
    assert_eq!(Options::from_command(&command), Options::default());
}

#[test]
fn command_line_overrides_the_file() {
    let cli = Cli {
        no_cache: true,
        shorten: ShortenArgs { max_concurrent: 2, ..args() },
        ..cli()
    };
    let mut config = Config { cache_dir: Some("/var/cache".to_string()), ..config() };

    config.override_with(Options::from_cli(&cli));
    let command = cli.into_command();
    config.override_with(Options::from_command(&command));

    assert_eq!(config.cache_dir.as_deref(), Some(""));
    assert_eq!(config.max_concurrent, 2);
    assert!(!config.offline);
}

#[test]
fn default_command_shortens() {
    let shorten = ShortenArgs { domain: Some("flat".to_string()), ..args() };
    let named = ShortenArgs { domain: Some("named".to_string()), ..args() };

    let command = Cli { shorten: ShortenArgs { domain: Some("flat".to_string()), ..args() }, ..cli() }
        .into_command();
    assert_eq!(command, Command::Shorten(shorten));

    let command = Cli {
        command: Some(Command::Shorten(ShortenArgs { domain: Some("named".to_string()), ..args() })),
        ..cli()
    }
    .into_command();
    assert_eq!(command, Command::Shorten(named));
}

#[test]
fn config_file_given_or_found() {
    let given = Cli { config_file: Some("/etc/bitcli.toml".to_string()), ..cli() };
    assert_eq!(
        given.config_file(Some("/home/me/.config/bitcli/config.toml".to_string())),
        Ok("/etc/bitcli.toml".to_string())
    );
    assert_eq!(given.config_file(None), Ok("/etc/bitcli.toml".to_string()));

    assert_eq!(
        cli().config_file(Some("/home/me/.config/bitcli/config.toml".to_string())),
        Ok("/home/me/.config/bitcli/config.toml".to_string())
    );
    assert_eq!(
        cli().config_file(None),
        Err(ConfigError::Io(IoError {
            kind: IoErrorKind::Other,
            message: "missing config.toml".to_string(),
        }))
    );
}

#[test]
fn config_dir_is_the_parent_of_the_file() {
    assert_eq!(
        get_config_dir(Some("/etc/bitcli".to_string())),
        Ok(ConfigDir::Given("/etc/bitcli".to_string()))
    );
    assert_eq!(get_config_dir(Some(String::new())), Ok(ConfigDir::Current));
    assert_eq!(
        get_config_dir(None),
        Err(IoError {
            kind: IoErrorKind::Other,
            message: "config file has no parent directory".to_string(),
        })
    );
}

#[test]
fn imports_are_looked_for_by_the_shape_of_their_path() {
    assert_eq!(
        resolve_import_path(Some("auth.toml".to_string()), true, "~/auth.toml".to_string()),
        ImportPath::Home("auth.toml".to_string())
    );
    assert_eq!(
        resolve_import_path(None, true, "auth.toml".to_string()),
        ImportPath::ConfigDir("auth.toml".to_string())
    );
    assert_eq!(
        resolve_import_path(None, false, "/etc/auth.toml".to_string()),
        ImportPath::Absolute("/etc/auth.toml".to_string())
    );
}
