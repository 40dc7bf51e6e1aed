//! Configuration from command line, environment and TOML file.
//!
//! Precedence at merge time: CLI > env (`WAVELOG_RELAY_*`) > TOML > defaults;
//! what the environment sets arrives in the command-line values. The optional
//! TOML file is looked for at `$XDG_CONFIG_HOME/wavelog-relay/config.toml` (or
//! `$HOME/.config/...`) unless its path is given.
//!
//! The Wavelog API key is resolved separately from the rest of the settings to
//! keep it off `argv`: `WAVELOG_RELAY_KEY` (raw value) wins over a key file.
use crate::addr::SocketAddr;
use crate::binary32::Binary32;
use crate::duration::Duration;
use crate::modes::{HamlibMode, ModeOverrides};
use crate::path;
use crate::path::FilePath;
use crate::rigctld::endpoint::Endpoint;
use crate::text;
use crate::wavelog::url;
use vstd::prelude::*;

verus! {

/// 127.0.0.1
pub const LOOPBACK: u32 = 0x7f00_0001;

pub const DEFAULT_RIGCTLD_PORT: u16 = 4532;

pub const DEFAULT_LISTEN_PORT: u16 = 54321;

pub const DEFAULT_WS_LISTEN_PORT: u16 = 54322;

pub const DEFAULT_WSJTX_LISTEN_PORT: u16 = 2237;

/// Bits of 100.0.
pub const DEFAULT_POWER_MAX_BITS: u32 = 0x42c8_0000;

pub const DEFAULT_POLL_INTERVAL_SECS: u64 = 1;

pub const DEFAULT_RIG_TIMEOUT_SECS: u64 = 5;

/// Subcommands that bypass the daemon and exit after running.
#[derive(Debug, Clone, Copy, PartialEq, Eq, Structural)]
pub enum Command {
    /// List Wavelog station profile IDs (one-shot).
    Stations,
}

/// What the command line (or the environment behind it) sets.
#[derive(Debug)]
pub struct Cli {
    /// When omitted, the daemon runs.
    pub command: Option<Command>,
    pub rigctld: Option<Endpoint>,
    pub wavelog_url: Option<String>,
    pub radio: Option<String>,
    pub key_file: Option<FilePath>,
    pub power_max: Option<Binary32>,
    pub listen: Option<SocketAddr>,
    pub ws_listen: Option<SocketAddr>,
    pub no_ws: bool,
    pub wsjtx: bool,
    pub wsjtx_listen: Option<SocketAddr>,
    pub station_id: Option<String>,
    pub qso_queue_path: Option<FilePath>,
    pub interval: Option<Duration>,
    pub rig_timeout: Option<Duration>,
    pub config: Option<FilePath>,
    pub log_level: Option<String>,
}

impl Default for Cli {
    fn default() -> (cli: Self)
        ensures
            cli == (Cli {
                command: None,
                rigctld: None,
                wavelog_url: None,
                radio: None,
                key_file: None,
                power_max: None,
                listen: None,
                ws_listen: None,
                no_ws: false,
                wsjtx: false,
                wsjtx_listen: None,
                station_id: None,
                qso_queue_path: None,
                interval: None,
                rig_timeout: None,
                config: None,
                log_level: None,
            }),
    {
        Cli {
            command: None,
            rigctld: None,
            wavelog_url: None,
            radio: None,
            key_file: None,
            power_max: None,
            listen: None,
            ws_listen: None,
            no_ws: false,
            wsjtx: false,
            wsjtx_listen: None,
            station_id: None,
            qso_queue_path: None,
            interval: None,
            rig_timeout: None,
            config: None,
            log_level: None,
        }
    }
}

/// What the TOML file sets.
#[derive(Debug)]
pub struct TomlConfig {
    pub rigctld: Option<Endpoint>,
    pub wavelog_url: Option<String>,
    pub radio: Option<String>,
    pub power_max: Option<Binary32>,
    pub listen: Option<SocketAddr>,
    pub ws_listen: Option<SocketAddr>,
    pub no_ws: Option<bool>,
    pub wsjtx: Option<bool>,
    pub wsjtx_listen: Option<SocketAddr>,
    pub station_id: Option<String>,
    pub qso_queue_path: Option<FilePath>,
    pub interval: Option<Duration>,
    pub rig_timeout: Option<Duration>,
    pub log_level: Option<String>,
    pub mode_overrides: ModeOverrides,
}

/// The ambiguous modes' targets where nothing sets them.
pub open spec fn default_overrides() -> ModeOverrides {
    ModeOverrides { pkt: HamlibMode::PktUsb, dig: HamlibMode::PktUsb }
}

impl Default for TomlConfig {
    fn default() -> (toml: Self)
        ensures
            toml == (TomlConfig {
                rigctld: None,
                wavelog_url: None,
                radio: None,
                power_max: None,
                listen: None,
                ws_listen: None,
                no_ws: None,
                wsjtx: None,
                wsjtx_listen: None,
                station_id: None,
                qso_queue_path: None,
                interval: None,
                rig_timeout: None,
                log_level: None,
                mode_overrides: default_overrides(),
            }),
    {
        TomlConfig {
            rigctld: None,
            wavelog_url: None,
            radio: None,
            power_max: None,
            listen: None,
            ws_listen: None,
            no_ws: None,
            wsjtx: None,
            wsjtx_listen: None,
            station_id: None,
            qso_queue_path: None,
            interval: None,
            rig_timeout: None,
            log_level: None,
            mode_overrides: ModeOverrides::default(),
        }
    }
}

/// Fully-resolved runtime configuration.
#[derive(Debug)]
pub struct Config {
    pub rigctld_endpoint: Endpoint,
    pub rig_timeout: Duration,
    pub wavelog_url: String,
    /// The origin of `wavelog_url`, fit for an HTTP header.
    pub wavelog_origin: String,
    pub radio: String,
    pub key: String,
    pub power_max_watts: Binary32,
    pub listen_addr: SocketAddr,
    pub ws_listen_addr: SocketAddr,
    pub no_ws: bool,
    pub wsjtx: bool,
    pub wsjtx_listen_addr: SocketAddr,
    /// Wavelog station profile ID for QSO submissions. Always there where
    /// `wsjtx` is true: enabling WSJT-X without one is an error.
    pub station_id: Option<String>,
    /// Path of the persistent QSO queue; only opened where `wsjtx` is true.
    pub qso_queue_path: FilePath,
    pub poll_interval: Duration,
    pub log_level: String,
    pub mode_overrides: ModeOverrides,
}

/// Why there is no configuration.
#[derive(Debug)]
pub enum ConfigError {
    MissingWavelogUrl,
    MissingRadio,
    MissingKey,
    MissingStationId,
    InvalidWavelogUrl(String),
    InvalidPowerMax(Binary32),
    InvalidInterval,
    InvalidRigTimeout,
    ConfigNotFound(FilePath),
    ConfigInvalidUtf8(FilePath),
    ConfigRead { path: FilePath, source: String },
    ConfigParse { path: FilePath, message: String },
    KeyFileRead { path: FilePath, source: String },
    KeyFileInvalidUtf8(FilePath),
    EmptyKeyFile(FilePath),
}

/// What an error says.
#[verifier::ext_equal]
pub enum ConfigErrorView {
    MissingWavelogUrl,
    MissingRadio,
    MissingKey,
    MissingStationId,
    InvalidWavelogUrl(Seq<char>),
    InvalidPowerMax(Binary32),
    InvalidInterval,
    InvalidRigTimeout,
    ConfigNotFound(Seq<u8>),
    ConfigInvalidUtf8(Seq<u8>),
    ConfigRead { path: Seq<u8>, source: Seq<char> },
    ConfigParse { path: Seq<u8>, message: Seq<char> },
    KeyFileRead { path: Seq<u8>, source: Seq<char> },
    KeyFileInvalidUtf8(Seq<u8>),
    EmptyKeyFile(Seq<u8>),
}

impl View for ConfigError {
    type V = ConfigErrorView;

    open spec fn view(&self) -> ConfigErrorView {
        match self {
            ConfigError::MissingWavelogUrl => ConfigErrorView::MissingWavelogUrl,
            ConfigError::MissingRadio => ConfigErrorView::MissingRadio,
            ConfigError::MissingKey => ConfigErrorView::MissingKey,
            ConfigError::MissingStationId => ConfigErrorView::MissingStationId,
            ConfigError::InvalidWavelogUrl(u) => ConfigErrorView::InvalidWavelogUrl(u@),
            ConfigError::InvalidPowerMax(p) => ConfigErrorView::InvalidPowerMax(*p),
            ConfigError::InvalidInterval => ConfigErrorView::InvalidInterval,
            ConfigError::InvalidRigTimeout => ConfigErrorView::InvalidRigTimeout,
            ConfigError::ConfigNotFound(p) => ConfigErrorView::ConfigNotFound(p@),
            ConfigError::ConfigInvalidUtf8(p) => ConfigErrorView::ConfigInvalidUtf8(p@),
            ConfigError::ConfigRead { path, source } => ConfigErrorView::ConfigRead {
                path: path@,
                source: source@,
            },
            ConfigError::ConfigParse { path, message } => ConfigErrorView::ConfigParse {
                path: path@,
                message: message@,
            },
            ConfigError::KeyFileRead { path, source } => ConfigErrorView::KeyFileRead {
                path: path@,
                source: source@,
            },
            ConfigError::KeyFileInvalidUtf8(p) => ConfigErrorView::KeyFileInvalidUtf8(p@),
            ConfigError::EmptyKeyFile(p) => ConfigErrorView::EmptyKeyFile(p@),
        }
    }
}

/// A text that an HTTP header can hold: no control characters but the tab.
pub open spec fn fits_header(s: Seq<char>) -> bool {
    let b = vstd::utf8::encode_utf8(s);
    forall|i: int| 0 <= i < b.len() ==> (#[trigger] b[i]) == 9 || (b[i] >= 32 && b[i] != 127)
}

/// `axum::http::HeaderValue::from_str`: succeeds exactly on texts whose UTF-8
/// bytes are all a tab, or 32 and above without 127.
#[verifier::external_body]
fn is_header_value(s: &str) -> (yes: bool)
    ensures
        yes == fits_header(s@),
{
    axum::http::HeaderValue::from_str(s).is_ok()
}

/// An origin, where there is one and it is fit for a header.
pub open spec fn usable(origin: Option<Seq<char>>) -> Option<Seq<char>> {
    match origin {
        Some(o) => if fits_header(o) {
            Some(o)
        } else {
            None
        },
        None => None,
    }
}

/// Takes the origin of a Wavelog URL. A text that is no URL, or whose origin is
/// opaque, is refused.
pub fn parse_origin(wavelog_url: &str) -> (parsed: Result<String, ConfigError>)
    requires
        url::shallow_origin(wavelog_url@),
    ensures
        match parsed {
            Ok(origin) => usable(url::url_origin(wavelog_url@)) == Some(origin@),
            Err(e) => usable(url::url_origin(wavelog_url@)) is None && e@
                == ConfigErrorView::InvalidWavelogUrl(wavelog_url@),
        },
{
    accept_origin(wavelog_url, url::origin_of(wavelog_url))
}

/// Decides on the origin that was found for a Wavelog URL.
pub fn accept_origin(wavelog_url: &str, origin: Option<String>) -> (accepted: Result<
    String,
    ConfigError,
>)
    ensures
        match accepted {
            Ok(o) => usable(text::text_view(origin)) == Some(o@),
            Err(e) => usable(text::text_view(origin)) is None && e@
                == ConfigErrorView::InvalidWavelogUrl(wavelog_url@),
        },
{
    match origin {
        Some(origin) => if is_header_value(origin.as_str()) {
            Ok(origin)
        } else {
            Err(ConfigError::InvalidWavelogUrl(wavelog_url.to_owned()))
        },
        None => Err(ConfigError::InvalidWavelogUrl(wavelog_url.to_owned())),
    }
}

/// The first of two values that is set.
pub open spec fn either<T>(first: Option<T>, second: Option<T>) -> Option<T> {
    match first {
        Some(v) => Some(v),
        None => second,
    }
}

/// The first of two values that is set, or the default.
pub open spec fn layered<T>(cli: Option<T>, toml: Option<T>, default: T) -> T {
    match either(cli, toml) {
        Some(v) => v,
        None => default,
    }
}

fn pick<T>(first: Option<T>, second: Option<T>) -> (v: Option<T>)
    ensures
        v == either(first, second),
{
    match first {
        Some(v) => Some(v),
        None => second,
    }
}

fn pick_or<T>(cli: Option<T>, toml: Option<T>, default: T) -> (v: T)
    ensures
        v == layered(cli, toml, default),
{
    match cli {
        Some(v) => v,
        None => match toml {
            Some(v) => v,
            None => default,
        },
    }
}

/// A switch that either the command line or the file turns on.
pub open spec fn switched_on(cli: bool, toml: Option<bool>) -> bool {
    cli || toml == Some(true)
}

/// A loopback address with this port.
pub open spec fn loopback(port: u16) -> SocketAddr {
    SocketAddr::V4 { ip: LOOPBACK, port }
}

/// The rig's maximum power, in watts.
pub open spec fn merged_power_max(cli: Cli, toml: TomlConfig) -> Binary32 {
    layered(cli.power_max, toml.power_max, Binary32 { bits: DEFAULT_POWER_MAX_BITS })
}

pub open spec fn merged_interval(cli: Cli, toml: TomlConfig) -> Duration {
    layered(
        cli.interval,
        toml.interval,
        Duration { secs: DEFAULT_POLL_INTERVAL_SECS, nanos: 0 },
    )
}

pub open spec fn merged_rig_timeout(cli: Cli, toml: TomlConfig) -> Duration {
    layered(
        cli.rig_timeout,
        toml.rig_timeout,
        Duration { secs: DEFAULT_RIG_TIMEOUT_SECS, nanos: 0 },
    )
}

/// The origin of the Wavelog URL that is set.
pub open spec fn set_origin(cli: Cli, toml: TomlConfig) -> Option<Seq<char>> {
    match either(cli.wavelog_url, toml.wavelog_url) {
        Some(u) => url::url_origin(u@),
        None => None,
    }
}

/// The origin of the Wavelog URL that is set, if any is, can be looked for.
pub open spec fn origin_is_shallow(cli: Cli, toml: TomlConfig) -> bool {
    match either(cli.wavelog_url, toml.wavelog_url) {
        Some(u) => url::shallow_origin(u@),
        None => true,
    }
}

/// Tells whether the origin of the Wavelog URL that is set can be looked for.
pub fn has_shallow_origin(cli: &Cli, toml: &TomlConfig) -> (yes: bool)
    ensures
        yes == origin_is_shallow(*cli, *toml),
{
    match (&cli.wavelog_url, &toml.wavelog_url) {
        (Some(u), _) => url::has_shallow_origin(u.as_str()),
        (None, Some(u)) => url::has_shallow_origin(u.as_str()),
        (None, None) => true,
    }
}

fn find_origin(cli: &Cli, toml: &TomlConfig) -> (origin: Option<String>)
    requires
        origin_is_shallow(*cli, *toml),
    ensures
        text::text_view(origin) == set_origin(*cli, *toml),
{
    match (&cli.wavelog_url, &toml.wavelog_url) {
        (Some(u), _) => url::origin_of(u.as_str()),
        (None, Some(u)) => url::origin_of(u.as_str()),
        (None, None) => None,
    }
}

/// What is wrong with the settings, where `origin` is the origin of the Wavelog
/// URL that is set; the first thing where there are several.
pub open spec fn merge_error(
    cli: Cli,
    toml: TomlConfig,
    origin: Option<Seq<char>>,
) -> Option<ConfigErrorView> {
    let wavelog_url = either(cli.wavelog_url, toml.wavelog_url);
    let power_max = merged_power_max(cli, toml);
    if wavelog_url is None {
        Some(ConfigErrorView::MissingWavelogUrl)
    } else if usable(origin) is None {
        Some(ConfigErrorView::InvalidWavelogUrl(wavelog_url->Some_0@))
    } else if either(cli.radio, toml.radio) is None {
        Some(ConfigErrorView::MissingRadio)
    } else if !(power_max.spec_is_finite() && power_max.value() > 0) {
        Some(ConfigErrorView::InvalidPowerMax(power_max))
    } else if switched_on(cli.wsjtx, toml.wsjtx) && either(
        cli.station_id,
        toml.station_id,
    ) is None {
        Some(ConfigErrorView::MissingStationId)
    } else if merged_interval(cli, toml).total() == 0 {
        Some(ConfigErrorView::InvalidInterval)
    } else if merged_rig_timeout(cli, toml).total() == 0 {
        Some(ConfigErrorView::InvalidRigTimeout)
    } else {
        None
    }
}

/// The settings make up this configuration, where `origin` is the origin of the
/// Wavelog URL that is set.
pub open spec fn is_merged(
    cli: Cli,
    toml: TomlConfig,
    key: String,
    default_queue: FilePath,
    origin: Option<Seq<char>>,
    config: Config,
) -> bool {
    &&& config.rigctld_endpoint == layered(
        cli.rigctld,
        toml.rigctld,
        Endpoint::Resolved(loopback(DEFAULT_RIGCTLD_PORT)),
    )
    &&& config.rig_timeout == merged_rig_timeout(cli, toml)
    &&& Some(config.wavelog_url) == either(cli.wavelog_url, toml.wavelog_url)
    &&& usable(origin) == Some(config.wavelog_origin@)
    &&& Some(config.radio) == either(cli.radio, toml.radio)
    &&& config.key == key
    &&& config.power_max_watts == merged_power_max(cli, toml)
    &&& config.listen_addr == layered(cli.listen, toml.listen, loopback(DEFAULT_LISTEN_PORT))
    &&& config.ws_listen_addr == layered(
        cli.ws_listen,
        toml.ws_listen,
        loopback(DEFAULT_WS_LISTEN_PORT),
    )
    &&& config.no_ws == switched_on(cli.no_ws, toml.no_ws)
    &&& config.wsjtx == switched_on(cli.wsjtx, toml.wsjtx)
    &&& config.wsjtx_listen_addr == layered(
        cli.wsjtx_listen,
        toml.wsjtx_listen,
        loopback(DEFAULT_WSJTX_LISTEN_PORT),
    )
    &&& config.station_id == either(cli.station_id, toml.station_id)
    &&& config.qso_queue_path == layered(cli.qso_queue_path, toml.qso_queue_path, default_queue)
    &&& config.poll_interval == merged_interval(cli, toml)
    &&& match either(cli.log_level, toml.log_level) {
        Some(level) => config.log_level == level,
        None => config.log_level@ == "info"@,
    }
    &&& config.mode_overrides == toml.mode_overrides
}

impl Config {
    /// Resolves command line, TOML file and defaults into a configuration.
    pub fn merge(cli: Cli, toml: TomlConfig, key: String, default_queue: FilePath) -> (merged:
        Result<Config, ConfigError>)
        requires
            origin_is_shallow(cli, toml),
        ensures
            match merged {
                Ok(config) => merge_error(cli, toml, set_origin(cli, toml)) is None && is_merged(
                    cli,
                    toml,
                    key,
                    default_queue,
                    set_origin(cli, toml),
                    config,
                ),
                Err(e) => merge_error(cli, toml, set_origin(cli, toml)) == Some(e@),
            },
    {
        let origin = find_origin(&cli, &toml);
        Config::merge_with_origin(cli, toml, key, default_queue, origin)
    }

    /// Resolves command line, TOML file and defaults into a configuration, where
    /// `origin` is what was found as the origin of the Wavelog URL that is set.
    pub fn merge_with_origin(
        cli: Cli,
        toml: TomlConfig,
        key: String,
        default_queue: FilePath,
        origin: Option<String>,
    ) -> (merged: Result<Config, ConfigError>)
        ensures
            match merged {
                Ok(config) => merge_error(cli, toml, text::text_view(origin)) is None && is_merged(
                    cli,
                    toml,
                    key,
                    default_queue,
                    text::text_view(origin),
                    config,
                ),
                Err(e) => merge_error(cli, toml, text::text_view(origin)) == Some(e@),
            },
    {
        let rigctld_endpoint = pick_or(
            cli.rigctld,
            toml.rigctld,
            Endpoint::Resolved(SocketAddr::V4 { ip: LOOPBACK, port: DEFAULT_RIGCTLD_PORT }),
        );
        let wavelog_url = match pick(cli.wavelog_url, toml.wavelog_url) {
            Some(u) => u,
            None => {
                return Err(ConfigError::MissingWavelogUrl);
            },
        };
        let wavelog_origin = match accept_origin(wavelog_url.as_str(), origin) {
            Ok(origin) => origin,
            Err(e) => {
                return Err(e);
            },
        };
        let radio = match pick(cli.radio, toml.radio) {
            Some(radio) => radio,
            None => {
                return Err(ConfigError::MissingRadio);
            },
        };
        let power_max_watts = pick_or(
            cli.power_max,
            toml.power_max,
            Binary32::from_bits(DEFAULT_POWER_MAX_BITS),
        );
        if !power_max_watts.is_positive_finite() {
            return Err(ConfigError::InvalidPowerMax(power_max_watts));
        }
        let listen_addr = pick_or(
            cli.listen,
            toml.listen,
            SocketAddr::V4 { ip: LOOPBACK, port: DEFAULT_LISTEN_PORT },
        );
        let ws_listen_addr = pick_or(
            cli.ws_listen,
            toml.ws_listen,
            SocketAddr::V4 { ip: LOOPBACK, port: DEFAULT_WS_LISTEN_PORT },
        );
        let no_ws = cli.no_ws || matches!(toml.no_ws, Some(true));
        let wsjtx = cli.wsjtx || matches!(toml.wsjtx, Some(true));
        let wsjtx_listen_addr = pick_or(
            cli.wsjtx_listen,
            toml.wsjtx_listen,
            SocketAddr::V4 { ip: LOOPBACK, port: DEFAULT_WSJTX_LISTEN_PORT },
        );
        let station_id = pick(cli.station_id, toml.station_id);
        if wsjtx && station_id.is_none() {
            return Err(ConfigError::MissingStationId);
        }
        let qso_queue_path = pick_or(cli.qso_queue_path, toml.qso_queue_path, default_queue);
        let poll_interval = pick_or(
            cli.interval,
            toml.interval,
            Duration::from_secs(DEFAULT_POLL_INTERVAL_SECS),
        );
        if poll_interval.is_zero() {
            return Err(ConfigError::InvalidInterval);
        }
        let rig_timeout = pick_or(
            cli.rig_timeout,
            toml.rig_timeout,
            Duration::from_secs(DEFAULT_RIG_TIMEOUT_SECS),
        );
        if rig_timeout.is_zero() {
            return Err(ConfigError::InvalidRigTimeout);
        }
        let log_level = match pick(cli.log_level, toml.log_level) {
            Some(level) => level,
            None => "info".to_owned(),
        };
        Ok(
            Config {
                rigctld_endpoint,
                rig_timeout,
                wavelog_url,
                wavelog_origin,
                radio,
                key,
                power_max_watts,
                listen_addr,
                ws_listen_addr,
                no_ws,
                wsjtx,
                wsjtx_listen_addr,
                station_id,
                qso_queue_path,
                poll_interval,
                log_level,
                mode_overrides: toml.mode_overrides,
            },
        )
    }
}

/// A configuration that enables WSJT-X has a station, its power is a positive
/// number, and its times are not zero.
pub proof fn merged_config_is_valid(
    cli: Cli,
    toml: TomlConfig,
    key: String,
    default_queue: FilePath,
    origin: Option<Seq<char>>,
    config: Config,
)
    requires
        merge_error(cli, toml, origin) is None,
        is_merged(cli, toml, key, default_queue, origin, config),
    ensures
        config.wsjtx ==> config.station_id is Some,
        config.power_max_watts.spec_is_finite(),
        config.power_max_watts.value() > 0,
        config.poll_interval.total() > 0,
        config.rig_timeout.total() > 0,
        fits_header(config.wavelog_origin@),
{
}

/// What is set on the command line stands, whatever the file says.
pub proof fn command_line_wins<T>(set: T, toml: Option<T>, default: T)
    ensures
        layered(Some(set), toml, default) == set,
        either(Some(set), toml) == Some(set),
        layered(None, Some(set), default) == set,
        layered(None::<T>, None, default) == default,
{
}

/// Minimal credentials needed by one-shot subcommands.
#[derive(Debug)]
pub struct StationsConfig {
    pub wavelog_url: String,
    pub key: String,
}

impl StationsConfig {
    /// Takes the URL from the command line or the file; its shape is checked as
    /// for the daemon.
    pub fn load(cli: &Cli, toml: TomlConfig, key: String) -> (loaded: Result<
        StationsConfig,
        ConfigError,
    >)
        requires
            origin_is_shallow(*cli, toml),
        ensures
            match either(cli.wavelog_url, toml.wavelog_url) {
                None => loaded matches Err(e) && e@ == ConfigErrorView::MissingWavelogUrl,
                Some(u) => match loaded {
                    Ok(config) => usable(url::url_origin(u@)) is Some && config.wavelog_url == u
                        && config.key == key,
                    Err(e) => usable(url::url_origin(u@)) is None && e@
                        == ConfigErrorView::InvalidWavelogUrl(u@),
                },
            },
    {
        let origin = find_origin(cli, &toml);
        StationsConfig::load_with_origin(cli, toml, key, origin)
    }

    /// As [`StationsConfig::load`], where `origin` is what was found as the
    /// origin of the Wavelog URL that is set.
    pub fn load_with_origin(
        cli: &Cli,
        toml: TomlConfig,
        key: String,
        origin: Option<String>,
    ) -> (loaded: Result<StationsConfig, ConfigError>)
        ensures
            match either(cli.wavelog_url, toml.wavelog_url) {
                None => loaded matches Err(e) && e@ == ConfigErrorView::MissingWavelogUrl,
                Some(u) => match loaded {
                    Ok(config) => usable(text::text_view(origin)) is Some && config.wavelog_url == u
                        && config.key == key,
                    Err(e) => usable(text::text_view(origin)) is None && e@
                        == ConfigErrorView::InvalidWavelogUrl(u@),
                },
            },
    {
        let wavelog_url = match pick(cli.wavelog_url.clone(), toml.wavelog_url) {
            Some(u) => u,
            None => {
                return Err(ConfigError::MissingWavelogUrl);
            },
        };
        match accept_origin(wavelog_url.as_str(), origin) {
            Ok(_) => Ok(StationsConfig { wavelog_url, key }),
            Err(e) => Err(e),
        }
    }
}

/// Where the TOML file is looked for: in `$XDG_CONFIG_HOME`, else in
/// `$HOME/.config`; nowhere where neither is set.
pub open spec fn config_path(xdg_config_home: Option<Seq<u8>>, home: Option<Seq<u8>>) -> Option<
    Seq<u8>,
> {
    let dir = match (xdg_config_home, home) {
        (Some(d), _) => Some(d),
        (None, Some(h)) => Some(path::joined(h, path::utf8(".config"@))),
        (None, None) => None,
    };
    match dir {
        Some(d) => Some(
            path::joined(
                path::joined(d, path::utf8("wavelog-relay"@)),
                path::utf8("config.toml"@),
            ),
        ),
        None => None,
    }
}

/// Where the QSO queue is kept by default: in `$XDG_STATE_HOME`, else in
/// `$HOME/.local/state`, else in the working directory.
pub open spec fn queue_path(xdg_state_home: Option<Seq<u8>>, home: Option<Seq<u8>>) -> Seq<u8> {
    let dir = match (xdg_state_home, home) {
        (Some(d), _) => d,
        (None, Some(h)) => path::joined(
            path::joined(h, path::utf8(".local"@)),
            path::utf8("state"@),
        ),
        (None, None) => path::utf8("."@),
    };
    path::joined(path::joined(dir, path::utf8("wavelog-relay"@)), path::utf8("qso_queue.jsonl"@))
}

/// The bytes of an environment variable, where it is set.
pub open spec fn env_view(v: Option<FilePath>) -> Option<Seq<u8>> {
    match v {
        Some(p) => Some(p@),
        None => None,
    }
}

/// Finds the default place of the TOML file.
pub fn default_config_path(xdg_config_home: Option<FilePath>, home: Option<FilePath>) -> (found:
    Option<FilePath>)
    ensures
        env_view(found) == config_path(env_view(xdg_config_home), env_view(home)),
{
    let dir = match xdg_config_home {
        Some(d) => d,
        None => match home {
            Some(h) => h.join(".config"),
            None => {
                return None;
            },
        },
    };
    Some(dir.join("wavelog-relay").join("config.toml"))
}

/// Finds the default place of the QSO queue.
pub fn default_qso_queue_path(xdg_state_home: Option<FilePath>, home: Option<FilePath>) -> (found:
    FilePath)
    ensures
        found@ == queue_path(env_view(xdg_state_home), env_view(home)),
{
    let dir = match xdg_state_home {
        Some(d) => d,
        None => match home {
            Some(h) => h.join(".local").join("state"),
            None => FilePath::from_bytes(".".as_bytes()),
        },
    };
    dir.join("wavelog-relay").join("qso_queue.jsonl")
}

/// Where to look for the TOML file, and whether it has to be there.
pub struct ConfigLocation {
    pub path: FilePath,
    pub required: bool,
}

/// Decides where to look for the TOML file: at the given path, which has to
/// exist, or at the default one, which need not; nowhere where there is none.
pub fn config_location(explicit: Option<FilePath>, default: Option<FilePath>) -> (location: Option<
    ConfigLocation,
>)
    ensures
        match (explicit, default) {
            (Some(p), _) => location == Some(ConfigLocation { path: p, required: true }),
            (None, Some(p)) => location == Some(ConfigLocation { path: p, required: false }),
            (None, None) => location is None,
        },
{
    match explicit {
        Some(path) => Some(ConfigLocation { path, required: true }),
        None => match default {
            Some(path) => Some(ConfigLocation { path, required: false }),
            None => None,
        },
    }
}

/// How reading a file ended.
pub enum FileRead {
    Contents(Vec<u8>),
    /// There is no such file, for this reason.
    NotFound(String),
    Failed(String),
}

/// Decides what reading the TOML file comes to: its text, or `None` where an
/// optional file is not there and defaults apply.
pub fn load_toml(location: ConfigLocation, read: FileRead) -> (loaded: Result<
    Option<String>,
    ConfigError,
>)
    ensures
        match read {
            FileRead::NotFound(_) => if location.required {
                loaded matches Err(e) && e@ == ConfigErrorView::ConfigNotFound(location.path@)
            } else {
                loaded matches Ok(None)
            },
            FileRead::Failed(why) => loaded matches Err(e) && e@ == (ConfigErrorView::ConfigRead {
                path: location.path@,
                source: why@,
            }),
            FileRead::Contents(bytes) => if vstd::utf8::valid_utf8(bytes@) {
                loaded matches Ok(Some(text)) && vstd::utf8::encode_utf8(text@) == bytes@
            } else {
                loaded matches Err(e) && e@ == ConfigErrorView::ConfigInvalidUtf8(location.path@)
            },
        },
{
    match read {
        FileRead::NotFound(_) => if location.required {
            Err(ConfigError::ConfigNotFound(location.path))
        } else {
            Ok(None)
        },
        FileRead::Failed(source) => Err(ConfigError::ConfigRead { path: location.path, source }),
        FileRead::Contents(bytes) => match core::str::from_utf8(bytes.as_slice()) {
            Ok(text) => Ok(Some(text.to_owned())),
            Err(_) => Err(ConfigError::ConfigInvalidUtf8(location.path)),
        },
    }
}

/// Decides what parsing the text of the TOML file comes to: what it sets, or why
/// it sets nothing.
pub fn parsed_toml(path: FilePath, parsed: Result<TomlConfig, String>) -> (settings: Result<
    TomlConfig,
    ConfigError,
>)
    ensures
        match parsed {
            Ok(toml) => settings == Ok::<TomlConfig, ConfigError>(toml),
            Err(message) => settings == Err::<TomlConfig, ConfigError>(
                ConfigError::ConfigParse { path, message },
            ),
        },
{
    match parsed {
        Ok(toml) => Ok(toml),
        Err(message) => Err(ConfigError::ConfigParse { path, message }),
    }
}

/// Where the API key comes from.
pub enum KeySource {
    /// The environment held it.
    Raw(String),
    /// It is in this file.
    File(FilePath),
}

/// Decides where the API key comes from: the raw value of `WAVELOG_RELAY_KEY`
/// where that is not empty, else the key file.
pub fn resolve_key(raw: Option<String>, key_file: Option<FilePath>) -> (source: Result<
    KeySource,
    ConfigError,
>)
    ensures
        match (raw, key_file) {
            (Some(key), file) => if key@.len() > 0 {
                source == Ok::<KeySource, ConfigError>(KeySource::Raw(key))
            } else {
                match file {
                    Some(f) => source == Ok::<KeySource, ConfigError>(KeySource::File(f)),
                    None => source matches Err(e) && e@ == ConfigErrorView::MissingKey,
                }
            },
            (None, Some(f)) => source == Ok::<KeySource, ConfigError>(KeySource::File(f)),
            (None, None) => source matches Err(e) && e@ == ConfigErrorView::MissingKey,
        },
{
    if let Some(key) = raw {
        if !key.as_str().is_empty() {
            return Ok(KeySource::Raw(key));
        }
    }
    match key_file {
        Some(file) => Ok(KeySource::File(file)),
        None => Err(ConfigError::MissingKey),
    }
}

/// Takes the API key from what reading the key file gave: its text without
/// white space at either end.
pub fn read_key_file(path: FilePath, read: FileRead) -> (key: Result<String, ConfigError>)
    ensures
        match read {
            FileRead::NotFound(why) => key matches Err(e) && e@ == (ConfigErrorView::KeyFileRead {
                path: path@,
                source: why@,
            }),
            FileRead::Failed(why) => key matches Err(e) && e@ == (ConfigErrorView::KeyFileRead {
                path: path@,
                source: why@,
            }),
            FileRead::Contents(bytes) => if !vstd::utf8::valid_utf8(bytes@) {
                key matches Err(e) && e@ == ConfigErrorView::KeyFileInvalidUtf8(path@)
            } else {
                let trimmed = text::trimmed(vstd::utf8::decode_utf8(bytes@));
                if trimmed.len() == 0 {
                    key matches Err(e) && e@ == ConfigErrorView::EmptyKeyFile(path@)
                } else {
                    key matches Ok(k) && k@ == trimmed
                }
            },
        },
{
    match read {
        FileRead::NotFound(source) => Err(ConfigError::KeyFileRead { path, source }),
        FileRead::Failed(source) => Err(ConfigError::KeyFileRead { path, source }),
        FileRead::Contents(bytes) => match core::str::from_utf8(bytes.as_slice()) {
            Ok(s) => {
                proof {
                    vstd::utf8::encode_utf8_decode_utf8(s@);
                }
                let chars = text::chars_of(s);
                let key = text::trim(chars.as_slice());
                if key.len() == 0 {
                    Err(ConfigError::EmptyKeyFile(path))
                } else {
                    Ok(text::string_of(key))
                }
            },
            Err(_) => Err(ConfigError::KeyFileInvalidUtf8(path)),
        },
    }
}

} // verus!
