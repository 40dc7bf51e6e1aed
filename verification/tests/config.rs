use wavelog_relay::addr::{parse_socket_addr, SocketAddr};
use wavelog_relay::binary32::Binary32;
use wavelog_relay::config::{
    accept_origin, config_location, default_config_path, default_qso_queue_path,
    has_shallow_origin, load_toml, parse_origin, parsed_toml, read_key_file, resolve_key, Cli, Command, Config, ConfigError, FileRead, KeySource,
    StationsConfig, TomlConfig,
};
use wavelog_relay::daemon;
use wavelog_relay::daemon::{Startup, StartupAction, Step};
use wavelog_relay::duration::Duration;
use wavelog_relay::modes::{HamlibMode, ModeOverrides};
use wavelog_relay::path::FilePath;
use wavelog_relay::rigctld::Endpoint;
use wavelog_relay::wavelog::StationSource;

const DEFAULT_RIGCTLD_ADDR: &str = "127.0.0.1:4532";
const DEFAULT_LISTEN_ADDR: &str = "127.0.0.1:54321";
const DEFAULT_WS_LISTEN_ADDR: &str = "127.0.0.1:54322";
const DEFAULT_WSJTX_LISTEN_ADDR: &str = "127.0.0.1:2237";
const DEFAULT_LOG_LEVEL: &str = "info";

fn f(x: f32) -> Binary32 {
    Binary32::from_bits(x.to_bits())
}

fn addr(s: &str) -> SocketAddr {
    parse_socket_addr(s).unwrap()
}

fn path(s: &str) -> FilePath {
    FilePath::from_bytes(s.as_bytes())
}

fn shown(p: &FilePath) -> String {
    String::from_utf8(p.bytes.clone()).unwrap()
}

fn merge(cli: Cli, toml: TomlConfig, key: &str) -> Result<Config, ConfigError> {
    Config::merge(cli, toml, key.to_owned(), path("/default/queue.jsonl"))
}

fn full_cli() -> Cli {
    Cli {
        command: None,
        rigctld: Some("10.0.0.1:9999".parse().unwrap()),
        wavelog_url: Some("https://wavelog.example.com/index.php".to_owned()),
        radio: Some("FT-710".to_owned()),
        key_file: None,
        power_max: Some(f(50.0)),
        listen: Some(addr("0.0.0.0:54321")),
        ws_listen: Some(addr("0.0.0.0:54322")),
        no_ws: false,
        wsjtx: true,
        wsjtx_listen: Some(addr("0.0.0.0:2237")),
        station_id: Some("3".to_owned()),
        qso_queue_path: Some(path("/tmp/cli-queue.jsonl")),
        interval: Some(Duration::from_millis(500)),
        rig_timeout: Some(Duration::from_secs(5)),
        config: None,
        log_level: Some("debug".to_owned()),
    }
}

fn expected_endpoint(s: &str) -> Endpoint {
    s.parse().expect("test endpoint")
}

fn minimal_cli() -> Cli {
    Cli {
        wavelog_url: Some("https://wavelog.test/".to_owned()),
        radio: Some("R".to_owned()),
        ..Cli::default()
    }
}

#[test]
fn merge_prefers_cli_over_toml() {
    let cli = full_cli();
    let toml = TomlConfig {
        rigctld: Some(expected_endpoint("9.9.9.9:1")),
        wavelog_url: Some("https://other/".to_owned()),
        radio: Some("IGNORED".to_owned()),
        power_max: Some(f(1.0)),
        listen: Some(addr("127.0.0.1:1")),
        ws_listen: Some(addr("127.0.0.1:2")),
        no_ws: Some(true),
        wsjtx: Some(false),
        wsjtx_listen: Some(addr("127.0.0.1:9999")),
        station_id: Some("99".to_owned()),
        qso_queue_path: Some(path("/tmp/toml-queue.jsonl")),
        interval: Some(Duration::from_secs(60)),
        rig_timeout: Some(Duration::from_secs(99)),
        log_level: Some("trace".to_owned()),
        mode_overrides: ModeOverrides::default(),
    };
    let cfg = merge(cli, toml, "key").unwrap();
    assert_eq!(cfg.rigctld_endpoint, expected_endpoint("10.0.0.1:9999"));
    assert_eq!(&*cfg.wavelog_url, "https://wavelog.example.com/index.php");
    assert_eq!(&*cfg.wavelog_origin, "https://wavelog.example.com");
    assert_eq!(&*cfg.radio, "FT-710");
    assert_eq!(&*cfg.key, "key");
    assert_eq!(f32::from_bits(cfg.power_max_watts.to_bits()), 50.0);
    assert_eq!(cfg.listen_addr, addr("0.0.0.0:54321"));
    assert_eq!(cfg.ws_listen_addr, addr("0.0.0.0:54322"));
    // TOML asked to disable; CLI didn't pass --no-ws → CLI wins
    // only when it was actually set, so TOML's `true` stands.
    assert!(cfg.no_ws);
    // CLI sets --wsjtx; TOML asks for false but CLI wins.
    assert!(cfg.wsjtx);
    assert_eq!(cfg.wsjtx_listen_addr, addr("0.0.0.0:2237"));
    assert_eq!(cfg.station_id.as_deref(), Some("3"));
    assert_eq!(cfg.qso_queue_path, path("/tmp/cli-queue.jsonl"));
    assert_eq!(cfg.poll_interval, Duration::from_millis(500));
    assert_eq!(cfg.rig_timeout, Duration::from_secs(5));
    assert_eq!(&*cfg.log_level, "debug");
}

#[test]
fn merge_falls_through_to_toml_when_cli_absent() {
    let toml = TomlConfig {
        rigctld: Some(expected_endpoint("9.9.9.9:1")),
        wavelog_url: Some("https://wavelog.test/".to_owned()),
        radio: Some("IC-7300".to_owned()),
        power_max: Some(f(75.0)),
        listen: Some(addr("127.0.0.1:11111")),
        ws_listen: Some(addr("127.0.0.1:11122")),
        no_ws: None,
        wsjtx: Some(true),
        wsjtx_listen: Some(addr("127.0.0.1:22222")),
        station_id: Some("42".to_owned()),
        qso_queue_path: None,
        interval: Some(Duration::from_secs(2)),
        rig_timeout: Some(Duration::from_secs(7)),
        log_level: Some("warn".to_owned()),
        mode_overrides: ModeOverrides { pkt: HamlibMode::PktLsb, dig: HamlibMode::PktFm },
    };
    let cfg = merge(Cli::default(), toml, "key").unwrap();
    assert_eq!(cfg.rigctld_endpoint, expected_endpoint("9.9.9.9:1"));
    assert_eq!(&*cfg.wavelog_url, "https://wavelog.test/");
    assert_eq!(&*cfg.radio, "IC-7300");
    assert_eq!(f32::from_bits(cfg.power_max_watts.to_bits()), 75.0);
    assert_eq!(cfg.listen_addr, addr("127.0.0.1:11111"));
    assert_eq!(cfg.ws_listen_addr, addr("127.0.0.1:11122"));
    assert!(!cfg.no_ws);
    assert!(cfg.wsjtx);
    assert_eq!(cfg.wsjtx_listen_addr, addr("127.0.0.1:22222"));
    assert_eq!(cfg.station_id.as_deref(), Some("42"));
    assert_eq!(cfg.qso_queue_path, path("/default/queue.jsonl"));
    assert_eq!(cfg.poll_interval, Duration::from_secs(2));
    assert_eq!(cfg.rig_timeout, Duration::from_secs(7));
    assert_eq!(&*cfg.log_level, "warn");
    assert_eq!(cfg.mode_overrides.pkt, HamlibMode::PktLsb);
    assert_eq!(cfg.mode_overrides.dig, HamlibMode::PktFm);
}

#[test]
fn merge_applies_defaults_for_optional_fields() {
    let cfg = merge(minimal_cli(), TomlConfig::default(), "k").unwrap();
    assert_eq!(
        cfg.rigctld_endpoint,
        expected_endpoint(DEFAULT_RIGCTLD_ADDR)
    );
    assert_eq!(cfg.listen_addr, addr(DEFAULT_LISTEN_ADDR));
    assert_eq!(cfg.ws_listen_addr, addr(DEFAULT_WS_LISTEN_ADDR));
    assert!(!cfg.no_ws);
    assert!(!cfg.wsjtx, "WSJT-X listener must default to off");
    assert_eq!(cfg.wsjtx_listen_addr, addr(DEFAULT_WSJTX_LISTEN_ADDR));
    assert!(cfg.station_id.is_none());
    assert_eq!(f32::from_bits(cfg.power_max_watts.to_bits()), 100.0);
    assert_eq!(cfg.poll_interval, Duration::from_secs(1));
    assert_eq!(cfg.rig_timeout, Duration::from_secs(5));
    assert_eq!(&*cfg.log_level, DEFAULT_LOG_LEVEL);
    assert_eq!(cfg.mode_overrides, ModeOverrides::default());
}

#[test]
fn cli_wsjtx_flag_enables_listener() {
    let cli = Cli {
        wsjtx: true,
        station_id: Some("1".to_owned()),
        ..minimal_cli()
    };
    let cfg = merge(cli, TomlConfig::default(), "k").unwrap();
    assert!(cfg.wsjtx);
}

#[test]
fn toml_wsjtx_true_enables_when_cli_absent() {
    let toml = TomlConfig {
        wavelog_url: Some("https://wavelog.test/".to_owned()),
        radio: Some("R".to_owned()),
        wsjtx: Some(true),
        station_id: Some("1".to_owned()),
        ..TomlConfig::default()
    };
    let cfg = merge(Cli::default(), toml, "k").unwrap();
    assert!(cfg.wsjtx);
}

#[test]
fn cli_station_id_overrides_toml() {
    let cli = Cli {
        station_id: Some("17".to_owned()),
        ..minimal_cli()
    };
    let toml = TomlConfig {
        station_id: Some("99".to_owned()),
        ..TomlConfig::default()
    };
    let cfg = merge(cli, toml, "k").unwrap();
    assert_eq!(cfg.station_id.as_deref(), Some("17"));
}

#[test]
fn merge_rejects_wsjtx_without_station_id() {
    let cli = Cli {
        wsjtx: true,
        ..minimal_cli()
    };
    let err = merge(cli, TomlConfig::default(), "k").unwrap_err();
    assert!(matches!(err, ConfigError::MissingStationId), "got {err:?}");
}

#[test]
fn merge_accepts_station_id_without_wsjtx() {
    // station_id set, but --wsjtx not enabled: harmless (the field
    // is just unused). No error.
    let cli = Cli {
        station_id: Some("1".to_owned()),
        ..minimal_cli()
    };
    let cfg = merge(cli, TomlConfig::default(), "k").unwrap();
    assert!(!cfg.wsjtx);
    assert_eq!(cfg.station_id.as_deref(), Some("1"));
}

#[test]
fn cli_no_ws_overrides_toml_false() {
    let cli = Cli {
        no_ws: true,
        ..minimal_cli()
    };
    let toml = TomlConfig {
        no_ws: Some(false),
        ..TomlConfig::default()
    };
    let cfg = merge(cli, toml, "k").unwrap();
    assert!(cfg.no_ws, "CLI --no-ws must override TOML no_ws = false");
}

#[test]
fn merge_rejects_zero_rig_timeout() {
    let cli = Cli {
        rig_timeout: Some(Duration::from_secs(0)),
        ..minimal_cli()
    };
    let err = merge(cli, TomlConfig::default(), "k").unwrap_err();
    assert!(matches!(err, ConfigError::InvalidRigTimeout), "got {err:?}");
}

#[test]
fn merge_accepts_hostname_endpoint() {
    let cli = Cli {
        rigctld: Some(expected_endpoint("rig.local:4532")),
        ..minimal_cli()
    };
    let cfg = merge(cli, TomlConfig::default(), "k").unwrap();
    assert_eq!(cfg.rigctld_endpoint, expected_endpoint("rig.local:4532"));
}

#[test]
fn merge_requires_wavelog_url() {
    let cli = Cli {
        radio: Some("R".to_owned()),
        ..Cli::default()
    };
    let err = merge(cli, TomlConfig::default(), "k").unwrap_err();
    assert!(matches!(err, ConfigError::MissingWavelogUrl), "got {err:?}");
}

#[test]
fn merge_requires_radio() {
    let cli = Cli {
        wavelog_url: Some("https://wavelog.test/".to_owned()),
        ..Cli::default()
    };
    let err = merge(cli, TomlConfig::default(), "k").unwrap_err();
    assert!(matches!(err, ConfigError::MissingRadio), "got {err:?}");
}

#[test]
fn merge_rejects_non_positive_power_max() {
    let cli = Cli {
        power_max: Some(f(0.0)),
        ..minimal_cli()
    };
    let err = merge(cli, TomlConfig::default(), "k").unwrap_err();
    assert!(
        matches!(err, ConfigError::InvalidPowerMax(_)),
        "got {err:?}"
    );
    for bad in [-1.0, -0.0, f32::NAN, f32::INFINITY] {
        let cli = Cli {
            power_max: Some(f(bad)),
            ..minimal_cli()
        };
        let err = merge(cli, TomlConfig::default(), "k").unwrap_err();
        assert!(matches!(err, ConfigError::InvalidPowerMax(p) if p == f(bad)), "{bad}");
    }
}

#[test]
fn merge_rejects_zero_interval() {
    let cli = Cli {
        interval: Some(Duration::from_secs(0)),
        ..minimal_cli()
    };
    let err = merge(cli, TomlConfig::default(), "k").unwrap_err();
    assert!(matches!(err, ConfigError::InvalidInterval), "got {err:?}");
}

#[test]
fn merge_rejects_invalid_url() {
    let cli = Cli {
        wavelog_url: Some("not a url".to_owned()),
        radio: Some("R".to_owned()),
        ..Cli::default()
    };
    let err = merge(cli, TomlConfig::default(), "k").unwrap_err();
    assert!(
        matches!(err, ConfigError::InvalidWavelogUrl(_)),
        "got {err:?}"
    );
}

#[test]
fn the_first_fault_is_reported() {
    let cli = Cli {
        power_max: Some(f(0.0)),
        interval: Some(Duration::from_secs(0)),
        rig_timeout: Some(Duration::from_secs(0)),
        wsjtx: true,
        ..minimal_cli()
    };
    let err = merge(cli, TomlConfig::default(), "k").unwrap_err();
    assert!(matches!(err, ConfigError::InvalidPowerMax(_)), "got {err:?}");
}

#[test]
fn origin_extracted_for_https_url() {
    let origin = parse_origin("https://wavelog.mdel.io/index.php").unwrap();
    assert_eq!(origin, "https://wavelog.mdel.io");
}

#[test]
fn origin_includes_nonstandard_port() {
    let origin = parse_origin("http://wavelog.mdel.io:8080/").unwrap();
    assert_eq!(origin, "http://wavelog.mdel.io:8080");
}

#[test]
fn origin_rejects_opaque_scheme() {
    // file:// URLs produce opaque origins per the URL spec.
    let result = parse_origin("file:///tmp/x");
    assert!(matches!(result, Err(ConfigError::InvalidWavelogUrl(_))));
}

#[test]
fn origins_have_to_fit_a_header() {
    assert_eq!(accept_origin("u", Some("a\tb \u{e9}".to_owned())).unwrap(), "a\tb \u{e9}");
    for bad in ["a\nb", "\u{7f}", "\u{0}"] {
        assert!(matches!(
            accept_origin("u", Some(bad.to_owned())),
            Err(ConfigError::InvalidWavelogUrl(u)) if u == "u"
        ));
    }
    assert!(accept_origin("u", None).is_err());
}

#[test]
fn stations_config_takes_cli_then_toml() {
    let toml = || TomlConfig {
        wavelog_url: Some("https://toml.test/".to_owned()),
        ..TomlConfig::default()
    };
    let cfg = StationsConfig::load(&minimal_cli(), toml(), "k".to_owned()).unwrap();
    assert_eq!(cfg.wavelog_url, "https://wavelog.test/");
    assert_eq!(cfg.key, "k");
    let cli = Cli { command: Some(Command::Stations), ..Cli::default() };
    let cfg = StationsConfig::load(&cli, toml(), "k".to_owned()).unwrap();
    assert_eq!(cfg.wavelog_url, "https://toml.test/");
    let err = StationsConfig::load(&cli, TomlConfig::default(), "k".to_owned()).unwrap_err();
    assert!(matches!(err, ConfigError::MissingWavelogUrl), "got {err:?}");
    let cli = Cli { wavelog_url: Some("file:///x".to_owned()), ..Cli::default() };
    let err = StationsConfig::load(&cli, toml(), "k".to_owned()).unwrap_err();
    assert!(matches!(err, ConfigError::InvalidWavelogUrl(u) if u == "file:///x"));
}

#[test]
fn default_paths() {
    let some = |s: &str| Some(path(s));
    assert_eq!(
        shown(&default_config_path(some("/xdg"), some("/home/op")).unwrap()),
        "/xdg/wavelog-relay/config.toml",
    );
    assert_eq!(
        shown(&default_config_path(None, some("/home/op/")).unwrap()),
        "/home/op/.config/wavelog-relay/config.toml",
    );
    assert!(default_config_path(None, None).is_none());
    assert_eq!(
        shown(&default_qso_queue_path(some("/state"), None)),
        "/state/wavelog-relay/qso_queue.jsonl",
    );
    assert_eq!(
        shown(&default_qso_queue_path(None, some("/home/op"))),
        "/home/op/.local/state/wavelog-relay/qso_queue.jsonl",
    );
    assert_eq!(
        shown(&default_qso_queue_path(None, None)),
        "./wavelog-relay/qso_queue.jsonl",
    );
    assert_eq!(
        shown(&default_qso_queue_path(some(""), None)),
        "wavelog-relay/qso_queue.jsonl",
    );
}

#[test]
fn toml_file_has_to_exist_only_where_it_was_named() {
    let named = || config_location(Some(path("/c.toml")), Some(path("/d.toml"))).unwrap();
    let found = || config_location(None, Some(path("/d.toml"))).unwrap();
    assert!(config_location(None, None).is_none());
    assert!(named().required);
    assert_eq!(named().path, path("/c.toml"));
    assert!(!found().required);
    let missing = || FileRead::NotFound("no such file".to_owned());
    assert!(matches!(
        load_toml(named(), missing()),
        Err(ConfigError::ConfigNotFound(p)) if p == path("/c.toml")
    ));
    assert!(load_toml(found(), missing()).unwrap().is_none());
    assert!(matches!(
        load_toml(found(), FileRead::Failed("denied".to_owned())),
        Err(ConfigError::ConfigRead { source, .. }) if source == "denied"
    ));
    assert!(matches!(
        load_toml(found(), FileRead::Contents(vec![0xff])),
        Err(ConfigError::ConfigInvalidUtf8(_))
    ));
    assert_eq!(
        load_toml(found(), FileRead::Contents(b"radio = 1".to_vec())).unwrap().unwrap(),
        "radio = 1",
    );
}

#[test]
fn raw_key_wins_over_key_file() {
    let file = || Some(path("/key"));
    assert!(matches!(
        resolve_key(Some("abc".to_owned()), file()),
        Ok(KeySource::Raw(k)) if k == "abc"
    ));
    assert!(matches!(resolve_key(Some(String::new()), file()), Ok(KeySource::File(_))));
    assert!(matches!(resolve_key(None, file()), Ok(KeySource::File(p)) if p == path("/key")));
    assert!(matches!(resolve_key(None, None), Err(ConfigError::MissingKey)));
    assert!(matches!(resolve_key(Some(String::new()), None), Err(ConfigError::MissingKey)));
}

#[test]
fn read_key_file_trims_whitespace_and_newlines() {
    let key = read_key_file(
        path("/key"),
        FileRead::Contents(b"  my-secret-key  \n".to_vec()),
    )
    .unwrap();
    assert_eq!(key, "my-secret-key");
}

#[test]
fn read_key_file_errors_on_empty_contents() {
    let err =
        read_key_file(path("/key"), FileRead::Contents(b"   \n  \n\n".to_vec())).unwrap_err();
    assert!(matches!(err, ConfigError::EmptyKeyFile(_)), "got {err:?}");
}

#[test]
fn read_key_file_errors_on_missing() {
    let err = read_key_file(
        path("/nonexistent/key"),
        FileRead::NotFound("no such file".to_owned()),
    )
    .unwrap_err();
    assert!(
        matches!(err, ConfigError::KeyFileRead { .. }),
        "got {err:?}"
    );
}

#[test]
fn read_key_file_errors_on_invalid_utf8() {
    let err = read_key_file(path("/key"), FileRead::Contents(vec![0x61, 0xff])).unwrap_err();
    assert!(matches!(err, ConfigError::KeyFileInvalidUtf8(_)), "got {err:?}");
    let err = read_key_file(path("/key"), FileRead::Failed("io".to_owned())).unwrap_err();
    assert!(
        matches!(err, ConfigError::KeyFileRead { ref source, .. } if source == "io"),
        "got {err:?}"
    );
}

#[test]
fn daemon_starts_what_is_enabled() {
    let cfg = merge(full_cli(), TomlConfig::default(), "k").unwrap();
    let plan = daemon::plan(&cfg);
    assert_eq!(plan.listen, addr("0.0.0.0:54321"));
    assert_eq!(plan.ws_listen, Some(addr("0.0.0.0:54322")));
    assert_eq!(plan.wsjtx_listen, Some(addr("0.0.0.0:2237")));
    assert!(matches!(plan.station, Some(StationSource::Fixed(id)) if id == "3"));

    let cli = Cli { no_ws: true, station_id: Some("1".to_owned()), ..minimal_cli() };
    let plan = daemon::plan(&merge(cli, TomlConfig::default(), "k").unwrap());
    assert_eq!(plan.ws_listen, None);
    assert_eq!(plan.wsjtx_listen, None);
    assert!(plan.station.is_none());
}

#[test]
fn a_found_origin_decides_on_the_url() {
    let with = |origin: Option<&str>| {
        Config::merge_with_origin(
            minimal_cli(),
            TomlConfig::default(),
            "k".to_owned(),
            path("/q"),
            origin.map(|o| o.to_owned()),
        )
    };
    assert_eq!(with(Some("https://other.test")).unwrap().wavelog_origin, "https://other.test");
    for bad in [None, Some("a\nb")] {
        assert!(matches!(with(bad), Err(ConfigError::InvalidWavelogUrl(_))));
    }
    let toml = TomlConfig::default();
    let loaded =
        StationsConfig::load_with_origin(&minimal_cli(), toml, "k".to_owned(), None).unwrap_err();
    assert!(matches!(loaded, ConfigError::InvalidWavelogUrl(_)), "got {loaded:?}");
}

/// The steps that a plan takes when all of them end well.
fn all_steps(plan: &daemon::DaemonPlan) -> Vec<Step> {
    let (mut startup, mut action) = Startup::begin(plan);
    let mut taken = Vec::new();
    while let StartupAction::Take(step) = action {
        taken.push(step);
        action = startup.on_step_ended(true);
    }
    assert_eq!(action, StartupAction::Running);
    taken
}

#[test]
fn everything_is_bound_before_anything_is_started() {
    let cfg = merge(full_cli(), TomlConfig::default(), "k").unwrap();
    assert_eq!(
        all_steps(&daemon::plan(&cfg)),
        vec![
            Step::BindListener(addr("0.0.0.0:54321")),
            Step::BindWs(addr("0.0.0.0:54322")),
            Step::BindWsjtx(addr("0.0.0.0:2237")),
            Step::StartRig,
            Step::BuildClient,
            Step::StartPoller,
            Step::StartListener,
            Step::StartWs,
            Step::OpenQueue,
            Step::StartWsjtx,
        ]
    );
    let cli = Cli { no_ws: true, ..minimal_cli() };
    let cfg = merge(cli, TomlConfig::default(), "k").unwrap();
    assert_eq!(
        all_steps(&daemon::plan(&cfg)),
        vec![
            Step::BindListener(addr(DEFAULT_LISTEN_ADDR)),
            Step::StartRig,
            Step::BuildClient,
            Step::StartPoller,
            Step::StartListener,
        ]
    );
}

#[test]
fn a_failed_bind_starts_nothing() {
    let cfg = merge(full_cli(), TomlConfig::default(), "k").unwrap();
    let plan = daemon::plan(&cfg);
    for failing in 0..3 {
        let (mut startup, mut action) = Startup::begin(&plan);
        for _ in 0..failing {
            assert!(matches!(
                action,
                StartupAction::Take(Step::BindListener(_) | Step::BindWs(_))
            ));
            action = startup.on_step_ended(true);
        }
        let StartupAction::Take(bind) = action else {
            panic!("no step");
        };
        assert_eq!(startup.on_step_ended(false), StartupAction::Fail(bind));
    }
}

#[test]
fn failed_steps_are_explained() {
    let queue = path("/tmp/queue.jsonl");
    let at = addr("127.0.0.1:80");
    let text = |step: Step| step.failure(&queue);
    assert_eq!(
        text(Step::BindListener(at)).unwrap(),
        "failed to bind listener on 127.0.0.1:80"
    );
    assert_eq!(text(Step::BindWs(at)).unwrap(), "failed to bind ws server on 127.0.0.1:80");
    assert_eq!(
        text(Step::BindWsjtx(at)).unwrap(),
        "failed to bind wsjtx listener on 127.0.0.1:80"
    );
    assert_eq!(text(Step::BuildClient).unwrap(), "failed to build wavelog client");
    assert_eq!(
        text(Step::OpenQueue).unwrap(),
        "failed to open QSO queue at /tmp/queue.jsonl"
    );
    for step in [
        Step::StartRig,
        Step::StartPoller,
        Step::StartListener,
        Step::StartWs,
        Step::StartWsjtx,
    ] {
        assert_eq!(text(step), None);
    }
}

#[test]
fn parsed_toml_names_the_file_that_does_not_parse() {
    let parsed = TomlConfig { radio: Some("r".to_owned()), ..TomlConfig::default() };
    assert_eq!(parsed_toml(path("/c"), Ok(parsed)).unwrap().radio.as_deref(), Some("r"));
    let err = parsed_toml(path("/c"), Err("line 1".to_owned())).unwrap_err();
    assert!(
        matches!(
            err,
            ConfigError::ConfigParse { path: ref p, ref message }
                if shown(p) == "/c" && message == "line 1"
        ),
        "got {err:?}"
    );
}

#[test]
fn only_deeply_nested_blob_urls_are_too_deep() {
    let deep = |url: String| {
        let cli = Cli { wavelog_url: Some(url), ..minimal_cli() };
        !has_shallow_origin(&cli, &TomlConfig::default())
    };
    let tail = "x".repeat(5000);
    assert!(!deep(format!("https://wavelog.example.com/{tail}")));
    assert!(!deep(format!("blob:https://wavelog.example.com/{tail}")));
    assert!(!deep(format!("blob:{tail}")));
    let nested = |n: usize| format!("{}https://a.test/", "blob:".repeat(n));
    assert!(!deep(nested(1000)));
    assert!(deep(nested(1001)));
    assert!(deep(format!(" \u{1}{}https://a.test", " BL\tob:\n".repeat(1001))));
    assert!(!deep(format!("{}https://a.test", "blobs:".repeat(1001))));
    assert!(!deep(format!("https://a.test/{}", "blob:".repeat(1001))));

    // What is not too deep is looked for.
    assert_eq!(parse_origin(&nested(1000)).unwrap(), "https://a.test");
    assert_eq!(parse_origin(&format!("blob:https://a.test/{tail}")).unwrap(), "https://a.test");
}

#[test]
fn paths_are_shown_as_text() {
    assert_eq!(path("/tmp/\u{e9}").to_text(), "/tmp/\u{e9}");
    assert_eq!(FilePath::from_bytes(&[0x61, 0xff, 0x62]).to_text(), "a\u{fffd}b");
    assert_eq!(shown(&path("/tmp/q").with_suffix(".lock")), "/tmp/q.lock");
}
