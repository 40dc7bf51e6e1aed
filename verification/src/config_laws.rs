//! What every setting comes to.
use crate::addr::SocketAddr;
use crate::binary32;
use crate::binary32::Binary32;
use crate::config;
use crate::config::{Cli, Config, ConfigErrorView, TomlConfig};
use crate::duration::Duration;
use crate::modes::HamlibMode;
use crate::path;
use crate::path::FilePath;
use crate::rigctld::endpoint::Endpoint;
use crate::text_laws;
use crate::wavelog::url;
use vstd::prelude::*;

verus! {

/// What is set on the command line, else what the file sets, else the default.
pub open spec fn is_set_from<T>(value: T, cli: Option<T>, toml: Option<T>, default: T) -> bool {
    &&& cli is Some ==> Some(value) == cli
    &&& cli is None && toml is Some ==> Some(value) == toml
    &&& cli is None && toml is None ==> value == default
}

/// Every setting of a configuration comes from its own place on the command line,
/// else from its own place in the file, else it is the documented default.
pub proof fn every_setting_comes_from_its_place(
    cli: Cli,
    toml: TomlConfig,
    key: String,
    default_queue: FilePath,
    origin: Option<Seq<char>>,
    config: Config,
)
    requires
        config::is_merged(cli, toml, key, default_queue, origin, config),
    ensures
        is_set_from(
            config.rigctld_endpoint,
            cli.rigctld,
            toml.rigctld,
            Endpoint::Resolved(SocketAddr::V4 { ip: 0x7f00_0001, port: 4532 }),
        ),
        is_set_from(
            config.listen_addr,
            cli.listen,
            toml.listen,
            SocketAddr::V4 { ip: 0x7f00_0001, port: 54321 },
        ),
        is_set_from(
            config.ws_listen_addr,
            cli.ws_listen,
            toml.ws_listen,
            SocketAddr::V4 { ip: 0x7f00_0001, port: 54322 },
        ),
        is_set_from(
            config.wsjtx_listen_addr,
            cli.wsjtx_listen,
            toml.wsjtx_listen,
            SocketAddr::V4 { ip: 0x7f00_0001, port: 2237 },
        ),
        is_set_from(config.qso_queue_path, cli.qso_queue_path, toml.qso_queue_path, default_queue),
        is_set_from(
            config.poll_interval,
            cli.interval,
            toml.interval,
            Duration { secs: 1, nanos: 0 },
        ),
        is_set_from(
            config.rig_timeout,
            cli.rig_timeout,
            toml.rig_timeout,
            Duration { secs: 5, nanos: 0 },
        ),
        is_set_from(Some(config.wavelog_url), some_if(cli.wavelog_url), some_if(toml.wavelog_url), None),
        is_set_from(Some(config.radio), some_if(cli.radio), some_if(toml.radio), None),
        is_set_from(config.station_id, some_if(cli.station_id), some_if(toml.station_id), None),
        cli.log_level is None && toml.log_level is None ==> config.log_level@ == "info"@,
        cli.log_level matches Some(level) ==> config.log_level == level,
        cli.log_level is None ==> (toml.log_level matches Some(level) ==> config.log_level == level),
        config.no_ws <==> cli.no_ws || toml.no_ws == Some(true),
        config.wsjtx <==> cli.wsjtx || toml.wsjtx == Some(true),
        config.mode_overrides == toml.mode_overrides,
        config.key == key,
        origin == Some(config.wavelog_origin@),
{
}

/// The power that a rig has at most is 100 watts where nothing else is set.
pub proof fn maximum_power_is_a_hundred_watts(
    cli: Cli,
    toml: TomlConfig,
    key: String,
    default_queue: FilePath,
    origin: Option<Seq<char>>,
    config: Config,
)
    requires
        config::is_merged(cli, toml, key, default_queue, origin, config),
    ensures
        is_set_from(config.power_max_watts, cli.power_max, toml.power_max, config.power_max_watts),
        cli.power_max is None && toml.power_max is None ==> config.power_max_watts.spec_is_finite()
            && config.power_max_watts.value() == 100 * binary32::one(),
{
    binary32::bits_of_zero_and_one();
}

/// A setting that is there, as one that may be.
pub open spec fn some_if<T>(v: Option<T>) -> Option<Option<T>> {
    match v {
        Some(x) => Some(Some(x)),
        None => None,
    }
}

/// The settings make up a configuration exactly where the Wavelog URL is set and has
/// an origin that fits into a header, the radio is set, the maximum power is a
/// positive number, a station is set where WSJT-X is enabled, and neither time is
/// zero.
pub proof fn settings_are_complete_when(
    cli: Cli,
    toml: TomlConfig,
    origin: Option<Seq<char>>,
    power_max: Binary32,
    interval: Duration,
    timeout: Duration,
)
    requires
        is_set_from(power_max, cli.power_max, toml.power_max, Binary32 { bits: 0x42c8_0000 }),
        is_set_from(interval, cli.interval, toml.interval, Duration { secs: 1, nanos: 0 }),
        is_set_from(timeout, cli.rig_timeout, toml.rig_timeout, Duration { secs: 5, nanos: 0 }),
    ensures
        config::merge_error(cli, toml, origin) is None <==> {
            &&& cli.wavelog_url is Some || toml.wavelog_url is Some
            &&& origin is Some && config::fits_header(origin->Some_0)
            &&& cli.radio is Some || toml.radio is Some
            &&& power_max.spec_is_finite() && power_max.value() > 0
            &&& (cli.wsjtx || toml.wsjtx == Some(true)) ==> (cli.station_id is Some
                || toml.station_id is Some)
            &&& interval.secs > 0 || interval.nanos > 0
            &&& timeout.secs > 0 || timeout.nanos > 0
        },
{
}

/// What is complained about is wrong, and it is the first thing that is.
pub proof fn complaints_are_true(cli: Cli, toml: TomlConfig, origin: Option<Seq<char>>)
    ensures
        match config::merge_error(cli, toml, origin) {
            None => true,
            Some(ConfigErrorView::MissingWavelogUrl) => cli.wavelog_url is None
                && toml.wavelog_url is None,
            Some(ConfigErrorView::InvalidWavelogUrl(u)) => (origin is None || !config::fits_header(
                origin->Some_0,
            )) && (cli.wavelog_url matches Some(set) ==> u == set@) && (cli.wavelog_url is None
                ==> (toml.wavelog_url matches Some(set) && u == set@)),
            Some(ConfigErrorView::MissingRadio) => cli.radio is None && toml.radio is None && origin
                is Some,
            Some(ConfigErrorView::InvalidPowerMax(p)) => (!p.spec_is_finite() || p.value() <= 0)
                && (cli.power_max == Some(p) || (cli.power_max is None && toml.power_max == Some(
                p,
            ))),
            Some(ConfigErrorView::MissingStationId) => cli.station_id is None && toml.station_id
                is None && (cli.wsjtx || toml.wsjtx == Some(true)),
            Some(ConfigErrorView::InvalidInterval) => (cli.interval matches Some(d) && d.total()
                == 0) || (toml.interval matches Some(d) && d.total() == 0),
            Some(ConfigErrorView::InvalidRigTimeout) => (cli.rig_timeout matches Some(d)
                && d.total() == 0) || (toml.rig_timeout matches Some(d) && d.total() == 0),
            Some(_) => false,
        },
{
    binary32::bits_of_zero_and_one();
}

/// A text fits into a header where none of its bytes is a control other than the tab.
pub proof fn headers_hold_no_controls(s: Seq<char>)
    ensures
        config::fits_header(s) <==> forall|i: int|
            0 <= i < vstd::utf8::encode_utf8(s).len() ==> {
                let b = #[trigger] vstd::utf8::encode_utf8(s)[i];
                b == 9 || 32 <= b < 127 || b >= 128
            },
        config::usable(Some(s)) == (if config::fits_header(s) {
            Some(s)
        } else {
            None
        }),
        config::usable(None) is None,
{
}

/// The ambiguous modes are sent as packet on the upper sideband where nothing else is
/// set.
pub proof fn ambiguous_modes_default_to_the_upper_sideband()
    ensures
        config::default_overrides().pkt == HamlibMode::PktUsb,
        config::default_overrides().dig == HamlibMode::PktUsb,
{
}

/// A component is added behind a single slash.
pub proof fn components_are_separated(base: Seq<u8>, component: Seq<u8>)
    ensures
        base.len() > 0 && base.last() != 0x2f ==> path::joined(base, component) == base + seq![
            0x2fu8,
        ] + component,
        base.len() > 0 && base.last() == 0x2f ==> path::joined(base, component) == base + component,
        base.len() == 0 ==> path::joined(base, component) == component,
{
    assert(base.push(0x2f) =~= base + seq![0x2fu8]);
    if base.len() == 0 {
        assert(base + component =~= component);
    }
}

proof fn lemma_joined_text(base: Seq<u8>, component: Seq<char>)
    requires
        component.len() > 0,
        component.last() != '/',
        base.len() > 0,
        base.last() != 0x2f,
        vstd::utf8::is_ascii_chars(component),
    ensures
        path::joined(base, path::utf8(component)) == base + vstd::utf8::encode_utf8(
            seq!['/'] + component,
        ),
        path::joined(base, path::utf8(component)).last() != 0x2f,
        path::joined(base, path::utf8(component)).len() > 0,
{
    components_are_separated(base, path::utf8(component));
    text_laws::utf8_of_parts(seq!['/'], component);
    vstd::utf8::is_ascii_chars_encode_utf8(component);
    let slash = seq!['/'];
    assert(vstd::utf8::is_ascii_chars(slash)) by {
        assert(slash[0] == '/');
    }
    vstd::utf8::is_ascii_chars_encode_utf8(slash);
    let b = vstd::utf8::encode_utf8(slash);
    assert(b[0] == slash[0] as u8);
    assert(b =~= seq![0x2fu8]);
    let c = vstd::utf8::encode_utf8(component);
    let n = component.len() - 1;
    assert(c[n] == component[n] as u8);
    assert(component[n] as u32 <= 0x7f) by {
        vstd::utf8::is_ascii_chars_nat_bound(component);
    }
    assert(base + seq![0x2fu8] + c =~= base + (seq![0x2fu8] + c));
}

/// The file of the settings and the queue lie under the directories that are set for
/// them, else under the home directory.
pub proof fn files_lie_under_their_directories(dir: Seq<u8>, home: Option<Seq<u8>>)
    requires
        dir.len() > 0,
        dir.last() != 0x2f,
    ensures
        config::config_path(Some(dir), home) == Some(
            dir + vstd::utf8::encode_utf8("/wavelog-relay"@) + vstd::utf8::encode_utf8(
                "/config.toml"@,
            ),
        ),
        config::config_path(None, Some(dir)) == Some(
            dir + vstd::utf8::encode_utf8("/.config"@) + vstd::utf8::encode_utf8("/wavelog-relay"@)
                + vstd::utf8::encode_utf8("/config.toml"@),
        ),
        config::config_path(None, None) is None,
        config::queue_path(Some(dir), home) == dir + vstd::utf8::encode_utf8("/wavelog-relay"@)
            + vstd::utf8::encode_utf8("/qso_queue.jsonl"@),
        config::queue_path(None, Some(dir)) == dir + vstd::utf8::encode_utf8("/.local"@)
            + vstd::utf8::encode_utf8("/state"@) + vstd::utf8::encode_utf8("/wavelog-relay"@)
            + vstd::utf8::encode_utf8("/qso_queue.jsonl"@),
        config::queue_path(None, None) == vstd::utf8::encode_utf8("."@) + vstd::utf8::encode_utf8(
            "/wavelog-relay"@,
        ) + vstd::utf8::encode_utf8("/qso_queue.jsonl"@),
{
    reveal_strlit(".");
    let here = vstd::utf8::encode_utf8("."@);
    assert(here.len() > 0 && here.last() != 0x2f) by {
        vstd::utf8::is_ascii_chars_encode_utf8("."@);
        assert(here[0] == "."@[0] as u8);
    }
    reveal_strlit("wavelog-relay");
    reveal_strlit("/wavelog-relay");
    reveal_strlit("config.toml");
    reveal_strlit("/config.toml");
    reveal_strlit("qso_queue.jsonl");
    reveal_strlit("/qso_queue.jsonl");
    reveal_strlit(".config");
    reveal_strlit("/.config");
    reveal_strlit(".local");
    reveal_strlit("/.local");
    reveal_strlit("state");
    reveal_strlit("/state");
    assert(seq!['/'] + "wavelog-relay"@ =~= "/wavelog-relay"@);
    assert(seq!['/'] + "config.toml"@ =~= "/config.toml"@);
    assert(seq!['/'] + "qso_queue.jsonl"@ =~= "/qso_queue.jsonl"@);
    assert(seq!['/'] + ".config"@ =~= "/.config"@);
    assert(seq!['/'] + ".local"@ =~= "/.local"@);
    assert(seq!['/'] + "state"@ =~= "/state"@);
    let relay = "wavelog-relay"@;
    let a = path::joined(dir, path::utf8(relay));
    lemma_joined_text(dir, relay);
    lemma_joined_text(a, "config.toml"@);
    lemma_joined_text(a, "qso_queue.jsonl"@);
    let c = path::joined(dir, path::utf8(".config"@));
    lemma_joined_text(dir, ".config"@);
    lemma_joined_text(c, relay);
    lemma_joined_text(path::joined(c, path::utf8(relay)), "config.toml"@);
    let l = path::joined(dir, path::utf8(".local"@));
    lemma_joined_text(dir, ".local"@);
    lemma_joined_text(l, "state"@);
    let s = path::joined(l, path::utf8("state"@));
    lemma_joined_text(s, relay);
    lemma_joined_text(path::joined(s, path::utf8(relay)), "qso_queue.jsonl"@);
    lemma_joined_text(here, relay);
    lemma_joined_text(path::joined(here, path::utf8(relay)), "qso_queue.jsonl"@);
}

/// The origin that is looked for is that of the URL on the command line, else that of the
/// URL in the file.
pub proof fn origin_is_that_of_the_url(cli: Cli, toml: TomlConfig)
    ensures
        cli.wavelog_url matches Some(u) ==> config::set_origin(cli, toml) == url::url_origin(u@)
            && config::origin_is_shallow(cli, toml) == url::shallow_origin(u@),
        cli.wavelog_url is None ==> (toml.wavelog_url matches Some(u) ==> config::set_origin(
            cli,
            toml,
        ) == url::url_origin(u@) && config::origin_is_shallow(cli, toml) == url::shallow_origin(
            u@,
        )),
        cli.wavelog_url is None && toml.wavelog_url is None ==> config::set_origin(cli, toml)
            is None && config::origin_is_shallow(cli, toml),
{
}

/// A directory of the environment is taken as it is.
pub proof fn directories_are_taken_as_they_are(dir: FilePath)
    ensures
        config::env_view(Some(dir)) == Some(dir.bytes@),
        config::env_view(None) is None,
{
}

} // verus!
