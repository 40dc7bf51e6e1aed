use wavelog_relay::binary32::Binary32;
use wavelog_relay::duration::Duration;
use wavelog_relay::rigctld::RigState;
use wavelog_relay::wavelog::client::{
    accept_url, build_station_info_url, build_url, qso_response, radio_response, redacted, stations_response, try_build_station_info_url,
    QsoResponse, StationInfoRow,
};
use wavelog_relay::wavelog::retry::{is_retryable, Retries, RetryStep};
use wavelog_relay::wavelog::station::find_active_station;
use wavelog_relay::wavelog::{
    ActiveStationCache, Station, StationSource, WavelogClient, WavelogError,
};

fn f(x: f32) -> Binary32 {
    Binary32::from_bits(x.to_bits())
}

fn rig_state(freq: u64, mode: &str, power: f32) -> RigState {
    RigState {
        freq,
        mode: mode.into(),
        power: Some(f(power)),
    }
}

fn rig_state_no_power(freq: u64, mode: &str) -> RigState {
    RigState {
        freq,
        mode: mode.into(),
        power: None,
    }
}

fn client_for(base_url: &str, key: &str) -> WavelogClient {
    match WavelogClient::new(base_url, key) {
        Ok(client) => client,
        Err(e) => panic!("{}", e.message()),
    }
}

fn status(status: u16) -> WavelogError {
    WavelogError::Status { status, body: "".into() }
}

/// Runs the retry policy over the results of the attempts: the sleeps in
/// seconds, the attempts made, and the outcome.
fn run(results: Vec<Result<(), WavelogError>>) -> (Vec<u64>, usize, Result<(), WavelogError>) {
    let mut retries = Retries::begin();
    let mut sleeps = vec![];
    let mut made = 0;
    for result in results {
        made += 1;
        match retries.on_result(result) {
            RetryStep::Again(sleep) => sleeps.push(sleep.secs),
            RetryStep::Done(outcome) => return (sleeps, made, outcome),
        }
    }
    panic!("the results do not decide");
}

#[test]
fn redacted_debug_hides_key_body() {
    let client = client_for("http://localhost", "supersecret");
    let dbg = client.redacted_key().unwrap();
    assert!(!dbg.contains("supersecret"), "key leaked: {dbg}");
    assert!(dbg.contains("****cret"));
    assert_eq!(dbg, "\"****cret\"");
}

#[test]
fn redacted_debug_short_key_fully_masked() {
    let client = client_for("http://localhost", "abc");
    let dbg = client.redacted_key().unwrap();
    assert!(!dbg.contains("abc"), "key leaked: {dbg}");
    assert!(dbg.contains("****"));
}

#[test]
fn redaction_counts_bytes() {
    assert_eq!(redacted("abcd"), "\"****\"");
    assert_eq!(redacted("abcde"), "\"****bcde\"");
    assert_eq!(redacted("ab\u{e9}\u{e9}"), "\"****\u{e9}\u{e9}\"");
    // The last four bytes begin inside a character.
    assert!(client_for("http://localhost", "a\u{e9}bcd").redacted_key().is_none());
}

#[test]
fn is_retryable_classifies_variants() {
    assert!(is_retryable(&WavelogError::Status {
        status: 500,
        body: "".into()
    }));
    assert!(is_retryable(&WavelogError::Status {
        status: 503,
        body: "".into()
    }));
    assert!(!is_retryable(&WavelogError::Status {
        status: 400,
        body: "".into()
    }));
    assert!(!is_retryable(&WavelogError::Status {
        status: 401,
        body: "".into()
    }));
    assert!(!is_retryable(&WavelogError::InvalidUrl("".into())));
    assert!(!is_retryable(&WavelogError::Rejected {
        reason: "dup".into()
    }));
    assert!(!is_retryable(&WavelogError::BadResponse("garbage".into())));
    assert!(is_retryable(&WavelogError::Http("timed out".into())));
    assert!(!is_retryable(&WavelogError::NoActiveStation));
    assert!(!is_retryable(&status(499)));
}

#[test]
fn new_rejects_unparseable_url() {
    match WavelogClient::new("not a url", "k") {
        Ok(_) => panic!("accepted"),
        Err(err) => {
            assert!(matches!(err, WavelogError::InvalidUrl(_)));
            assert_eq!(err.message(), "invalid wavelog URL `not a url`");
        }
    }
}

#[test]
fn trailing_slashes_are_trimmed() {
    assert_eq!(client_for("http://x/index.php//", "k").base_url(), "http://x/index.php");
    assert_eq!(
        build_url("HTTP://Wavelog.Test/index.php/", "qso").unwrap(),
        "http://wavelog.test/index.php/api/qso",
    );
    assert!(matches!(
        build_url("not a url/", "qso"),
        Err(WavelogError::InvalidUrl(base)) if base == "not a url/"
    ));
}

#[test]
fn build_station_info_url_percent_encodes_key() {
    let url = build_station_info_url("https://wavelog.test", "key with spaces").unwrap();
    assert!(
        url.ends_with("/api/station_info/key%20with%20spaces"),
        "got {url}"
    );
    assert_eq!(url, "https://wavelog.test/api/station_info/key%20with%20spaces");
}

#[test]
fn station_info_urls_are_checked_for_room() {
    let url = try_build_station_info_url("https://wavelog.test", "a/b").unwrap().unwrap();
    assert_eq!(url, "https://wavelog.test/api/station_info/a%2Fb");
    assert!(try_build_station_info_url("nonsense", "k").unwrap().is_err());
    let client = client_for("http://localhost/", "k");
    assert_eq!(
        client.try_list_stations().unwrap().unwrap(),
        client.list_stations().unwrap()
    );
}

#[test]
fn station_info_url_rejects_what_is_no_url() {
    assert!(matches!(
        build_station_info_url("nonsense", "k"),
        Err(WavelogError::InvalidUrl(base)) if base == "nonsense"
    ));
    // A URL that cannot be a base has no path segments.
    assert!(matches!(
        build_station_info_url("mailto:a@b", "k"),
        Err(WavelogError::InvalidUrl(base)) if base == "mailto:a@b"
    ));
}

#[test]
fn push_radio_posts_expected_json_body() {
    let client = client_for("http://127.0.0.1:1234", "test-key");
    let (url, payload) = client
        .push_radio("FT-710", &rig_state(14_074_000, "USB", 0.1), f(100.0))
        .unwrap();
    assert_eq!(url, "http://127.0.0.1:1234/api/radio");
    assert_eq!(payload.key, "test-key");
    assert_eq!(payload.radio, "FT-710");
    assert_eq!(payload.frequency, 14_074_000);
    assert_eq!(payload.mode, "USB");
    let watts = f32::from_bits(payload.power.unwrap().to_bits());
    assert!((watts - 10.0).abs() < 1e-3);
    assert_eq!(watts, 0.1f32 * 100.0);
}

#[test]
fn push_radio_omits_power_field_when_state_power_is_none() {
    let client = client_for("http://127.0.0.1:1234", "test-key");
    let (_, payload) = client
        .push_radio("FT-710", &rig_state_no_power(14_074_000, "USB"), f(100.0))
        .unwrap();
    assert!(payload.power.is_none(), "power must be omitted when None");
    assert_eq!(payload.frequency, 14_074_000);
    assert_eq!(payload.mode, "USB");
}

#[test]
fn push_radio_scales_power_by_power_max_watts() {
    let client = client_for("http://127.0.0.1:1234", "test-key");
    // power_max=50, fraction=0.2 -> 10W
    let (_, payload) = client
        .push_radio("FT-710", &rig_state(14_074_000, "USB", 0.2), f(50.0))
        .unwrap();
    let watts = f32::from_bits(payload.power.unwrap().to_bits());
    assert!((watts - 10.0).abs() < 1e-3);
}

#[test]
fn push_radio_retries_on_5xx_then_succeeds() {
    let (sleeps, made, outcome) = run(vec![Err(status(500)), Err(status(500)), Ok(())]);
    assert!(outcome.is_ok());
    assert_eq!(made, 3);
    assert_eq!(sleeps, vec![1, 4]);
}

#[test]
fn push_radio_all_5xx_returns_error_after_three_attempts() {
    let (_, made, outcome) = run(vec![Err(status(503)), Err(status(503)), Err(status(503))]);
    let err = outcome.unwrap_err();
    assert!(
        matches!(err, WavelogError::Status { status: 503, .. }),
        "got {err:?}"
    );
    assert_eq!(made, 3);
}

#[test]
fn the_last_error_is_returned() {
    let (_, _, outcome) = run(vec![
        Err(WavelogError::Http("a".into())),
        Err(status(500)),
        Err(WavelogError::Http("c".into())),
    ]);
    assert_eq!(outcome.unwrap_err().message(), "HTTP request failed: c");
}

#[test]
fn push_radio_does_not_retry_on_4xx() {
    let (sleeps, made, outcome) = run(vec![Err(radio_response(400, "".into()).unwrap_err())]);
    let err = outcome.unwrap_err();
    assert!(
        matches!(err, WavelogError::Status { status: 400, .. }),
        "got {err:?}"
    );
    assert_eq!(made, 1);
    assert!(sleeps.is_empty());
}

#[test]
fn success_statuses() {
    for (code, ok) in [(199, false), (200, true), (204, true), (299, true), (300, false), (500, false)] {
        assert_eq!(radio_response(code, "b".into()).is_ok(), ok, "{code}");
    }
    assert_eq!(
        radio_response(503, "busy".into()).unwrap_err().message(),
        "wavelog returned HTTP 503: busy",
    );
}

#[test]
fn push_qso_posts_adif_payload() {
    let client = client_for("http://127.0.0.1:1234/", "test-key");
    let (url, payload) = client.push_qso("3", "<CALL:3>K1B <MODE:3>FT8 <EOR>").unwrap();
    assert_eq!(url, "http://127.0.0.1:1234/api/qso");
    assert_eq!(payload.key, "test-key");
    assert_eq!(payload.station_profile_id, "3");
    assert_eq!(payload.string, "<CALL:3>K1B <MODE:3>FT8 <EOR>");
}

fn answer(status: Option<&str>, reason: Option<&str>) -> Result<QsoResponse, String> {
    Ok(QsoResponse {
        status: status.map(|s| s.to_owned()),
        reason: reason.map(|s| s.to_owned()),
    })
}

#[test]
fn push_qso_treats_200_with_non_created_status_as_rejection() {
    let result = qso_response(200, "".into(), answer(Some("rejected"), Some("duplicate qso")));
    let (_, made, outcome) = run(vec![result]);
    match outcome.unwrap_err() {
        WavelogError::Rejected { reason } => assert_eq!(&*reason, "duplicate qso"),
        other => panic!("expected Rejected, got {other:?}"),
    }
    // No retry on Rejected.
    assert_eq!(made, 1);
}

#[test]
fn qso_answers() {
    assert!(qso_response(200, "".into(), answer(Some("created"), Some(""))).is_ok());
    assert!(qso_response(201, "".into(), answer(Some("created"), None)).is_ok());
    let text = |r: Result<(), WavelogError>| r.unwrap_err().message();
    assert_eq!(
        text(qso_response(200, "".into(), answer(Some("Created"), None))),
        "wavelog rejected the submission: Created",
    );
    assert_eq!(
        text(qso_response(200, "".into(), answer(None, None))),
        "wavelog rejected the submission: unknown",
    );
    assert_eq!(
        text(qso_response(500, "x".into(), answer(Some("created"), None))),
        "wavelog returned HTTP 500: x",
    );
}

#[test]
fn push_qso_retries_5xx_then_succeeds() {
    let (_, made, outcome) = run(vec![
        qso_response(503, "".into(), Err("EOF".into())),
        qso_response(503, "".into(), Err("EOF".into())),
        qso_response(200, "".into(), answer(Some("created"), Some(""))),
    ]);
    assert!(outcome.is_ok());
    assert_eq!(made, 3);
}

#[test]
fn push_qso_does_not_retry_on_4xx() {
    let (_, made, outcome) = run(vec![qso_response(401, "".into(), Err("EOF".into()))]);
    let err = outcome.unwrap_err();
    assert!(
        matches!(err, WavelogError::Status { status: 401, .. }),
        "got {err:?}"
    );
    assert_eq!(made, 1);
}

#[test]
fn push_qso_unparseable_response_is_bad_response() {
    let err = qso_response(200, "not json".into(), Err("expected ident".into())).unwrap_err();
    assert!(matches!(err, WavelogError::BadResponse(_)), "got {err:?}");
    assert_eq!(
        err.message(),
        "wavelog response could not be parsed: expected ident: not json",
    );
}

fn row(id: &str, name: &str, callsign: &str, active: Option<&str>) -> StationInfoRow {
    StationInfoRow {
        station_id: id.to_owned(),
        station_profile_name: name.to_owned(),
        station_callsign: callsign.to_owned(),
        station_active: active.map(|s| s.to_owned()),
    }
}

#[test]
fn list_stations_parses_station_info_rows() {
    let client = client_for("http://127.0.0.1:1", "test-key");
    assert_eq!(
        client.list_stations().unwrap(),
        "http://127.0.0.1:1/api/station_info/test-key",
    );
    let stations = stations_response(
        200,
        "".into(),
        Ok(vec![
            row("1", "Home", "K1AB", None),
            row("2", "Portable", "K1AB/P", Some("1")),
            row("3", "Club", "K1CC", Some("0")),
        ]),
    )
    .unwrap();
    assert_eq!(stations.len(), 3);
    assert_eq!(&*stations[0].id, "1");
    assert_eq!(&*stations[0].name, "Home");
    assert_eq!(&*stations[0].callsign, "K1AB");
    assert_eq!(&*stations[1].id, "2");
    assert!(!stations[0].active);
    assert!(stations[1].active);
    assert!(!stations[2].active);
}

#[test]
fn list_stations_surfaces_http_error_as_status() {
    let err = stations_response(403, "forbidden".into(), Err("x".into())).unwrap_err();
    assert!(
        matches!(err, WavelogError::Status { status: 403, .. }),
        "got {err:?}"
    );
    let err = stations_response(200, "body".into(), Err("why".into())).unwrap_err();
    assert_eq!(err.message(), "wavelog response could not be parsed: why: body");
}

fn at(secs: u64) -> Duration {
    Duration::from_secs(secs)
}

fn fetched(active_id: &str) -> Result<Vec<Station>, WavelogError> {
    stations_response(
        200,
        "".into(),
        Ok(vec![
            row("1", "Home", "K1", None),
            row(active_id, "Portable", "K1/P", Some("1")),
        ]),
    )
}

fn none_active() -> Result<Vec<Station>, WavelogError> {
    stations_response(200, "".into(), Ok(vec![row("1", "Home", "K1", None)]))
}

#[test]
fn fixed_station_source_returns_configured_id() {
    let src = StationSource::Fixed("42".into());
    assert_eq!(src.resolve(at(0)).unwrap(), "42");
}

#[test]
fn active_station_cache_serves_cached_value_within_ttl() {
    let mut cache = ActiveStationCache::new(Duration::from_secs(300));
    assert!(cache.lookup(at(10)).is_none());
    assert_eq!(cache.on_fetched(fetched("7"), at(10)).unwrap(), "7");
    assert_eq!(cache.lookup(at(11)).unwrap(), "7");
    assert_eq!(cache.lookup(at(309)).unwrap(), "7");
    assert_eq!(cache.remembered(), Some("7"));
}

#[test]
fn active_station_cache_refreshes_after_ttl() {
    let mut cache = ActiveStationCache::new(Duration::from_millis(10));
    cache.on_fetched(fetched("7"), Duration::from_millis(100)).unwrap();
    assert!(cache.lookup(Duration::from_millis(109)).is_some());
    assert!(cache.lookup(Duration::from_millis(110)).is_none());
    assert!(cache.lookup(Duration::from_millis(130)).is_none());
}

#[test]
fn active_station_cache_does_not_poison_on_error() {
    let mut cache = ActiveStationCache::new(Duration::from_secs(300));
    let first = cache.on_fetched(none_active(), at(1));
    assert!(
        matches!(first, Err(WavelogError::NoActiveStation)),
        "expected NoActiveStation, got {first:?}",
    );
    assert!(cache.lookup(at(2)).is_none());
    assert!(cache.on_fetched(Err(status(500)), at(2)).is_err());
    assert_eq!(cache.on_fetched(fetched("7"), at(3)).unwrap(), "7");
    assert_eq!(cache.lookup(at(4)).unwrap(), "7");
}

#[test]
fn active_source_uses_the_standard_time() {
    let mut src = StationSource::active();
    assert!(src.resolve(at(0)).is_none());
    assert_eq!(src.on_fetched(fetched("9"), at(0)).unwrap(), "9");
    assert_eq!(src.resolve(at(59)).unwrap(), "9");
    assert!(src.resolve(at(60)).is_none());
    let mut fixed = StationSource::Fixed("4".into());
    assert_eq!(fixed.on_fetched(Err(status(500)), at(0)).unwrap(), "4");
}

#[test]
fn the_first_active_station_is_taken() {
    let stations = stations_response(
        200,
        "".into(),
        Ok(vec![row("1", "a", "a", None), row("2", "b", "b", Some("1")), row("3", "c", "c", Some("1"))]),
    )
    .unwrap();
    assert_eq!(find_active_station(&stations).unwrap(), "2");
    assert_eq!(
        find_active_station(&[]).unwrap_err().message(),
        "no active station profile in wavelog",
    );
}

#[test]
fn urls_are_taken_as_they_were_read() {
    assert_eq!(accept_url("base", Some("http://x/".to_owned())).unwrap(), "http://x/");
    assert!(matches!(
        accept_url("base", None),
        Err(WavelogError::InvalidUrl(u)) if u == "base"
    ));
}

#[test]
fn payloads_are_built_without_a_url() {
    let client = client_for("http://localhost", "k");
    let qso = client.qso_payload("7", "<CALL:2>K1");
    assert_eq!((qso.key.as_str(), qso.station_profile_id.as_str()), ("k", "7"));
    assert_eq!((qso.kind, qso.string.as_str()), ("adif", "<CALL:2>K1"));
    let radio = client.radio_payload("R", &rig_state(14_074_000, "USB", 0.5), f(50.0));
    assert_eq!((radio.key.as_str(), radio.radio.as_str()), ("k", "R"));
    assert_eq!((radio.frequency, radio.mode.as_str()), (14_074_000, "USB"));
    assert_eq!(radio.power, Some(f(25.0)));
}
