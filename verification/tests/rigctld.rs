use wavelog_relay::addr::{parse_socket_addr, SocketAddr};
use wavelog_relay::binary32::Binary32;
use wavelog_relay::duration::Duration;
use wavelog_relay::modes::HamlibMode;
use wavelog_relay::rigctld::exchange::received_line;
use wavelog_relay::rigctld::{
    backoff_delay, parse_rprt, parse_set_response, DegradedKind, Endpoint, EndpointParseError,
    Exchange, Health, HealthState, RigActor, RigCommand, RigError, RigReply, RigState, Step,
};

/// Plays rigctld: for each command that the client sends, the lines it answers.
/// Returns the commands that were sent and the outcome, `None` where the answers
/// ran out.
fn play(
    command: RigCommand,
    script: &[(&str, &str)],
) -> (Vec<String>, Option<Result<RigReply, RigError>>) {
    let (mut exchange, mut line) = Exchange::begin(command);
    let mut sent = Vec::new();
    let mut answers: Vec<String> = Vec::new();
    let mut next = 0;
    loop {
        if !line.is_empty() {
            if next < script.len() {
                assert_eq!(line, script[next].0);
                let mut lines: Vec<String> =
                    script[next].1.split('\n').map(|l| l.to_owned()).collect();
                answers.append(&mut lines);
                next += 1;
            }
            sent.push(line);
        }
        if answers.is_empty() {
            return (sent, None);
        }
        let answer = answers.remove(0);
        let number = answer.parse::<f32>().ok().map(|x| Binary32::from_bits(x.to_bits()));
        match exchange.on_line(&answer, number) {
            Step::Send(x, l) => {
                exchange = x;
                line = l;
            }
            Step::Read(x) => {
                exchange = x;
                line = String::new();
            }
            Step::Finish(outcome) => {
                assert!(answers.is_empty(), "unread answer lines: {answers:?}");
                return (sent, Some(outcome));
            }
        }
    }
}

fn outcome(command: RigCommand, script: &[(&str, &str)]) -> Result<RigReply, RigError> {
    let (sent, outcome) = play(command, script);
    assert_eq!(sent.len(), script.len(), "sent {sent:?}");
    outcome.expect("the exchange is over")
}

fn state_of(reply: RigReply) -> RigState {
    match reply {
        RigReply::State(state) => state,
        other => panic!("expected a state, got {other:?}"),
    }
}

fn power_of(reply: RigReply) -> f32 {
    match reply {
        RigReply::Power(p) => f32::from_bits(p.to_bits()),
        other => panic!("expected a power, got {other:?}"),
    }
}

#[test]
fn parse_rprt_recognizes_codes() {
    assert_eq!(parse_rprt("RPRT 0"), Some(0));
    assert_eq!(parse_rprt("RPRT -1"), Some(-1));
    assert_eq!(parse_rprt("RPRT -42"), Some(-42));
    assert_eq!(parse_rprt("RPRT  -7"), Some(-7));
    assert_eq!(parse_rprt("RPRT garbage"), None);
    assert_eq!(parse_rprt("14000000"), None);
    assert_eq!(parse_rprt(""), None);
}

#[test]
fn parse_rprt_edge_cases() {
    assert_eq!(parse_rprt("RPRT"), None);
    assert_eq!(parse_rprt("rprt 0"), None);
    assert_eq!(parse_rprt(" RPRT 0"), None);
    assert_eq!(parse_rprt("RPRT +3 \t"), Some(3));
    assert_eq!(parse_rprt("RPRT -2147483648"), Some(i32::MIN));
    assert_eq!(parse_rprt("RPRT 2147483648"), None);
}

#[test]
fn parse_set_response_branches() {
    assert!(matches!(parse_set_response("RPRT 0"), Ok(())));
    assert!(matches!(
        parse_set_response("RPRT -1"),
        Err(RigError::Hamlib(-1))
    ));
    assert!(matches!(
        parse_set_response("garbage"),
        Err(RigError::BadResponse(_))
    ));
}

#[test]
fn backoff_caps_at_ten_seconds() {
    assert_eq!(backoff_delay(0), Duration::from_millis(500));
    assert_eq!(backoff_delay(1), Duration::from_secs(1));
    assert_eq!(backoff_delay(2), Duration::from_secs(2));
    assert_eq!(backoff_delay(3), Duration::from_secs(5));
    assert_eq!(backoff_delay(4), Duration::from_secs(10));
    assert_eq!(backoff_delay(5), Duration::from_secs(10));
    assert_eq!(backoff_delay(100), Duration::from_secs(10));
}

#[test]
fn get_freq_parses_decimal_hz() {
    let reply = outcome(RigCommand::GetFreq, &[("f", "14074000")]).unwrap();
    assert!(matches!(reply, RigReply::Freq(14_074_000)), "got {reply:?}");
}

#[test]
fn get_mode_returns_first_token_only() {
    let reply = outcome(RigCommand::GetMode, &[("m", "USB\n2400")]).unwrap();
    match reply {
        RigReply::Mode(mode) => assert_eq!(&*mode, "USB"),
        other => panic!("got {other:?}"),
    }
    let reply = outcome(RigCommand::GetMode, &[("m", "  CW-U 500\n2400")]).unwrap();
    match reply {
        RigReply::Mode(mode) => assert_eq!(&*mode, "CW-U"),
        other => panic!("got {other:?}"),
    }
}

#[test]
fn get_power_parses_fractional_rfpower() {
    let reply = outcome(RigCommand::GetPower, &[("\\get_level RFPOWER", "0.5")]).unwrap();
    let p = power_of(reply);
    assert!((p - 0.5).abs() < 1e-6, "got {p}");
}

#[test]
fn set_freq_sends_capital_f_command_then_acks() {
    let reply = outcome(RigCommand::SetFreq { hz: 14_074_000 }, &[("F 14074000", "RPRT 0")]);
    assert!(matches!(reply, Ok(RigReply::Done)), "got {reply:?}");
}

#[test]
fn set_mode_sends_uppercase_hamlib_with_nochange_passband() {
    let reply = outcome(RigCommand::SetMode { mode: HamlibMode::Usb }, &[("M USB -1", "RPRT 0")]);
    assert!(matches!(reply, Ok(RigReply::Done)), "got {reply:?}");
    let reply =
        outcome(RigCommand::SetMode { mode: HamlibMode::PktUsb }, &[("M PKTUSB -1", "RPRT 0")]);
    assert!(matches!(reply, Ok(RigReply::Done)), "got {reply:?}");
}

#[test]
fn set_freq_mode_writes_f_then_m_back_to_back() {
    let command = RigCommand::SetFreqMode { hz: 28_270_000, mode: HamlibMode::Usb };
    let reply = outcome(command, &[("F 28270000", "RPRT 0"), ("M USB -1", "RPRT 0")]);
    assert!(matches!(reply, Ok(RigReply::Done)), "got {reply:?}");
}

#[test]
fn set_freq_mode_skips_m_when_f_fails() {
    let command = RigCommand::SetFreqMode { hz: 28_270_000, mode: HamlibMode::Usb };
    let err = outcome(command, &[("F 28270000", "RPRT -9")]).unwrap_err();
    assert!(matches!(err, RigError::Hamlib(-9)), "got {err:?}");
}

#[test]
fn set_freq_mode_surfaces_m_error() {
    let command = RigCommand::SetFreqMode { hz: 28_270_000, mode: HamlibMode::Usb };
    let err = outcome(command, &[("F 28270000", "RPRT 0"), ("M USB -1", "RPRT -1")]).unwrap_err();
    assert!(matches!(err, RigError::Hamlib(-1)), "got {err:?}");
}

#[test]
fn rprt_negative_surfaces_as_hamlib_error() {
    let err = outcome(RigCommand::GetFreq, &[("f", "RPRT -1")]).unwrap_err();
    assert!(matches!(err, RigError::Hamlib(-1)), "got {err:?}");
}

#[test]
fn set_freq_hamlib_error_surfaces_with_negative_code() {
    let err = outcome(RigCommand::SetFreq { hz: 14_074_000 }, &[("F 14074000", "RPRT -9")])
        .unwrap_err();
    assert!(matches!(err, RigError::Hamlib(-9)), "got {err:?}");
}

#[test]
fn get_mode_rejects_empty_response_as_bad_response() {
    // First line empty, second line is the (also-meaningless) passband: both
    // are read, to keep the connection in sync.
    let err = outcome(RigCommand::GetMode, &[("m", "\n0")]).unwrap_err();
    assert!(matches!(err, RigError::BadResponse(_)), "got {err:?}");
}

#[test]
fn bad_mode_answer_outlives_a_lost_passband_line() {
    let (exchange, _) = Exchange::begin(RigCommand::GetMode);
    let exchange = match exchange.on_line("  ", None) {
        Step::Read(x) => x,
        other => panic!("got {other:?}"),
    };
    let (err, lost) = exchange.on_io_error();
    assert!(!lost);
    match err {
        RigError::BadResponse(line) => assert_eq!(line, "  "),
        other => panic!("got {other:?}"),
    }
}

#[test]
fn get_power_rejects_non_finite_value() {
    for reply in ["NaN", "inf", "-inf"] {
        let err = outcome(RigCommand::GetPower, &[("\\get_level RFPOWER", reply)]).unwrap_err();
        assert!(
            matches!(err, RigError::BadResponse(_)),
            "input {reply}: got {err:?}",
        );
    }
}

#[test]
fn get_power_clamps_out_of_range_value() {
    let p = power_of(outcome(RigCommand::GetPower, &[("\\get_level RFPOWER", "1.001")]).unwrap());
    assert!((p - 1.0).abs() < 1e-6, "got {p}");
}

#[test]
fn get_power_clamps_negative_value() {
    let p = power_of(outcome(RigCommand::GetPower, &[("\\get_level RFPOWER", "-0.001")]).unwrap());
    assert!(p == 0.0, "got {p}");
}

#[test]
fn get_power_rejects_what_is_no_number() {
    let err = outcome(RigCommand::GetPower, &[("\\get_level RFPOWER", "lots")]).unwrap_err();
    assert!(matches!(err, RigError::BadResponse(_)), "got {err:?}");
}

#[test]
fn unparseable_response_surfaces_as_bad_response() {
    let err = outcome(RigCommand::GetFreq, &[("f", "garbage")]).unwrap_err();
    match err {
        RigError::BadResponse(s) => assert_eq!(&*s, "garbage"),
        other => panic!("expected BadResponse, got {other:?}"),
    }
}

#[test]
fn server_drop_during_response_surfaces_disconnected() {
    let (exchange, line) = Exchange::begin(RigCommand::GetFreq);
    assert_eq!(line, "f");
    let (err, lost) = exchange.on_io_error();
    assert!(matches!(err, RigError::Disconnected), "got {err:?}");
    assert!(lost);
}

#[test]
fn poll_aggregates_freq_mode_and_power() {
    let reply = outcome(
        RigCommand::Poll,
        &[("f", "14074000"), ("m", "USB\n2400"), ("\\get_level RFPOWER", "0.25")],
    );
    let state = state_of(reply.unwrap());
    assert_eq!(state.freq, 14_074_000);
    assert_eq!(&*state.mode, "USB");
    let power = state.power.expect("power should be Some when rig replies");
    assert!((f32::from_bits(power.to_bits()) - 0.25).abs() < 1e-6);
}

#[test]
fn poll_returns_none_power_when_rig_lacks_rfpower() {
    let reply = outcome(
        RigCommand::Poll,
        &[("f", "14074000"), ("m", "USB\n2400"), ("\\get_level RFPOWER", "RPRT -11")],
    );
    let state = state_of(reply.unwrap());
    assert_eq!(state.freq, 14_074_000);
    assert_eq!(&*state.mode, "USB");
    assert!(state.power.is_none(), "power should be None on RPRT -11");
}

#[test]
fn poll_surfaces_every_other_error() {
    let err = outcome(RigCommand::Poll, &[("f", "RPRT -5")]).unwrap_err();
    assert!(matches!(err, RigError::Hamlib(-5)), "got {err:?}");
    let err = outcome(RigCommand::Poll, &[("f", "1"), ("m", "RPRT -6")]).unwrap_err();
    assert!(matches!(err, RigError::Hamlib(-6)), "got {err:?}");
    let err = outcome(
        RigCommand::Poll,
        &[("f", "1"), ("m", "USB\n0"), ("\\get_level RFPOWER", "x")],
    )
    .unwrap_err();
    assert!(matches!(err, RigError::BadResponse(_)), "got {err:?}");
}

#[test]
fn received_lines_lose_their_line_end() {
    assert_eq!(received_line("RPRT 0\r\n").unwrap(), "RPRT 0");
    assert_eq!(received_line("\n").unwrap(), "");
    assert_eq!(received_line("x").unwrap(), "x");
    assert!(received_line("").is_none());
}

#[test]
fn rig_error_messages() {
    assert_eq!(RigError::Disconnected.message(), "rigctld connection lost");
    assert_eq!(RigError::Hamlib(-11).message(), "rigctld returned error code -11");
    assert_eq!(
        RigError::BadResponse("x".to_owned()).message(),
        "rigctld returned an unparseable response: x",
    );
}

#[test]
fn endpoint_parses_ipv4_socketaddr() {
    let e: Endpoint = "127.0.0.1:4532".parse().unwrap();
    assert!(matches!(e, Endpoint::Resolved(_)));
    assert_eq!(e.to_text(), "127.0.0.1:4532");
}

#[test]
fn endpoint_parses_bracketed_ipv6_as_socketaddr() {
    let e: Endpoint = "[::1]:4532".parse().unwrap();
    assert!(matches!(e, Endpoint::Resolved(_)));
}

#[test]
fn endpoint_parses_hostname() {
    let e: Endpoint = "rig.local:4532".parse().unwrap();
    match e {
        Endpoint::Host { host, port } => {
            assert_eq!(&*host, "rig.local");
            assert_eq!(port, 4532);
        }
        other => panic!("expected Host variant, got {other:?}"),
    }
}

#[test]
fn endpoint_host_is_written_as_it_was_read() {
    let e: Endpoint = "rig.local:4532".parse().unwrap();
    assert_eq!(e.to_text(), "rig.local:4532");
}

#[test]
fn endpoint_rejects_missing_port() {
    let err = "rig.local".parse::<Endpoint>().unwrap_err();
    assert!(
        matches!(err, EndpointParseError::MissingPort(_)),
        "got {err:?}"
    );
}

#[test]
fn endpoint_rejects_bad_port() {
    let err = "rig.local:notaport".parse::<Endpoint>().unwrap_err();
    assert!(
        matches!(err, EndpointParseError::InvalidPort(_)),
        "got {err:?}"
    );
}

#[test]
fn endpoint_rejects_empty_host() {
    let err = ":4532".parse::<Endpoint>().unwrap_err();
    assert!(
        matches!(err, EndpointParseError::EmptyHost(_)),
        "got {err:?}"
    );
}

#[test]
fn endpoint_rejects_unbracketed_ipv6() {
    let err = "::1:4532".parse::<Endpoint>().unwrap_err();
    assert!(
        matches!(err, EndpointParseError::AmbiguousIpv6 { .. }),
        "got {err:?}"
    );
}

#[test]
fn endpoint_error_messages() {
    for (text, message) in [
        ("rig", "missing port in rigctld endpoint `rig`"),
        ("rig:x", "invalid port in rigctld endpoint `x`"),
        (":1", "empty host in rigctld endpoint `:1`"),
        ("::1:4532", "IPv6 endpoint must be bracketed: `[::1]:port` (got `::1:4532`)"),
    ] {
        assert_eq!(Endpoint::parse(text).unwrap_err().message(), message);
    }
}

#[test]
fn endpoint_from_socket_addr_conversion() {
    let addr: SocketAddr = parse_socket_addr("127.0.0.1:4532").unwrap();
    let endpoint: Endpoint = addr.into();
    assert_eq!(endpoint, Endpoint::Resolved(addr));
}

#[test]
fn endpoint_deserializes_from_toml() {
    let resolved: toml::Table = toml::from_str(r#"rigctld = "127.0.0.1:4532""#).unwrap();
    let endpoint: Endpoint = resolved["rigctld"].as_str().unwrap().parse().unwrap();
    assert!(matches!(endpoint, Endpoint::Resolved(_)));
    let host: toml::Table = toml::from_str(r#"rigctld = "rig.local:4532""#).unwrap();
    let endpoint: Endpoint = host["rigctld"].as_str().unwrap().parse().unwrap();
    assert!(matches!(endpoint, Endpoint::Host { .. }));
}

#[test]
fn health_first_failure_returns_one_and_publishes() {
    let mut h = Health::new();
    assert_eq!(h.record_failure(DegradedKind::Unreachable), 1);
    assert_eq!(
        h.state(),
        HealthState::Degraded {
            kind: DegradedKind::Unreachable,
            failures: 1,
        }
    );
}

#[test]
fn health_same_kind_repeats_increment_counter() {
    let mut h = Health::new();
    let _ = h.record_failure(DegradedKind::Unresponsive);
    assert_eq!(h.record_failure(DegradedKind::Unresponsive), 2);
    assert_eq!(h.record_failure(DegradedKind::Unresponsive), 3);
    assert_eq!(
        h.state(),
        HealthState::Degraded {
            kind: DegradedKind::Unresponsive,
            failures: 3,
        }
    );
}

#[test]
fn health_kind_change_resets_counter_to_one() {
    let mut h = Health::new();
    let _ = h.record_failure(DegradedKind::Unresponsive);
    let _ = h.record_failure(DegradedKind::Unresponsive);
    assert_eq!(h.record_failure(DegradedKind::Unreachable), 1);
    assert_eq!(
        h.state(),
        HealthState::Degraded {
            kind: DegradedKind::Unreachable,
            failures: 1,
        }
    );
}

#[test]
fn health_success_from_healthy_is_noop() {
    let mut h = Health::new();
    assert!(!h.record_success());
    assert!(matches!(h.state, HealthState::Healthy));
}

#[test]
fn health_success_recovers_from_degraded_and_publishes() {
    let mut h = Health::new();
    let _ = h.record_failure(DegradedKind::Unresponsive);
    let _ = h.record_failure(DegradedKind::Unresponsive);
    assert!(h.record_success());
    assert_eq!(h.state(), HealthState::Healthy);
}

#[test]
fn degraded_kinds_have_names() {
    assert_eq!(DegradedKind::Unreachable.as_str(), "unreachable");
    assert_eq!(DegradedKind::Unresponsive.as_str(), "unresponsive");
}

#[test]
fn reconnects_back_off_and_start_over() {
    let mut actor = RigActor::new();
    assert_eq!(actor.on_connect_failed(), 1);
    assert_eq!(actor.next_delay(), Duration::from_millis(500));
    assert_eq!(actor.on_connect_failed(), 2);
    assert_eq!(actor.next_delay(), Duration::from_secs(1));
    // The reconnect is silent: the rig has not answered yet.
    assert!(!actor.on_connected());
    assert!(actor.on_command_answered());
    assert!(!actor.on_command_answered());
    assert_eq!(actor.on_command_lost(), 1);
    assert_eq!(actor.next_delay(), Duration::from_millis(500));
    assert!(!actor.on_connected());
    assert!(actor.on_command_answered());
    assert!(actor.on_connected());
}
