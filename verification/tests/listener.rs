use wavelog_relay::listener::{origin_matches, ListenerError, TuneAction, Tuning};
use wavelog_relay::modes::{HamlibMode, ModeOverrides};
use wavelog_relay::rigctld::{Exchange, RigCommand};

/// Serves one request against a rig that answers as told; returns the command
/// lines that reach rigctld and the HTTP status.
fn tune(path: (&str, &str), overrides: &ModeOverrides, rig: &[bool]) -> (Vec<String>, u16) {
    let mut commands = Vec::new();
    let mut answers = rig.iter();
    let (mut tuning, mut action) = Tuning::begin(path.0, path.1, overrides);
    loop {
        let command = match action {
            TuneAction::Respond(status) => return (commands, status),
            TuneAction::SetFreq(hz) => RigCommand::SetFreq { hz },
            TuneAction::SetMode(mode) => RigCommand::SetMode { mode },
        };
        commands.push(Exchange::begin(command).1);
        let next = tuning.on_rig_reply(*answers.next().expect("an answer"));
        tuning = next.0;
        action = next.1;
    }
}

#[test]
fn tune_dispatches_set_freq_then_set_mode() {
    let (commands, status) = tune(("14074000", "usb"), &ModeOverrides::default(), &[true, true]);
    assert_eq!(status, 200);
    assert_eq!(commands, vec!["F 14074000", "M USB -1"]);
}

#[test]
fn non_numeric_freq_returns_400_without_touching_rig() {
    let (commands, status) = tune(("notanumber", "usb"), &ModeOverrides::default(), &[]);
    assert_eq!(status, 400);
    assert!(commands.is_empty());
    assert_eq!(tune(("-5", "usb"), &ModeOverrides::default(), &[]).1, 400);
    assert_eq!(tune(("", "usb"), &ModeOverrides::default(), &[]).1, 400);
    assert_eq!(tune(("14.074", "usb"), &ModeOverrides::default(), &[]).1, 400);
}

#[test]
fn unknown_mode_returns_400_without_touching_rig() {
    let (commands, status) = tune(("14074000", "xyz"), &ModeOverrides::default(), &[]);
    assert_eq!(status, 400);
    assert!(commands.is_empty());
}

#[test]
fn pkt_mode_resolves_through_overrides() {
    let overrides = ModeOverrides {
        pkt: HamlibMode::PktLsb,
        dig: HamlibMode::PktUsb,
    };
    let (commands, status) = tune(("3573000", "pkt"), &overrides, &[true, true]);
    assert_eq!(status, 200);
    assert_eq!(commands, vec!["F 3573000", "M PKTLSB -1"]);
}

#[test]
fn rig_disconnected_returns_502() {
    let (commands, status) = tune(("14074000", "usb"), &ModeOverrides::default(), &[false]);
    assert_eq!(status, 502);
    assert_eq!(commands, vec!["F 14074000"]);
    let (commands, status) = tune(("14074000", "usb"), &ModeOverrides::default(), &[true, false]);
    assert_eq!(status, 502);
    assert_eq!(commands.len(), 2);
}

#[test]
fn matching_origin_gets_cors_allow_origin_header() {
    let allowed = b"https://wavelog.mdel.io";
    assert!(origin_matches(b"https://wavelog.mdel.io", allowed));
}

#[test]
fn non_matching_origin_gets_no_cors_header() {
    let allowed = b"https://wavelog.mdel.io";
    assert!(!origin_matches(b"https://evil.example", allowed));
    assert!(!origin_matches(b"https://wavelog.mdel.io/", allowed));
    assert!(!origin_matches(b"HTTPS://wavelog.mdel.io", allowed));
    assert!(!origin_matches(b"", allowed));
}

#[test]
fn listener_error_message() {
    assert_eq!(
        ListenerError::Serve("x".to_owned()).message(),
        "axum serve loop failed: x",
    );
}
