use wavelog_relay::binary32::Binary32;
use wavelog_relay::rigctld::RigState;
use wavelog_relay::ws::{
    radio_status, vet_origin, welcome_frame, Broadcast, Inbound, Phase, WsAction, WsConnection,
    WsError,
};

const ALLOWED: &[u8] = b"https://wavelog.test";

fn state(power: Option<f32>) -> RigState {
    RigState {
        freq: 14_074_000,
        mode: "USB".into(),
        power: power.map(|p| Binary32::from_bits(p.to_bits())),
    }
}

fn opened() -> WsConnection {
    let (mut connection, action) = WsConnection::open(false);
    assert!(matches!(action, WsAction::Welcome));
    assert!(matches!(connection.on_sent(true), WsAction::Wait));
    connection
}

#[test]
fn rejects_handshake_with_mismatched_origin() {
    assert_eq!(vet_origin(Some(b"https://evil.example"), ALLOWED), Err(403));
    assert_eq!(vet_origin(Some(b"https://wavelog.test:443"), ALLOWED), Err(403));
    assert_eq!(vet_origin(Some(ALLOWED), ALLOWED), Ok(()));
}

#[test]
fn rejects_handshake_without_origin_header() {
    assert_eq!(vet_origin(None, ALLOWED), Err(403));
}

#[test]
fn welcome_then_broadcast_is_received() {
    assert_eq!(welcome_frame(), r#"{"type":"welcome"}"#);
    let mut connection = opened();
    assert!(matches!(connection.on_broadcast(Broadcast::Frame), WsAction::Forward));
    assert!(matches!(connection.on_sent(true), WsAction::Wait));
    let frame = radio_status(
        "FT-710",
        Binary32::from_bits(100.0f32.to_bits()),
        &state(Some(0.1)),
        1234,
    );
    assert_eq!(frame.kind, "radio_status");
    assert_eq!(frame.radio, "FT-710");
    assert_eq!(frame.frequency, 14_074_000);
    assert_eq!(frame.mode, "USB");
    assert_eq!(f32::from_bits(frame.power.unwrap().to_bits()), 0.1f32 * 100.0);
    assert_eq!(frame.timestamp, 1234);
}

#[test]
fn broadcast_omits_power_when_state_power_is_none() {
    let frame = radio_status("R", Binary32::from_bits(100.0f32.to_bits()), &state(None), 1);
    assert!(frame.power.is_none());
}

#[test]
fn shutdown_signal_closes_connected_clients() {
    let mut connection = opened();
    assert!(matches!(connection.on_shutdown(false, false), WsAction::Wait));
    assert!(matches!(connection.on_shutdown(false, true), WsAction::CloseAndStop));
    assert_eq!(connection.phase, Phase::Over);
    let mut connection = opened();
    assert!(matches!(connection.on_shutdown(true, false), WsAction::CloseAndStop));
    let (connection, action) = WsConnection::open(true);
    assert!(matches!(action, WsAction::CloseAndStop));
    assert_eq!(connection.phase, Phase::Over);
}

#[test]
fn lagging_clients_are_dropped() {
    let mut connection = opened();
    assert!(matches!(connection.on_broadcast(Broadcast::Lagged(3)), WsAction::CloseAndStop));
    let mut connection = opened();
    assert!(matches!(connection.on_broadcast(Broadcast::Closed), WsAction::Stop));
    let mut connection = opened();
    assert!(matches!(connection.on_sent(false), WsAction::Stop));
    assert_eq!(connection.phase, Phase::Over);
}

#[test]
fn inbound_messages_are_discarded() {
    let mut connection = opened();
    assert!(matches!(connection.on_inbound(Inbound::Binary), WsAction::Wait));
    assert!(matches!(connection.on_inbound(Inbound::PingOrPong), WsAction::Wait));
    match connection.on_inbound(Inbound::Text("\u{e9}".repeat(200))) {
        WsAction::LogText(s) => assert_eq!(s, "\u{e9}".repeat(120)),
        other => panic!("got {other:?}"),
    }
    match connection.on_inbound(Inbound::Text("short".to_owned())) {
        WsAction::LogText(s) => assert_eq!(s, "short"),
        other => panic!("got {other:?}"),
    }
    assert_eq!(connection.phase, Phase::Open);
    for last in [Inbound::Close, Inbound::Failed, Inbound::End] {
        let mut connection = opened();
        assert!(matches!(connection.on_inbound(last), WsAction::Stop));
        assert_eq!(connection.phase, Phase::Over);
    }
}

#[test]
fn ws_error_message() {
    assert_eq!(WsError::Serve("x".to_owned()).message(), "axum serve loop failed: x");
}

#[test]
fn nothing_is_forwarded_before_the_welcome() {
    let (mut connection, action) = WsConnection::open(false);
    assert!(matches!(action, WsAction::Welcome));
    assert_eq!(connection.phase, Phase::Greeting);
    assert!(matches!(connection.on_sent(true), WsAction::Wait));
    for _ in 0..3 {
        assert!(matches!(connection.on_broadcast(Broadcast::Frame), WsAction::Forward));
        assert!(matches!(connection.on_sent(true), WsAction::Wait));
    }
    assert_eq!(connection.phase, Phase::Open);
}
