use wavelog_relay::addr::{parse_socket_addr, SocketAddr};
use wavelog_relay::duration::Duration;
use wavelog_relay::qso_queue::{QsoQueue, Spool};
use wavelog_relay::wavelog::client::{stations_response, StationInfoRow};
use wavelog_relay::wavelog::{StationSource, WavelogError};
use wavelog_relay::wsjtx::bind::{bind, BindPlan};
use wavelog_relay::wsjtx::listener::{Datagram, ListenAction, Listener, Offered, QueueItem};
use wavelog_relay::wsjtx::protocol::{MAGIC, MSG_TYPE_LOGGED_ADIF};
use wavelog_relay::wsjtx::worker::{handle_post_outcome, PostAction, PostOutcome, PostWorker};

fn datagram(message_type: u32, strings: &[&str]) -> Vec<u8> {
    let mut out = Vec::new();
    out.extend_from_slice(&MAGIC.to_be_bytes());
    out.extend_from_slice(&3u32.to_be_bytes());
    out.extend_from_slice(&message_type.to_be_bytes());
    for s in strings {
        out.extend_from_slice(&(s.len() as i32).to_be_bytes());
        out.extend_from_slice(s.as_bytes());
    }
    out
}

fn logged(adif: &str) -> Vec<u8> {
    datagram(MSG_TYPE_LOGGED_ADIF, &["WSJT-X", adif])
}

fn listening(persistent: bool) -> Listener {
    let mut listener = Listener::new(Vec::new(), persistent);
    assert!(matches!(listener.start(false), ListenAction::Receive));
    listener
}

fn offered(action: ListenAction) -> QueueItem {
    match action {
        ListenAction::Offer(item) => item,
        other => panic!("expected an offer, got {other:?}"),
    }
}

fn empty_queue() -> QsoQueue {
    match QsoQueue::open(Spool::Missing) {
        Ok((queue, _, _)) => queue,
        Err(e) => panic!("{}", e.message()),
    }
}

/// Takes a datagram through listener, queue and worker; the result of the POST
/// is given. Returns what the POST came to.
fn forward(
    listener: &Listener,
    queue: &mut QsoQueue,
    bytes: &[u8],
    post: Result<(), WavelogError>,
) -> PostOutcome {
    let (action, seen) = listener.on_datagram(bytes);
    assert!(matches!(seen, Datagram::Logged));
    let adif = match action {
        ListenAction::Persist(adif) => adif,
        other => panic!("got {other:?}"),
    };
    let pending = queue.begin_append(adif.clone(), 1);
    let seq = queue.commit_append(pending);
    let item = offered(listener.on_persisted(adif, Some(seq)));
    assert!(matches!(listener.on_offered(Offered::Taken), ListenAction::Receive));
    let mut worker = PostWorker::new();
    assert_eq!(worker.on_item(Some(item)), PostAction::Push);
    let (outcome, settled) = worker.on_posted(&post).unwrap();
    if let Some(seq) = settled {
        queue.remove(seq);
    }
    outcome
}

#[test]
fn mod_listener_to_worker_round_trip_posts_to_wavelog() {
    let listener = listening(false);
    let (action, seen) = listener.on_datagram(&logged("<CALL:5>VK3AB <MODE:3>FT8 <EOR>"));
    assert!(matches!(seen, Datagram::Logged));
    let item = offered(action);
    assert_eq!(item.seq, None);
    assert_eq!(item.adif, "<CALL:5>VK3AB <MODE:3>FT8 <EOR>");
    let mut worker = PostWorker::new();
    assert_eq!(worker.on_item(Some(item)), PostAction::Push);
    assert_eq!(
        worker.item_in_flight().unwrap().adif,
        "<CALL:5>VK3AB <MODE:3>FT8 <EOR>",
    );
    assert_eq!(worker.on_posted(&Ok(())), Some((PostOutcome::Completed, None)));
    assert!(worker.item_in_flight().is_none());
    assert_eq!(worker.on_posted(&Ok(())), None);
}

#[test]
fn mod_listener_ignores_non_logged_adif_messages() {
    let listener = listening(true);
    let (action, seen) = listener.on_datagram(&datagram(5, &["WSJT-X"]));
    assert!(matches!(action, ListenAction::Receive));
    assert!(matches!(seen, Datagram::Ignored));
    let (action, seen) = listener.on_datagram(b"GET / HTTP/1.1");
    assert!(matches!(action, ListenAction::Receive));
    match seen {
        Datagram::Malformed(e) => {
            assert_eq!(e.message(), "malformed WSJT-X packet: bad magic: 0x47455420");
        }
        other => panic!("got {other:?}"),
    }
}

#[test]
fn mod_shutdown_signal_stops_listener_and_worker() {
    let mut listener = listening(true);
    assert!(matches!(listener.on_shutdown(false, false), ListenAction::Receive));
    assert!(matches!(listener.on_shutdown(false, true), ListenAction::Stop));
    assert!(matches!(listening(true).on_shutdown(true, false), ListenAction::Stop));
    let mut worker = PostWorker::new();
    assert_eq!(worker.on_shutdown(false, false), PostAction::Wait);
    assert_eq!(worker.on_shutdown(true, false), PostAction::Stop);
    assert_eq!(PostWorker::new().on_item(None), PostAction::Stop);
    let mut late = Listener::new(vec![(1, "a".to_owned())], true);
    assert!(matches!(late.start(true), ListenAction::Stop));
}

#[test]
fn mod_shutdown_during_inflight_qso_post_returns_promptly() {
    let mut worker = PostWorker::new();
    let item = QueueItem { seq: Some(1), adif: "<CALL:5>VK3AB <EOR>".to_owned() };
    assert_eq!(worker.on_item(Some(item)), PostAction::Push);
    assert_eq!(worker.on_shutdown(false, true), PostAction::Stop);
    assert!(worker.item_in_flight().is_none());
}

#[test]
fn mod_persisted_adif_is_removed_from_disk_after_successful_post() {
    let listener = listening(true);
    let mut queue = empty_queue();
    let outcome = forward(&listener, &mut queue, &logged("<CALL:5>VK3AB <EOR>"), Ok(()));
    assert_eq!(outcome, PostOutcome::Completed);
    assert!(queue.is_empty());
}

#[test]
fn mod_persisted_adif_is_kept_when_wavelog_returns_5xx() {
    let listener = listening(true);
    let mut queue = empty_queue();
    let failed = Err(WavelogError::Status { status: 503, body: "".to_owned() });
    let outcome = forward(&listener, &mut queue, &logged("<CALL:5>VK3AB <EOR>"), failed);
    assert_eq!(outcome, PostOutcome::Retained);
    assert_eq!(queue.len(), 1);
}

#[test]
fn rejected_adif_is_removed_and_others_stay() {
    let listener = listening(true);
    let mut queue = empty_queue();
    let lost = Err(WavelogError::Http("timed out".to_owned()));
    forward(&listener, &mut queue, &logged("a"), lost);
    let rejected = Err(WavelogError::Rejected { reason: "duplicate".to_owned() });
    let outcome = forward(&listener, &mut queue, &logged("b"), rejected);
    assert_eq!(outcome, PostOutcome::Rejected);
    assert_eq!(queue.len(), 1);
    assert_eq!(queue.entries()[0].adif, "a");
}

#[test]
fn outcomes_of_a_post() {
    let item = QueueItem { seq: Some(9), adif: String::new() };
    let retained = (PostOutcome::Retained, None);
    assert_eq!(handle_post_outcome(&Ok(()), &item), (PostOutcome::Completed, Some(9)));
    for e in [
        WavelogError::Http("x".to_owned()),
        WavelogError::Status { status: 400, body: String::new() },
        WavelogError::BadResponse("x".to_owned()),
        WavelogError::InvalidUrl("x".to_owned()),
        WavelogError::NoActiveStation,
    ] {
        assert_eq!(handle_post_outcome(&Err(e), &item), retained);
    }
}

#[test]
fn mod_replay_entries_are_pushed_through_worker_at_startup() {
    let replay = vec![
        (4, "<CALL:5>K1AAA <EOR>".to_owned()),
        (7, "<CALL:5>K1BBB <EOR>".to_owned()),
    ];
    let mut listener = Listener::new(replay, true);
    let mut handed = Vec::new();
    let mut action = listener.start(false);
    while let ListenAction::Hand(item) = action {
        handed.push((item.seq.unwrap(), item.adif));
        action = listener.on_handed(true);
    }
    assert!(matches!(action, ListenAction::Receive));
    assert_eq!(
        handed,
        vec![
            (4, "<CALL:5>K1AAA <EOR>".to_owned()),
            (7, "<CALL:5>K1BBB <EOR>".to_owned()),
        ],
    );
}

#[test]
fn replay_stops_when_the_worker_is_gone() {
    let mut listener = Listener::new(vec![(1, "a".to_owned()), (2, "b".to_owned())], true);
    assert!(matches!(listener.start(false), ListenAction::Hand(_)));
    assert!(matches!(listener.on_handed(false), ListenAction::Stop));
}

#[test]
fn failed_appends_and_full_queues_drop_the_item() {
    let listener = listening(true);
    assert!(matches!(
        listener.on_persisted("a".to_owned(), None),
        ListenAction::Receive
    ));
    assert!(matches!(listener.on_offered(Offered::Full), ListenAction::Receive));
    assert!(matches!(listener.on_offered(Offered::Closed), ListenAction::Stop));
}

fn row(id: &str, active: Option<&str>) -> StationInfoRow {
    StationInfoRow {
        station_id: id.to_owned(),
        station_profile_name: "p".to_owned(),
        station_callsign: "c".to_owned(),
        station_active: active.map(|s| s.to_owned()),
    }
}

#[test]
fn active_station_source_routes_qso_to_active_profile() {
    let mut source = StationSource::active();
    let now = Duration::from_secs(5);
    assert!(source.resolve(now).is_none());
    let stations = stations_response(200, String::new(), Ok(vec![row("1", None), row("7", Some("1"))]));
    assert_eq!(source.on_fetched(stations, now).unwrap(), "7");
    assert_eq!(source.resolve(now).unwrap(), "7");
}

#[test]
fn no_active_station_keeps_qso_on_spool_and_skips_post() {
    let mut source = StationSource::active();
    let now = Duration::from_secs(5);
    let stations = stations_response(200, String::new(), Ok(vec![row("1", None)]));
    let resolved = source.on_fetched(stations, now).map(|_| ());
    let listener = listening(true);
    let mut queue = empty_queue();
    let outcome = forward(&listener, &mut queue, &logged("<CALL:5>VK3AB <EOR>"), resolved);
    assert_eq!(outcome, PostOutcome::Retained);
    assert_eq!(queue.len(), 1);
}

fn addr(s: &str) -> SocketAddr {
    parse_socket_addr(s).unwrap()
}

#[test]
fn bind_bind_unicast_loopback_works() {
    assert_eq!(
        bind(addr("127.0.0.1:0"), true),
        Ok(BindPlan::Unicast(addr("127.0.0.1:0"))),
    );
    assert_eq!(
        bind(addr("[::1]:2237"), true),
        Ok(BindPlan::Unicast(addr("[::1]:2237"))),
    );
}

#[test]
fn bind_bind_rejects_ipv6_multicast() {
    assert_eq!(
        bind(addr("[ff02::1]:2237"), true),
        Err("IPv6 multicast is not supported (WSJT-X is IPv4-only)"),
    );
}

#[test]
fn bind_multicast_bind_succeeds() {
    assert_eq!(
        bind(addr("224.0.0.1:2237"), true),
        Ok(BindPlan::Multicast { group: 0xe000_0001, bind: addr("224.0.0.1:2237") }),
    );
    assert_eq!(
        bind(addr("224.0.0.1:2237"), false),
        Ok(BindPlan::Multicast { group: 0xe000_0001, bind: addr("0.0.0.0:2237") }),
    );
}
