use wavelog_relay::wsjtx::adif::{adif_field, summarize_adif};
use wavelog_relay::wsjtx::protocol::{parse_logged_adif, MAGIC, MSG_TYPE_LOGGED_ADIF};
use wavelog_relay::wsjtx::WsjtxError;

fn push_qstring(out: &mut Vec<u8>, s: &str) {
    let len = s.len() as i32;
    out.extend_from_slice(&len.to_be_bytes());
    out.extend_from_slice(s.as_bytes());
}

fn encode_packet(message_type: u32, id: &str, body: impl FnOnce(&mut Vec<u8>)) -> Vec<u8> {
    let mut out = Vec::new();
    out.extend_from_slice(&MAGIC.to_be_bytes());
    out.extend_from_slice(&3u32.to_be_bytes()); // schema version 3
    out.extend_from_slice(&message_type.to_be_bytes());
    push_qstring(&mut out, id);
    body(&mut out);
    out
}

fn encode_logged_adif(id: &str, adif: &str) -> Vec<u8> {
    encode_packet(MSG_TYPE_LOGGED_ADIF, id, |out| push_qstring(out, adif))
}

fn encode_qso_logged(id: &str) -> Vec<u8> {
    encode_packet(5, id, |_| {})
}

fn bad_utf8_packet() -> Vec<u8> {
    let mut bad = Vec::new();
    bad.extend_from_slice(&MAGIC.to_be_bytes());
    bad.extend_from_slice(&3u32.to_be_bytes());
    bad.extend_from_slice(&MSG_TYPE_LOGGED_ADIF.to_be_bytes());
    push_qstring(&mut bad, "WSJT-X");
    bad.extend_from_slice(&2i32.to_be_bytes()); // len 2 for adif
    bad.push(0xff);
    bad.push(0xfe);
    bad
}

fn null_id_packet() -> Vec<u8> {
    let mut bad = Vec::new();
    bad.extend_from_slice(&MAGIC.to_be_bytes());
    bad.extend_from_slice(&3u32.to_be_bytes());
    bad.extend_from_slice(&MSG_TYPE_LOGGED_ADIF.to_be_bytes());
    bad.extend_from_slice(&(-1i32).to_be_bytes()); // null id
    bad.extend_from_slice(&0i32.to_be_bytes()); // empty adif
    bad
}

fn parse_text(packet: &[u8]) -> String {
    let WsjtxError::Parse(text) = parse_logged_adif(packet).unwrap_err();
    text
}

#[test]
fn wsjtx_parse_logged_adif_extracts_string() {
    let pkt = encode_logged_adif("WSJT-X", "<CALL:3>K1B <MODE:3>FT8 <EOR>");
    let adif = parse_logged_adif(&pkt).unwrap().unwrap();
    assert_eq!(&*adif, "<CALL:3>K1B <MODE:3>FT8 <EOR>");
}

#[test]
fn protocol_parse_logged_adif_extracts_string() {
    let pkt = encode_logged_adif("WSJT-X", "<CALL:3>K1B <MODE:3>FT8 <EOR>");
    let adif = parse_logged_adif(&pkt).unwrap().unwrap();
    assert_eq!(&*adif, "<CALL:3>K1B <MODE:3>FT8 <EOR>");
}

#[test]
fn wsjtx_parse_returns_none_for_non_logged_adif_messages() {
    let pkt = encode_qso_logged("WSJT-X");
    assert_eq!(parse_logged_adif(&pkt).unwrap(), None);
}

#[test]
fn protocol_parse_returns_none_for_non_logged_adif_messages() {
    let pkt = encode_qso_logged("WSJT-X");
    assert_eq!(parse_logged_adif(&pkt).unwrap(), None);
}

#[test]
fn wsjtx_parse_rejects_wrong_magic() {
    let mut pkt = encode_logged_adif("WSJT-X", "x");
    pkt[0] = 0; // corrupt magic
    let err = parse_logged_adif(&pkt).unwrap_err();
    assert!(matches!(err, WsjtxError::Parse(_)), "got {err:?}");
}

#[test]
fn protocol_parse_rejects_wrong_magic() {
    let mut pkt = encode_logged_adif("WSJT-X", "x");
    pkt[0] = 0; // corrupt magic
    let err = parse_logged_adif(&pkt).unwrap_err();
    assert!(matches!(err, WsjtxError::Parse(_)), "got {err:?}");
}

#[test]
fn wsjtx_parse_rejects_truncated_packet() {
    let pkt = encode_logged_adif("WSJT-X", "hello");
    // Cut off mid-way through the ADIF string.
    let err = parse_logged_adif(&pkt[..pkt.len() - 3]).unwrap_err();
    assert!(matches!(err, WsjtxError::Parse(_)), "got {err:?}");
}

#[test]
fn protocol_parse_rejects_truncated_packet() {
    let pkt = encode_logged_adif("WSJT-X", "hello");
    // Cut off mid-way through the ADIF string.
    let err = parse_logged_adif(&pkt[..pkt.len() - 3]).unwrap_err();
    assert!(matches!(err, WsjtxError::Parse(_)), "got {err:?}");
}

#[test]
fn wsjtx_parse_rejects_invalid_utf8_string() {
    let mut pkt = encode_logged_adif("WSJT-X", "");
    // Tack on a length prefix that looks valid, then non-UTF-8 bytes. The
    // parser has consumed the valid payload by then: trailing bytes are ignored.
    pkt.extend_from_slice(&2i32.to_be_bytes());
    pkt.push(0xff);
    pkt.push(0xfe);
    assert_eq!(parse_logged_adif(&pkt).unwrap().unwrap(), "");
    let err = parse_logged_adif(&bad_utf8_packet()).unwrap_err();
    assert!(
        matches!(err, WsjtxError::Parse(ref msg) if msg.contains("UTF-8")),
        "got {err:?}",
    );
}

#[test]
fn protocol_parse_rejects_invalid_utf8_string() {
    let err = parse_logged_adif(&bad_utf8_packet()).unwrap_err();
    assert!(
        matches!(err, WsjtxError::Parse(ref msg) if msg.contains("UTF-8")),
        "got {err:?}",
    );
}

#[test]
fn wsjtx_parse_handles_null_qstring_as_empty() {
    let adif = parse_logged_adif(&null_id_packet()).unwrap().unwrap();
    assert_eq!(&*adif, "");
}

#[test]
fn protocol_parse_handles_null_qstring_as_empty() {
    let adif = parse_logged_adif(&null_id_packet()).unwrap().unwrap();
    assert_eq!(&*adif, "");
}

#[test]
fn parse_error_texts() {
    assert_eq!(parse_text(&[]), "truncated: need 4 bytes at offset 0, have 0");
    assert_eq!(
        parse_text(&[0xad, 0xbc, 0xcb]),
        "truncated: need 4 bytes at offset 0, have 3",
    );
    assert_eq!(parse_text(&[0, 1, 0xab, 0xff]), "bad magic: 0x0001abff");
    let pkt = encode_logged_adif("WSJT-X", "hello");
    assert_eq!(
        parse_text(&pkt[..pkt.len() - 3]),
        "truncated: need 5 bytes at offset 26, have 2",
    );
    assert_eq!(parse_text(&bad_utf8_packet()), "invalid UTF-8 in QString field");
    assert_eq!(
        parse_logged_adif(&[]).unwrap_err().message(),
        "malformed WSJT-X packet: truncated: need 4 bytes at offset 0, have 0",
    );
}

#[test]
fn every_strict_prefix_of_a_logged_contact_is_refused() {
    let pkt = encode_logged_adif("WSJT-X", "<CALL:4>K1\u{e9}B");
    for n in 0..pkt.len() {
        assert!(parse_logged_adif(&pkt[..n]).is_err(), "prefix of {n} bytes");
    }
    assert_eq!(parse_logged_adif(&pkt).unwrap().unwrap(), "<CALL:4>K1\u{e9}B");
}

#[test]
fn schema_version_and_trailing_bytes_do_not_matter() {
    let mut pkt = encode_logged_adif("WSJT-X", "abc");
    pkt[7] = 2;
    pkt.extend_from_slice(b"trailing");
    assert_eq!(parse_logged_adif(&pkt).unwrap().unwrap(), "abc");
}

#[test]
fn adif_summary_extracts_known_fields() {
    let adif = "<CALL:5>VK3AB <MODE:3>FT8 <BAND:3>20M <FREQ:8>14.07400 <EOR>";
    let s = summarize_adif(adif);
    assert_eq!(s.callsign(), "VK3AB");
    assert_eq!(s.mode(), "FT8");
    assert_eq!(s.band(), "20M");
}

#[test]
fn adif_summary_returns_placeholder_for_missing_fields() {
    let s = summarize_adif("<EOR>");
    assert_eq!(s.callsign(), "?");
    assert_eq!(s.mode(), "?");
    assert_eq!(s.band(), "?");
}

#[test]
fn adif_summary_is_case_insensitive_on_tag_names() {
    let adif = "<call:5>VK3AB <Mode:3>FT8 <eor>";
    let s = summarize_adif(adif);
    assert_eq!(s.callsign(), "VK3AB");
    assert_eq!(s.mode(), "FT8");
}

#[test]
fn adif_summary_handles_data_type_suffix() {
    // ADIF lets fields carry an optional type suffix: <FREQ:8:N>...
    // The leading length must still apply; the type code is ignored.
    let adif = "<CALL:5:S>VK3AB <FREQ:8:N>14.07400 <EOR>";
    let s = summarize_adif(adif);
    assert_eq!(s.callsign(), "VK3AB");
}

#[test]
fn adif_summary_skips_sentinel_tags_without_aborting() {
    // <EOH> appears before any field; must not stop the scan.
    let adif = "<EOH><CALL:5>VK3AB <EOR>";
    let s = summarize_adif(adif);
    assert_eq!(s.callsign(), "VK3AB");
}

#[test]
fn adif_field_steps_over_values_and_stops_past_the_end() {
    // The value of NOTE holds what looks like a header.
    let adif = "<NOTE:9><CALL:1>X<CALL:2>K1";
    assert_eq!(adif_field(adif, "CALL"), Some("K1"));
    assert_eq!(adif_field(adif, "NOTE"), Some("<CALL:1>X"));
    // A field that runs past the end stops the scan.
    assert_eq!(adif_field("<A:99>x<CALL:1>Y", "CALL"), None);
    // A length that is no number is skipped, an unclosed header ends it.
    assert_eq!(adif_field("<A:x><CALL:1>Y", "CALL"), Some("Y"));
    assert_eq!(adif_field("<CALL:1", "CALL"), None);
    assert_eq!(adif_field("<CALL:99999999999999999999999>Y", "CALL"), None);
    assert_eq!(adif_field("<CALL:0>", "CALL"), Some(""));
}

#[test]
fn adif_lengths_count_bytes() {
    assert_eq!(adif_field("<NAME:3>\u{e9}x<CALL:1>Y", "CALL"), Some("Y"));
    assert_eq!(adif_field("<NAME:3>\u{e9}x<CALL:1>Y", "NAME"), Some("\u{e9}x"));
    // The stated length ends inside a character.
    assert_eq!(adif_field("<NAME:1>\u{e9}<CALL:1>Y", "CALL"), None);
    assert_eq!(adif_field("<NAME:1>\u{e9}<CALL:1>Y", "NAME"), None);
    // The scan for CALL stops before it where CALL comes first.
    let s = summarize_adif("<CALL:1>Y<NAME:1>\u{e9}<MODE:2>CW");
    assert_eq!((s.callsign(), s.mode(), s.band()), ("Y", "?", "?"));
}
