use wavelog_relay::stations::{list_stations, station_table};
use wavelog_relay::wavelog::Station;

fn station(id: &str, name: &str, callsign: &str, active: bool) -> Station {
    Station {
        id: id.to_owned(),
        name: name.to_owned(),
        callsign: callsign.to_owned(),
        active,
    }
}

#[test]
fn table_marks_the_active_profile() {
    let lines = station_table(&[
        station("1", "Home", "N0CALL", false),
        station("2", "Portable", "N0CALL/P", true),
    ]);
    assert_eq!(
        lines,
        vec![
            "    ID  NAME      CALLSIGN",
            "    --  --------  --------",
            "    1   Home      N0CALL  ",
            "[*] 2   Portable  N0CALL/P",
        ],
    );
}

#[test]
fn columns_are_as_wide_as_their_longest_text() {
    let lines = station_table(&[station("12345", "A", "B", false)]);
    assert_eq!(
        lines,
        vec![
            "    ID     NAME  CALLSIGN",
            "    -----  ----  --------",
            "    12345  A     B       ",
        ],
    );
    // Widths count bytes, cells count characters.
    let lines = station_table(&[station("1", "\u{e9}\u{e9}\u{e9}", "K", false)]);
    assert_eq!(lines[1], "    --  ------  --------");
    assert_eq!(lines[2], "    1   \u{e9}\u{e9}\u{e9}     K       ");
}

#[test]
fn an_empty_list_is_an_error() {
    let why = list_stations(&[]).unwrap_err();
    assert!(why.starts_with("no stations are configured in Wavelog for this API key"));
    assert!(why.ends_with("Account \u{2192} Station Locations"));
    assert_eq!(list_stations(&[station("1", "A", "B", false)]).unwrap().len(), 3);
}
