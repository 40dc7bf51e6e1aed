use wavelog_relay::modes::{HamlibMode, Mode, ModeOverrides, ModeParseError};

#[test]
fn parses_every_wavelog_mode() {
    let cases = [
        ("lsb", Mode::Lsb),
        ("usb", Mode::Usb),
        ("cw", Mode::Cw),
        ("fm", Mode::Fm),
        ("am", Mode::Am),
        ("rtty", Mode::Rtty),
        ("pkt", Mode::Pkt),
        ("dig", Mode::Dig),
        ("pktlsb", Mode::PktLsb),
        ("pktusb", Mode::PktUsb),
        ("pktfm", Mode::PktFm),
    ];
    for (s, expected) in cases {
        assert_eq!(s.parse::<Mode>().unwrap(), expected, "parsing `{s}`");
    }
}

#[test]
fn rejects_unknown_wavelog_mode() {
    let err = "xyz".parse::<Mode>().unwrap_err();
    let ModeParseError::Unknown(payload) = err;
    assert_eq!(&*payload, "xyz");
}

#[test]
fn unknown_mode_message_names_the_mode() {
    let err = Mode::parse("xyz").unwrap_err();
    assert_eq!(err.message(), "unrecognized wavelog mode `xyz`");
}

#[test]
fn rejects_uppercase_wavelog_mode() {
    assert!("USB".parse::<Mode>().is_err());
}

#[test]
fn rejects_empty_mode() {
    assert!("".parse::<Mode>().is_err());
}

#[test]
fn rejects_mode_with_trailing_text() {
    assert!("usb ".parse::<Mode>().is_err());
    assert!("pktusbx".parse::<Mode>().is_err());
    assert!("us".parse::<Mode>().is_err());
}

#[test]
fn resolve_concrete_modes_ignores_overrides() {
    let overrides = ModeOverrides {
        pkt: HamlibMode::PktLsb,
        dig: HamlibMode::PktFm,
    };
    assert_eq!(Mode::Usb.resolve(&overrides), HamlibMode::Usb);
    assert_eq!(Mode::Cw.resolve(&overrides), HamlibMode::Cw);
    assert_eq!(Mode::PktUsb.resolve(&overrides), HamlibMode::PktUsb);
    assert_eq!(Mode::PktLsb.resolve(&overrides), HamlibMode::PktLsb);
}

#[test]
fn resolve_pkt_and_dig_default_to_pktusb() {
    let overrides = ModeOverrides::default();
    assert_eq!(Mode::Pkt.resolve(&overrides), HamlibMode::PktUsb);
    assert_eq!(Mode::Dig.resolve(&overrides), HamlibMode::PktUsb);
}

#[test]
fn resolve_pkt_and_dig_use_overrides() {
    let overrides = ModeOverrides {
        pkt: HamlibMode::PktLsb,
        dig: HamlibMode::PktFm,
    };
    assert_eq!(Mode::Pkt.resolve(&overrides), HamlibMode::PktLsb);
    assert_eq!(Mode::Dig.resolve(&overrides), HamlibMode::PktFm);
}

#[test]
fn hamlib_as_str_covers_every_variant() {
    let cases = [
        (HamlibMode::Lsb, "LSB"),
        (HamlibMode::Usb, "USB"),
        (HamlibMode::Cw, "CW"),
        (HamlibMode::Fm, "FM"),
        (HamlibMode::Am, "AM"),
        (HamlibMode::Rtty, "RTTY"),
        (HamlibMode::PktLsb, "PKTLSB"),
        (HamlibMode::PktUsb, "PKTUSB"),
        (HamlibMode::PktFm, "PKTFM"),
    ];
    for (mode, expected) in cases {
        assert_eq!(mode.as_str(), expected);
    }
}
