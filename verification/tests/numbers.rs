use wavelog_relay::addr::{parse_socket_addr, SocketAddr};
use wavelog_relay::binary32::Binary32;
use wavelog_relay::duration::{accept_span, can_be_summed, has_one_number, parse_duration, try_parse_duration, Duration};
use wavelog_relay::poller::quantize_rfpower;
use wavelog_relay::text::{
    chars_of, parse_signed, parse_unsigned, push_decimal, push_hex8, same_text, split_non_blank_lines,
    trim,
};
use wavelog_relay::util::{epoch_millis, shutdown_observed};

fn b(x: f32) -> Binary32 {
    Binary32::from_bits(x.to_bits())
}

/// A fixed sequence of bit patterns that covers the format.
fn patterns() -> Vec<u32> {
    let mut v: Vec<u32> = vec![
        0, 1, 2, 3, 0x007f_ffff, 0x0080_0000, 0x0080_0001, 0x3f80_0000, 0x3f7f_ffff, 0x3f80_0001,
        0x4348_0000, 0x42c8_0000, 0x7f7f_ffff, 0x7f80_0000, 0x7fc0_0000, 0x8000_0000, 0x8000_0001,
        0xbf80_0000, 0xff7f_ffff, 0xff80_0000, 0x3f00_0000, 0x3eff_ffff, 0x3f00_0001, 0x4b00_0000,
        0x4aff_ffff, 0x4f00_0000, 0x4eff_ffff, 0xcf00_0000, 0xcf00_0001, 0x2000_0000, 0x1fff_ffff,
        0x5f80_0000, 0x5fff_ffff, 0x0040_0000, 0x0000_0400,
    ];
    let mut x: u32 = 0x1234_5678;
    for _ in 0..400 {
        x = x.wrapping_mul(1_664_525).wrapping_add(1_013_904_223);
        v.push(x);
    }
    v
}

#[test]
fn products_agree_with_the_machine() {
    let all = patterns();
    for &x in &all {
        for &y in &all {
            let expected = f32::from_bits(x) * f32::from_bits(y);
            let got = f32::from_bits(
                Binary32::from_bits(x).times(Binary32::from_bits(y)).to_bits(),
            );
            if expected.is_nan() {
                assert!(got.is_nan(), "{x:08x} * {y:08x}");
            } else {
                assert_eq!(got.to_bits(), expected.to_bits(), "{x:08x} * {y:08x}");
            }
        }
    }
}

#[test]
fn products_near_one_agree_with_the_machine() {
    for i in 0..20_000u32 {
        let x = f32::from_bits(0x3f80_0000 - i * 97);
        let y = f32::from_bits(0x42c8_0000 + i * 31);
        assert_eq!(b(x).times(b(y)).to_bits(), (x * y).to_bits(), "{x} * {y}");
    }
}

#[test]
fn rounding_agrees_with_the_machine() {
    for x in patterns() {
        let expected = f32::from_bits(x).round() as i32;
        assert_eq!(Binary32::from_bits(x).to_nearest_i32(), expected, "{x:08x}");
    }
    for i in -2000..2000i32 {
        let x = i as f32 * 0.25;
        assert_eq!(b(x).to_nearest_i32(), x.round() as i32, "{x}");
    }
}

#[test]
fn bins_agree_with_the_machine() {
    for i in 0..10_001u32 {
        let x = i as f32 / 10_000.0;
        assert_eq!(quantize_rfpower(b(x)), (x * 200.0).round() as i32, "{x}");
    }
}

#[test]
fn clamping_agrees_with_the_machine() {
    for x in patterns() {
        let f = f32::from_bits(x);
        if f.is_finite() {
            assert_eq!(
                Binary32::from_bits(x).clamp_unit().to_bits(),
                f.clamp(0.0, 1.0).to_bits(),
                "{x:08x}",
            );
        }
        assert_eq!(Binary32::from_bits(x).is_finite(), f.is_finite(), "{x:08x}");
        assert_eq!(
            Binary32::from_bits(x).is_positive_finite(),
            f.is_finite() && f > 0.0,
            "{x:08x}",
        );
    }
}

fn v4(a: u32, b: u32, c: u32, d: u32, port: u16) -> Option<SocketAddr> {
    Some(SocketAddr::V4 { ip: (a << 24) | (b << 16) | (c << 8) | d, port })
}

fn v6(ip6: u128, scope_id: u32, port: u16) -> Option<SocketAddr> {
    Some(SocketAddr::V6 { ip6, scope_id, port })
}

#[test]
fn ipv4_socket_addresses_are_parsed() {
    assert_eq!(parse_socket_addr("127.0.0.1:4532"), v4(127, 0, 0, 1, 4532));
    assert_eq!(parse_socket_addr("0.0.0.0:0"), v4(0, 0, 0, 0, 0));
    assert_eq!(parse_socket_addr("255.255.255.255:65535"), v4(255, 255, 255, 255, 65535));
    assert_eq!(parse_socket_addr("1.2.3.4:00080"), v4(1, 2, 3, 4, 80));
    for bad in [
        "", "127.0.0.1", "127.0.0.1:", "127.0.0.1:65536", "127.0.0.1:+1", "256.0.0.1:1",
        "01.2.3.4:1", "1.2.3:1", "1.2.3.4.5:1", " 1.2.3.4:1", "1.2.3.4:1 ", "1.2.3.4:1x", "1..3.4:1",
        "1.2.3.0004:1", "rig.local:4532",
    ] {
        assert_eq!(parse_socket_addr(bad), None, "{bad}");
    }
}

#[test]
fn ipv6_socket_addresses_are_parsed() {
    assert_eq!(parse_socket_addr("[::1]:4532"), v6(1, 0, 4532));
    assert_eq!(parse_socket_addr("[::]:1"), v6(0, 0, 1));
    assert_eq!(
        parse_socket_addr("[1:2:3:4:5:6:7:8]:9"),
        v6(0x0001_0002_0003_0004_0005_0006_0007_0008, 0, 9),
    );
    assert_eq!(
        parse_socket_addr("[ff02::1]:2237"),
        v6(0xff02_0000_0000_0000_0000_0000_0000_0001, 0, 2237),
    );
    assert_eq!(
        parse_socket_addr("[fe80::ABcd%3]:1"),
        v6(0xfe80_0000_0000_0000_0000_0000_0000_abcd, 3, 1),
    );
    assert_eq!(
        parse_socket_addr("[::ffff:1.2.3.4]:1"),
        v6(0x0000_0000_0000_0000_0000_ffff_0102_0304, 0, 1),
    );
    assert_eq!(
        parse_socket_addr("[1:2:3:4:5:6:1.2.3.4]:1"),
        v6(0x0001_0002_0003_0004_0005_0006_0102_0304, 0, 1),
    );
    assert_eq!(
        parse_socket_addr("[1:2:3:4:5:6:7::]:1"),
        v6(0x0001_0002_0003_0004_0005_0006_0007_0000, 0, 1),
    );
    for bad in [
        "::1:4532", "[::1]", "[::1]4532", "[:::1]:1", "[1:2:3:4:5:6:7:8:9]:1", "[1:2:3:4:5:6:7]:1",
        "[12345::]:1", "[::1%]:1", "[::1%x]:1", "[1.2.3.4::]:1", "[1::2::3]:1", "[::1]:1x",
        "[1:2:3:4:5:6:7:8::]:1", "[g::]:1",
    ] {
        assert_eq!(parse_socket_addr(bad), None, "{bad}");
    }
}

#[test]
fn socket_addresses_are_written() {
    for (text, shown) in [
        ("127.0.0.1:4532", "127.0.0.1:4532"),
        ("[0:0:0:0:0:0:0:1]:4532", "[::1]:4532"),
        ("[::]:1", "[::]:1"),
        ("[1:0:0:2:0:0:0:3]:1", "[1:0:0:2::3]:1"),
        ("[1:0:0:2:0:0:3:4]:1", "[1::2:0:0:3:4]:1"),
        ("[1:0:2:3:4:5:6:7]:1", "[1:0:2:3:4:5:6:7]:1"),
        ("[FE80::aB%7]:65535", "[fe80::ab%7]:65535"),
        ("[::ffff:192.0.2.1]:1", "[::ffff:192.0.2.1]:1"),
        ("[::1.2.3.4]:1", "[::102:304]:1"),
        ("[1:2::]:1", "[1:2::]:1"),
    ] {
        let parsed = parse_socket_addr(text).unwrap();
        assert_eq!(parsed.to_text(), shown);
        assert_eq!(parse_socket_addr(shown), Some(parsed));
    }
}

#[test]
fn multicast_ranges() {
    for (text, yes) in [
        ("224.0.0.1:2237", true),
        ("239.255.255.255:1", true),
        ("240.0.0.0:1", false),
        ("223.255.255.255:1", false),
        ("127.0.0.1:1", false),
        ("[ff02::1]:2237", true),
        ("[fe80::1]:2237", false),
    ] {
        assert_eq!(parse_socket_addr(text).unwrap().is_multicast(), yes, "{text}");
    }
}

#[test]
fn decimal_numbers_follow_the_standard_grammar() {
    for text in [
        "0", "7", "+7", "007", "18446744073709551615", "18446744073709551616", "", "+", "-1", "1 ",
        " 1", "1x", "++1", "\u{663}", "99999999999999999999999999",
    ] {
        let chars = chars_of(text);
        assert_eq!(parse_unsigned(&chars, u64::MAX), text.parse::<u64>().ok(), "{text}");
        assert_eq!(
            parse_unsigned(&chars, 65535).map(|n| n as u16),
            text.parse::<u16>().ok(),
            "{text}",
        );
    }
    for text in [
        "0", "-0", "+5", "-5", "2147483647", "2147483648", "-2147483648", "-2147483649", "", "-",
        "+", "- 1", "12a", "+-1",
    ] {
        assert_eq!(parse_signed(&chars_of(text)), text.parse::<i32>().ok(), "{text}");
    }
}

#[test]
fn numbers_are_written() {
    for n in [0u64, 9, 10, 99, 100, 14_074_000, u64::MAX] {
        let mut s = String::new();
        push_decimal(&mut s, n);
        assert_eq!(s, format!("{n}"));
        assert_eq!(parse_unsigned(&chars_of(&s), u64::MAX), Some(n));
    }
    for n in [0u32, 0xab, 0xadbc_cbda, u32::MAX] {
        let mut s = String::new();
        push_hex8(&mut s, n);
        assert_eq!(s, format!("{n:08x}"));
    }
}

#[test]
fn text_helpers_agree_with_std() {
    for s in ["", " a b ", "\u{3000}x\u{85}", "\t\n", "a", "\u{200b}a", "\u{a0}\u{2028}z\u{1680}"] {
        let chars = chars_of(s);
        let trimmed: String = trim(&chars).iter().collect();
        assert_eq!(trimmed, s.trim(), "{s:?}");
    }
    for s in ["", "a", "a\n", "a\r\nb", "a\r", "\n\n", "a\n \t\nb\r\n\r\n", "x\r\r\ny"] {
        let expected: Vec<String> = s
            .lines()
            .filter(|l| !l.trim().is_empty())
            .map(|l| l.to_owned())
            .collect();
        assert_eq!(split_non_blank_lines(s), expected, "{s:?}");
    }
    assert!(same_text("caf\u{e9}", "caf\u{e9}"));
    assert!(!same_text("caf\u{e9}", "cafe"));
    assert!(!same_text("a", "ab"));
}

#[test]
fn durations() {
    assert_eq!(Duration::from_millis(1500), Duration { secs: 1, nanos: 500_000_000 });
    assert_eq!(Duration::from_secs(2), Duration { secs: 2, nanos: 0 });
    assert!(Duration::from_millis(0).is_zero());
    assert!(!Duration::from_millis(1).is_zero());
    let early = Duration::from_millis(1900);
    let late = Duration::from_millis(3100);
    assert_eq!(late.since(&early), Duration::from_millis(1200));
    assert_eq!(early.since(&late), Duration::from_millis(0));
    assert!(early.is_shorter_than(&late));
    assert!(!late.is_shorter_than(&late));
}

#[test]
fn human_durations() {
    assert_eq!(parse_duration("1s").unwrap(), Duration::from_secs(1));
    assert_eq!(parse_duration("500ms").unwrap(), Duration::from_millis(500));
    assert_eq!(parse_duration("1h 30m").unwrap(), Duration::from_secs(5400));
    let why = |s: &str| parse_duration(s).unwrap_err().why;
    assert_eq!(why("abc"), "expected number at 0");
    assert_eq!(why(""), "value was empty");
    assert_eq!(why("5"), "time unit needed, for example 5sec or 5ms");
    assert_eq!(accept_span(Ok((1, 2))).unwrap(), Duration { secs: 1, nanos: 2 });
    assert_eq!(accept_span(Err("no".to_owned())).unwrap_err().why, "no");
    assert_eq!(try_parse_duration("2s").unwrap().unwrap(), Duration::from_secs(2));
    assert_eq!(
        try_parse_duration("123456789012s").unwrap().unwrap(),
        Duration::from_secs(123_456_789_012)
    );
    assert_eq!(
        try_parse_duration("9h 12345678901s").unwrap().unwrap(),
        Duration::from_secs(9 * 3600 + 12_345_678_901)
    );
    assert_eq!(
        try_parse_duration("123456789012s 1ms").unwrap().unwrap(),
        Duration { secs: 123_456_789_012, nanos: 1_000_000 }
    );
    // Too large, but no parts of a second: refused, not left out.
    assert!(try_parse_duration("600000000000y 600000000000y").unwrap().is_err());
    // The seconds alone are the largest number, and parts of a second follow.
    assert!(try_parse_duration("18446744073709551615s 1000ms").is_none());
    assert!(try_parse_duration("18446744073709551614s 0.5s 0.5s").is_none());
    assert!(can_be_summed("18446744073709551615s 1s"));
    assert!(can_be_summed("18446744073709551615.5s"));
    assert!(has_one_number("1 500.25 \u{b5}s"));
    assert!(!has_one_number("1m5"));
}

#[test]
fn epoch_millis_counts_from_the_epoch() {
    assert_eq!(epoch_millis(None), 0);
    assert_eq!(epoch_millis(Some(Duration::from_millis(1_700_000_000_123))), 1_700_000_000_123);
    assert_eq!(epoch_millis(Some(Duration { secs: 1, nanos: 999_999_999 })), 1999);
}

#[test]
fn shutdown_is_observed_when_fired_or_closed() {
    assert!(shutdown_observed(true, false));
    assert!(shutdown_observed(false, true));
    assert!(!shutdown_observed(false, false));
}
