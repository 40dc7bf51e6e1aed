//! Socket addresses: their notation and the kinds of address.
//!
//! An address is held as one number (32 bits for IPv4, 128 bits for IPv6), as
//! the notation denotes it: `127.0.0.1:4532`, `[::1]:4532`, `[fe80::1%2]:4532`.
use crate::text;
use vstd::prelude::*;

verus! {

/// An IP address with a port.
#[derive(Debug, Clone, Copy, PartialEq, Eq, Structural)]
pub enum SocketAddr {
    V4 { ip: u32, port: u16 },
    V6 { ip6: u128, scope_id: u32, port: u16 },
}

/// The character `c` stands at `pos`.
pub open spec fn char_at(s: Seq<char>, pos: int, c: char) -> bool {
    0 <= pos < s.len() && s[pos] == c
}

/// The value of a digit of the given radix; -1 for any other character.
pub open spec fn digit_of(c: char, radix: int) -> int {
    let v = if '0' <= c <= '9' {
        c as int - '0' as int
    } else if 'a' <= c <= 'z' {
        c as int - 'a' as int + 10
    } else if 'A' <= c <= 'Z' {
        c as int - 'A' as int + 10
    } else {
        -1
    };
    if v < radix {
        v
    } else {
        -1
    }
}

/// The end of the run of digits that begins at `pos`.
pub open spec fn run_end(s: Seq<char>, pos: int, radix: int) -> int
    decreases s.len() - pos,
{
    if 0 <= pos < s.len() && digit_of(s[pos], radix) >= 0 {
        run_end(s, pos + 1, radix)
    } else {
        pos
    }
}

/// The number that a run of digits denotes.
pub open spec fn run_value(s: Seq<char>, radix: int) -> int
    decreases s.len(),
{
    if s.len() == 0 {
        0
    } else {
        run_value(s.drop_last(), radix) * radix + digit_of(s.last(), radix)
    }
}

/// The number at `pos` and the position behind it: all digits that stand there,
/// at most `max_digits` of them, no larger than `max`, and where `zero_prefix`
/// is false without superfluous zeros in front.
pub open spec fn number_at(
    s: Seq<char>,
    pos: int,
    radix: int,
    max_digits: int,
    zero_prefix: bool,
    max: int,
) -> Option<(int, int)> {
    let end = run_end(s, pos, radix);
    let digits = s.subrange(pos, end);
    if 0 <= pos < end && end - pos <= max_digits && (zero_prefix || s[pos] != '0' || end - pos == 1)
        && run_value(digits, radix) <= max {
        Some((run_value(digits, radix), end))
    } else {
        None
    }
}

/// A decimal octet at `pos`.
pub open spec fn octet_at(s: Seq<char>, pos: int) -> Option<(int, int)> {
    number_at(s, pos, 10, 3, false, 255)
}

/// An octet at `pos` with a dot before it.
pub open spec fn dotted_octet_at(s: Seq<char>, pos: int) -> Option<(int, int)> {
    if char_at(s, pos, '.') {
        octet_at(s, pos + 1)
    } else {
        None
    }
}

/// The IPv4 address at `pos` and the position behind it: four octets with dots
/// between them.
pub open spec fn ipv4_at(s: Seq<char>, pos: int) -> Option<(int, int)> {
    match octet_at(s, pos) {
        None => None,
        Some((a, p1)) => match dotted_octet_at(s, p1) {
            None => None,
            Some((b, p2)) => match dotted_octet_at(s, p2) {
                None => None,
                Some((c, p3)) => match dotted_octet_at(s, p3) {
                    None => None,
                    Some((d, p4)) => Some(
                        (a * 0x100_0000 + b * 0x1_0000 + c * 0x100 + d, p4),
                    ),
                },
            },
        },
    }
}

/// The groups of an IPv6 address from `pos` on, when `i` of at most `limit` have
/// been read: their values, the position behind them, and whether the last two
/// were written as an IPv4 address (which ends the groups).
pub open spec fn groups_at(s: Seq<char>, pos: int, i: nat, limit: nat) -> (Seq<int>, int, bool)
    decreases limit - i,
{
    let start = if i > 0 {
        pos + 1
    } else {
        pos
    };
    if i >= limit || (i > 0 && !char_at(s, pos, ':')) {
        (Seq::empty(), pos, false)
    } else if i + 1 < limit && ipv4_at(s, start) is Some {
        let (ip, end) = ipv4_at(s, start)->Some_0;
        (seq![ip / 0x1_0000, ip % 0x1_0000], end, true)
    } else {
        match number_at(s, start, 16, 4, true, 0xffff) {
            None => (Seq::empty(), pos, false),
            Some((n, end)) => {
                let (rest, last, v4) = groups_at(s, end, i + 1, limit);
                (seq![n] + rest, last, v4)
            },
        }
    }
}

/// The number that 16-bit groups denote, most significant first.
pub open spec fn joined(groups: Seq<int>) -> int
    decreases groups.len(),
{
    if groups.len() == 0 {
        0
    } else {
        joined(groups.drop_last()) * 0x1_0000 + groups.last()
    }
}

/// The IPv6 address at `pos` and the position behind it: eight groups, or fewer
/// with `::` in place of one or more zero groups.
pub open spec fn ipv6_at(s: Seq<char>, pos: int) -> Option<(int, int)> {
    let (head, p, v4) = groups_at(s, pos, 0, 8);
    if head.len() == 8 {
        Some((joined(head), p))
    } else if v4 || !char_at(s, p, ':') || !char_at(s, p + 1, ':') {
        None
    } else {
        let (tail, end, _) = groups_at(s, p + 2, 0, (7 - head.len()) as nat);
        let zeros = Seq::new((8 - head.len() - tail.len()) as nat, |i: int| 0int);
        Some((joined(head + zeros + tail), end))
    }
}

/// The port at `pos`, with a colon before it, and the position behind it.
pub open spec fn port_at(s: Seq<char>, pos: int) -> Option<(int, int)> {
    if char_at(s, pos, ':') {
        number_at(s, pos + 1, 10, usize::MAX as int, true, 0xffff)
    } else {
        None
    }
}

/// The scope at `pos`, with a percent sign before it, and the position behind
/// it; 0 where there is none.
pub open spec fn scope_at(s: Seq<char>, pos: int) -> (int, int) {
    if char_at(s, pos, '%') {
        match number_at(s, pos + 1, 10, usize::MAX as int, true, u32::MAX as int) {
            Some((n, end)) => (n, end),
            None => (0, pos),
        }
    } else {
        (0, pos)
    }
}

/// The socket address that a text denotes.
pub open spec fn socket_addr(s: Seq<char>) -> Option<SocketAddr> {
    match socket_addr_v4(s) {
        Some(addr) => Some(addr),
        None => socket_addr_v6(s),
    }
}

pub open spec fn socket_addr_v4(s: Seq<char>) -> Option<SocketAddr> {
    match ipv4_at(s, 0) {
        None => None,
        Some((ip, p)) => match port_at(s, p) {
            Some((port, end)) if end == s.len() => Some(
                SocketAddr::V4 { ip: ip as u32, port: port as u16 },
            ),
            _ => None,
        },
    }
}

pub open spec fn socket_addr_v6(s: Seq<char>) -> Option<SocketAddr> {
    if !char_at(s, 0, '[') {
        None
    } else {
        match ipv6_at(s, 1) {
            None => None,
            Some((ip, p)) => {
                let (scope_id, q) = scope_at(s, p);
                if !char_at(s, q, ']') {
                    None
                } else {
                    match port_at(s, q + 1) {
                        Some((port, end)) if end == s.len() => Some(
                            SocketAddr::V6 {
                                ip6: ip as u128,
                                scope_id: scope_id as u32,
                                port: port as u16,
                            },
                        ),
                        _ => None,
                    }
                }
            },
        }
    }
}

/// The value of a digit.
fn digit(c: char, radix: u32) -> (d: Option<u32>)
    requires
        radix <= 36,
    ensures
        match d {
            Some(v) => digit_of(c, radix as int) == v && v < radix,
            None => digit_of(c, radix as int) == -1,
        },
{
    let v: u32 = if '0' <= c && c <= '9' {
        c as u32 - '0' as u32
    } else if 'a' <= c && c <= 'z' {
        c as u32 - 'a' as u32 + 10
    } else if 'A' <= c && c <= 'Z' {
        c as u32 - 'A' as u32 + 10
    } else {
        return None;
    };
    if v < radix {
        Some(v)
    } else {
        None
    }
}

/// Reads the number at `pos`.
fn read_number(
    s: &[char],
    pos: usize,
    radix: u32,
    max_digits: usize,
    zero_prefix: bool,
    max: u32,
) -> (read: Option<(u32, usize)>)
    requires
        pos <= s@.len(),
        0 < radix <= 36,
    ensures
        match read {
            Some((n, end)) => number_at(
                s@,
                pos as int,
                radix as int,
                max_digits as int,
                zero_prefix,
                max as int,
            ) == Some((n as int, end as int)) && pos < end <= s@.len() && n <= max,
            None => number_at(
                s@,
                pos as int,
                radix as int,
                max_digits as int,
                zero_prefix,
                max as int,
            ) is None,
        },
{
    let mut i: usize = pos;
    let mut value: u64 = 0;
    let mut over = false;
    while i < s.len()
        invariant
            pos <= i <= s@.len(),
            0 < radix <= 36,
            run_end(s@, pos as int, radix as int) == run_end(s@, i as int, radix as int),
            !over ==> value == run_value(s@.subrange(pos as int, i as int), radix as int) <= max,
            over ==> run_value(s@.subrange(pos as int, i as int), radix as int) > max,
        ensures
            pos <= i <= s@.len(),
            i == run_end(s@, pos as int, radix as int),
            !over ==> value == run_value(s@.subrange(pos as int, i as int), radix as int) <= max,
            over ==> run_value(s@.subrange(pos as int, i as int), radix as int) > max,
        decreases s@.len() - i,
    {
        let d: u32 = match digit(s[i], radix) {
            Some(d) => d,
            None => {
                break;
            },
        };
        proof {
            let before = s@.subrange(pos as int, i as int);
            let after = s@.subrange(pos as int, i + 1);
            assert(after.drop_last() == before);
            assert(after.last() == s@[i as int]);
            let v = run_value(before, radix as int);
            if over {
                assert(v * radix >= v) by (nonlinear_arith)
                    requires
                        v >= 0,
                        radix > 0,
                ;
            } else {
                assert(value * radix <= 0xffff_ffff * 36) by (nonlinear_arith)
                    requires
                        0 <= value <= 0xffff_ffff,
                        0 < radix <= 36,
                ;
            }
        }
        if !over {
            value = value * radix as u64 + d as u64;
            if value > max as u64 {
                over = true;
            }
        }
        i += 1;
    }
    if i == pos || i - pos > max_digits || (!zero_prefix && s[pos] == '0' && i - pos > 1) || over {
        return None;
    }
    Some((value as u32, i))
}

/// Tells whether `c` stands at `pos`.
fn has_char(s: &[char], pos: usize, c: char) -> (yes: bool)
    ensures
        yes == char_at(s@, pos as int, c),
        yes ==> pos < s@.len() && pos < usize::MAX,
{
    pos < s.len() && s[pos] == c
}

/// Reads an octet with a dot before it.
fn read_dotted_octet(s: &[char], pos: usize) -> (read: Option<(u32, usize)>)
    requires
        pos <= s@.len(),
    ensures
        match read {
            Some((n, end)) => dotted_octet_at(s@, pos as int) == Some((n as int, end as int))
                && end <= s@.len() && n <= 255,
            None => dotted_octet_at(s@, pos as int) is None,
        },
{
    if has_char(s, pos, '.') {
        read_number(s, pos + 1, 10, 3, false, 255)
    } else {
        None
    }
}

/// Reads an IPv4 address.
fn read_ipv4(s: &[char], pos: usize) -> (read: Option<(u32, usize)>)
    requires
        pos <= s@.len(),
    ensures
        match read {
            Some((ip, end)) => ipv4_at(s@, pos as int) == Some((ip as int, end as int)) && end
                <= s@.len(),
            None => ipv4_at(s@, pos as int) is None,
        },
{
    let (a, p1) = match read_number(s, pos, 10, 3, false, 255) {
        Some(r) => r,
        None => {
            return None;
        },
    };
    let (b, p2) = match read_dotted_octet(s, p1) {
        Some(r) => r,
        None => {
            return None;
        },
    };
    let (c, p3) = match read_dotted_octet(s, p2) {
        Some(r) => r,
        None => {
            return None;
        },
    };
    match read_dotted_octet(s, p3) {
        Some((d, p4)) => Some((a * 0x100_0000 + b * 0x1_0000 + c * 0x100 + d, p4)),
        None => None,
    }
}

/// Reads the groups of an IPv6 address.
fn read_groups(s: &[char], from: usize, limit: usize) -> (read: (Vec<u16>, usize, bool))
    requires
        from <= s@.len(),
        limit <= 8,
    ensures
        groups_at(s@, from as int, 0, limit as nat) == (
            group_values(read.0@),
            read.1 as int,
            read.2,
        ),
        read.0@.len() <= limit,
        read.1 <= s@.len(),
{
    let mut groups: Vec<u16> = Vec::new();
    let mut pos: usize = from;
    let mut i: usize = 0;
    let ghost whole = groups_at(s@, from as int, 0, limit as nat);
    proof {
        let rest = groups_at(s@, from as int, 0, limit as nat);
        assert(group_values(groups@) + rest.0 == rest.0);
    }
    while i < limit
        invariant
            i <= limit <= 8,
            pos <= s@.len(),
            groups@.len() == i,
            whole == groups_at(s@, from as int, 0, limit as nat),
            ({
                let rest = groups_at(s@, pos as int, i as nat, limit as nat);
                whole == (group_values(groups@) + rest.0, rest.1, rest.2)
            }),
        decreases limit - i,
    {
        let ghost before = groups@;
        let ghost rest = groups_at(s@, pos as int, i as nat, limit as nat);
        proof {
            assert(group_values(before) + Seq::<int>::empty() == group_values(before));
        }
        if i > 0 && !has_char(s, pos, ':') {
            return (groups, pos, false);
        }
        let start: usize = if i > 0 {
            pos + 1
        } else {
            pos
        };
        if i + 1 < limit {
            if let Some((ip, end)) = read_ipv4(s, start) {
                groups.push((ip / 0x1_0000) as u16);
                groups.push((ip % 0x1_0000) as u16);
                assert(group_values(groups@) == group_values(before) + rest.0);
                return (groups, end, true);
            }
        }
        match read_number(s, start, 16, 4, true, 0xffff) {
            None => {
                return (groups, pos, false);
            },
            Some((n, end)) => {
                groups.push(n as u16);
                proof {
                    let next = groups_at(s@, end as int, (i + 1) as nat, limit as nat);
                    assert(rest.0 == seq![n as int] + next.0);
                    assert(group_values(groups@) == group_values(before).push(n as int));
                    assert(group_values(before).push(n as int) + next.0 == group_values(before) + (
                    seq![n as int] + next.0));
                }
                pos = end;
                i += 1;
            },
        }
    }
    assert(group_values(groups@) + Seq::<int>::empty() == group_values(groups@));
    (groups, pos, false)
}

/// The values of groups.
pub open spec fn group_values(groups: Seq<u16>) -> Seq<int> {
    groups.map_values(|g: u16| g as int)
}

/// Joins groups to one number.
fn join(groups: &[u16]) -> (ip: u128)
    requires
        groups@.len() <= 8,
    ensures
        ip == joined(group_values(groups@)),
{
    let mut ip: u128 = 0;
    let mut i: usize = 0;
    let mut bound: Ghost<int> = Ghost(1);
    while i < groups.len()
        invariant
            i <= groups@.len() <= 8,
            ip == joined(group_values(groups@).take(i as int)),
            ip < bound@,
            i == 0 ==> bound@ == 1,
            i == 1 ==> bound@ == 0x1_0000,
            i == 2 ==> bound@ == 0x1_0000_0000,
            i == 3 ==> bound@ == 0x1_0000_0000_0000,
            i == 4 ==> bound@ == 0x1_0000_0000_0000_0000,
            i == 5 ==> bound@ == 0x1_0000_0000_0000_0000_0000,
            i == 6 ==> bound@ == 0x1_0000_0000_0000_0000_0000_0000,
            i == 7 ==> bound@ == 0x1_0000_0000_0000_0000_0000_0000_0000,
            i == 8 ==> bound@ == 0x1_0000_0000_0000_0000_0000_0000_0000_0000,
        decreases groups@.len() - i,
    {
        proof {
            let upto = group_values(groups@).take(i + 1);
            assert(upto.drop_last() == group_values(groups@).take(i as int));
            assert(upto.last() == groups@[i as int] as int);
            bound@ = bound@ * 0x1_0000;
        }
        ip = ip * 0x1_0000 + groups[i] as u128;
        i += 1;
    }
    assert(group_values(groups@).take(i as int) == group_values(groups@));
    ip
}

/// Reads an IPv6 address.
fn read_ipv6(s: &[char], pos: usize) -> (read: Option<(u128, usize)>)
    requires
        pos <= s@.len(),
    ensures
        match read {
            Some((ip, end)) => ipv6_at(s@, pos as int) == Some((ip as int, end as int)) && end
                <= s@.len(),
            None => ipv6_at(s@, pos as int) is None,
        },
{
    let (head, p, v4) = read_groups(s, pos, 8);
    if head.len() == 8 {
        return Some((join(head.as_slice()), p));
    }
    if v4 || !has_char(s, p, ':') || !has_char(s, p + 1, ':') {
        return None;
    }
    let (tail, end, _) = read_groups(s, p + 2, 7 - head.len());
    let ghost zeros = Seq::new((8 - head@.len() - tail@.len()) as nat, |i: int| 0int);
    let mut all = head;
    while all.len() < 8 - tail.len()
        invariant
            head@.len() <= all@.len() <= 8 - tail@.len(),
            tail@.len() <= 7 - head@.len(),
            all@ == head@ + Seq::new((all@.len() - head@.len()) as nat, |i: int| 0u16),
        decreases 8 - all@.len(),
    {
        all.push(0);
        assert(all@ == head@ + Seq::new((all@.len() - head@.len()) as nat, |i: int| 0u16));
    }
    let mut i: usize = 0;
    let ghost padded = all@;
    while i < tail.len()
        invariant
            i <= tail@.len(),
            padded.len() + tail@.len() == 8,
            all@ == padded + tail@.take(i as int),
        decreases tail@.len() - i,
    {
        all.push(tail[i]);
        assert(all@ == padded + tail@.take(i + 1));
        i += 1;
    }
    assert(group_values(all@) == group_values(head@) + zeros + group_values(tail@));
    Some((join(all.as_slice()), end))
}

/// Reads a port with a colon before it.
fn read_port(s: &[char], pos: usize) -> (read: Option<(u16, usize)>)
    requires
        pos <= s@.len(),
    ensures
        match read {
            Some((port, end)) => port_at(s@, pos as int) == Some((port as int, end as int)),
            None => port_at(s@, pos as int) is None,
        },
{
    if !has_char(s, pos, ':') {
        return None;
    }
    match read_number(s, pos + 1, 10, usize::MAX, true, 0xffff) {
        Some((port, end)) => Some((port as u16, end)),
        None => None,
    }
}

/// Parses a socket address.
pub fn parse_socket_addr(text: &str) -> (addr: Option<SocketAddr>)
    ensures
        addr == socket_addr(text@),
{
    let chars = text::chars_of(text);
    let s = chars.as_slice();
    if let Some((ip, p)) = read_ipv4(s, 0) {
        if let Some((port, end)) = read_port(s, p) {
            if end == s.len() {
                return Some(SocketAddr::V4 { ip, port });
            }
        }
    }
    assert(socket_addr_v4(s@) is None);
    if !has_char(s, 0, '[') {
        return None;
    }
    let (ip6, p) = match read_ipv6(s, 1) {
        Some(r) => r,
        None => {
            return None;
        },
    };
    let mut scope_id: u32 = 0;
    let mut q: usize = p;
    if has_char(s, p, '%') {
        if let Some((n, end)) = read_number(s, p + 1, 10, usize::MAX, true, u32::MAX) {
            scope_id = n;
            q = end;
        }
    }
    assert(scope_at(s@, p as int) == (scope_id as int, q as int));
    if !has_char(s, q, ']') {
        return None;
    }
    if let Some((port, end)) = read_port(s, q + 1) {
        if end == s.len() {
            return Some(SocketAddr::V6 { ip6, scope_id, port });
        }
    }
    None
}

/// The octets of an IPv4 address, in decimal with dots between them.
pub open spec fn ipv4_text(ip: nat) -> Seq<char> {
    text::decimal(ip / 0x100_0000) + seq!['.'] + text::decimal(ip / 0x1_0000 % 0x100) + seq!['.']
        + text::decimal(ip / 0x100 % 0x100) + seq!['.'] + text::decimal(ip % 0x100)
}

/// The shortest lower-case hexadecimal notation of a number.
pub open spec fn hex(n: nat) -> Seq<char>
    decreases n,
{
    if n < 16 {
        seq![text::hex_char(n as int)]
    } else {
        hex(n / 16).push(text::hex_char(n as int % 16))
    }
}

/// The `n` lowest 16-bit groups of a number, most significant first.
pub open spec fn groups_of(ip: nat, n: nat) -> Seq<int>
    decreases n,
{
    if n == 0 {
        Seq::empty()
    } else {
        groups_of(ip / 0x1_0000, (n - 1) as nat).push(ip as int % 0x1_0000)
    }
}

/// How many zero groups stand from `i` on.
pub open spec fn zeros_from(groups: Seq<int>, i: int) -> int
    decreases groups.len() - i,
{
    if 0 <= i < groups.len() && groups[i] == 0 {
        1 + zeros_from(groups, i + 1)
    } else {
        0
    }
}

/// Where, among the first `n` positions, the longest run of zero groups begins;
/// the first of them where several are longest.
pub open spec fn longest_zeros(groups: Seq<int>, n: nat) -> int
    decreases n,
{
    if n <= 1 {
        0
    } else {
        let best = longest_zeros(groups, (n - 1) as nat);
        if zeros_from(groups, n - 1) > zeros_from(groups, best) {
            n - 1
        } else {
            best
        }
    }
}

/// Groups in hexadecimal with colons between them.
pub open spec fn groups_text(groups: Seq<int>) -> Seq<char>
    decreases groups.len(),
{
    if groups.len() == 0 {
        Seq::empty()
    } else if groups.len() == 1 {
        hex(groups[0] as nat)
    } else {
        groups_text(groups.drop_last()) + seq![':'] + hex(groups.last() as nat)
    }
}

/// An IPv6 address: eight groups, the longest run of two or more zero groups
/// shortened to `::`; an address mapped from IPv4 ends in that address.
pub open spec fn ipv6_text(ip: nat) -> Seq<char> {
    let groups = groups_of(ip, 8);
    let start = longest_zeros(groups, 8);
    let zeros = zeros_from(groups, start);
    if ip / 0x1_0000_0000 == 0xffff {
        "::ffff:"@ + ipv4_text(ip % 0x1_0000_0000)
    } else if zeros > 1 {
        groups_text(groups.take(start)) + "::"@ + groups_text(groups.skip(start + zeros))
    } else {
        groups_text(groups)
    }
}

/// The notation of a socket address.
pub open spec fn socket_addr_text(addr: SocketAddr) -> Seq<char> {
    match addr {
        SocketAddr::V4 { ip, port } => ipv4_text(ip as nat) + seq![':'] + text::decimal(
            port as nat,
        ),
        SocketAddr::V6 { ip6, scope_id, port } => {
            let scope = if scope_id == 0 {
                Seq::empty()
            } else {
                seq!['%'] + text::decimal(scope_id as nat)
            };
            seq!['['] + ipv6_text(ip6 as nat) + scope + "]:"@ + text::decimal(port as nat)
        },
    }
}

/// Appends the notation of an IPv4 address.
fn push_ipv4(out: &mut String, ip: u32)
    ensures
        final(out)@ == old(out)@ + ipv4_text(ip as nat),
{
    text::push_decimal(out, (ip / 0x100_0000) as u64);
    out.push('.');
    text::push_decimal(out, (ip / 0x1_0000 % 0x100) as u64);
    out.push('.');
    text::push_decimal(out, (ip / 0x100 % 0x100) as u64);
    out.push('.');
    text::push_decimal(out, (ip % 0x100) as u64);
    assert(out@ == old(out)@ + ipv4_text(ip as nat));
}

/// Appends the shortest hexadecimal notation of a number.
fn push_hex(out: &mut String, n: u32)
    ensures
        final(out)@ == old(out)@ + hex(n as nat),
    decreases n,
{
    if n >= 16 {
        push_hex(out, n / 16);
    }
    text::push_hex_digit(out, n % 16);
    assert(out@ == old(out)@ + hex(n as nat));
}

/// Splits an IPv6 address into its groups.
fn split_groups(ip: u128, n: usize) -> (groups: Vec<u16>)
    requires
        n <= 8,
    ensures
        group_values(groups@) == groups_of(ip as nat, n as nat),
        groups@.len() == n,
    decreases n,
{
    if n == 0 {
        let groups: Vec<u16> = Vec::new();
        assert(group_values(groups@) == groups_of(ip as nat, 0));
        groups
    } else {
        let mut groups = split_groups(ip / 0x1_0000, n - 1);
        let ghost before = groups@;
        groups.push((ip % 0x1_0000) as u16);
        assert(group_values(groups@) == group_values(before).push(ip as int % 0x1_0000));
        groups
    }
}

/// Counts the zero groups from `i` on.
fn count_zeros(groups: &[u16], i: usize) -> (n: usize)
    requires
        i <= groups@.len(),
    ensures
        n == zeros_from(group_values(groups@), i as int),
        i + n <= groups@.len(),
{
    let mut j: usize = i;
    let ghost values = group_values(groups@);
    while j < groups.len() && groups[j] == 0
        invariant
            i <= j <= groups@.len(),
            values == group_values(groups@),
            zeros_from(values, i as int) == j - i + zeros_from(values, j as int),
        decreases groups@.len() - j,
    {
        assert(values[j as int] == 0);
        j += 1;
    }
    assert(j < groups@.len() ==> values[j as int] != 0);
    j - i
}

/// Appends groups in hexadecimal with colons between them.
fn push_groups(out: &mut String, groups: &[u16])
    ensures
        final(out)@ == old(out)@ + groups_text(group_values(groups@)),
{
    let ghost values = group_values(groups@);
    let mut i: usize = 0;
    assert(out@ == old(out)@ + groups_text(values.take(0)));
    while i < groups.len()
        invariant
            i <= groups@.len(),
            values == group_values(groups@),
            out@ == old(out)@ + groups_text(values.take(i as int)),
        decreases groups@.len() - i,
    {
        proof {
            let upto = values.take(i + 1);
            assert(upto.drop_last() == values.take(i as int));
            assert(upto.last() == groups@[i as int] as int);
        }
        if i > 0 {
            out.push(':');
        }
        push_hex(out, groups[i] as u32);
        assert(out@ == old(out)@ + groups_text(values.take(i + 1)));
        i += 1;
    }
    assert(values.take(i as int) == values);
}

/// Appends the notation of an IPv6 address.
fn push_ipv6(out: &mut String, ip: u128)
    ensures
        final(out)@ == old(out)@ + ipv6_text(ip as nat),
{
    if ip / 0x1_0000_0000 == 0xffff {
        out.append("::ffff:");
        push_ipv4(out, (ip % 0x1_0000_0000) as u32);
        assert(out@ == old(out)@ + ipv6_text(ip as nat));
        return;
    }
    let groups = split_groups(ip, 8);
    let g = groups.as_slice();
    let ghost values = group_values(groups@);
    let mut start: usize = 0;
    let mut zeros: usize = count_zeros(g, 0);
    let mut i: usize = 1;
    while i < 8
        invariant
            1 <= i <= 8,
            g@.len() == 8,
            values == group_values(g@),
            start < i,
            start == longest_zeros(values, i as nat),
            zeros == zeros_from(values, start as int),
            start + zeros <= 8,
        decreases 8 - i,
    {
        let n: usize = count_zeros(g, i);
        if n > zeros {
            start = i;
            zeros = n;
        }
        i += 1;
    }
    if zeros > 1 {
        let head = vstd::slice::slice_subrange(g, 0, start);
        let tail = vstd::slice::slice_subrange(g, start + zeros, 8);
        assert(group_values(head@) == values.take(start as int));
        assert(group_values(tail@) == values.skip(start + zeros));
        push_groups(out, head);
        out.append("::");
        push_groups(out, tail);
    } else {
        push_groups(out, g);
    }
    assert(out@ == old(out)@ + ipv6_text(ip as nat));
}

impl SocketAddr {
    /// The notation of the address.
    pub fn to_text(&self) -> (s: String)
        ensures
            s@ == socket_addr_text(*self),
    {
        let mut s = String::new();
        match *self {
            SocketAddr::V4 { ip, port } => {
                push_ipv4(&mut s, ip);
                s.push(':');
                text::push_decimal(&mut s, port as u64);
            },
            SocketAddr::V6 { ip6, scope_id, port } => {
                s.push('[');
                push_ipv6(&mut s, ip6);
                if scope_id != 0 {
                    s.push('%');
                    text::push_decimal(&mut s, scope_id as u64);
                }
                s.append("]:");
                text::push_decimal(&mut s, port as u64);
            },
        }
        assert(s@ == socket_addr_text(*self));
        s
    }

    /// The address belongs to a multicast group.
    pub open spec fn spec_is_multicast(&self) -> bool {
        match *self {
            SocketAddr::V4 { ip, .. } => 0xe000_0000 <= ip < 0xf000_0000,
            SocketAddr::V6 { ip6, .. } => ip6 >= 0xff00_0000_0000_0000_0000_0000_0000_0000,
        }
    }

    /// Tells whether the address belongs to a multicast group.
    pub fn is_multicast(&self) -> (yes: bool)
        ensures
            yes == self.spec_is_multicast(),
    {
        match *self {
            SocketAddr::V4 { ip, .. } => 0xe000_0000 <= ip && ip < 0xf000_0000,
            SocketAddr::V6 { ip6, .. } => ip6 >= 0xff00_0000_0000_0000_0000_0000_0000_0000,
        }
    }
}

} // verus!
