//! The notation of a socket address denotes that address.
use crate::addr;
use crate::addr::SocketAddr;
use crate::text;
use vstd::prelude::*;

verus! {

/// `part` stands at `pos`.
pub open spec fn stands_at(s: Seq<char>, pos: int, part: Seq<char>) -> bool {
    0 <= pos && pos + part.len() <= s.len() && s.subrange(pos, pos + part.len()) == part
}

/// No digit of this radix stands at `pos`.
pub open spec fn no_digit_at(s: Seq<char>, pos: int, radix: int) -> bool {
    0 <= pos < s.len() ==> addr::digit_of(s[pos], radix) < 0
}

/// The parts of what stands at `pos` stand one behind the other.
proof fn lemma_stands_split(s: Seq<char>, pos: int, a: Seq<char>, b: Seq<char>)
    requires
        stands_at(s, pos, a + b),
    ensures
        stands_at(s, pos, a),
        stands_at(s, pos + a.len(), b),
{
    let whole = s.subrange(pos, pos + (a + b).len());
    assert(s.subrange(pos, pos + a.len()) == (a + b).subrange(0, a.len() as int)) by {
        assert(whole.subrange(0, a.len() as int) == s.subrange(pos, pos + a.len()));
    }
    assert((a + b).subrange(0, a.len() as int) == a);
    assert(s.subrange(pos + a.len(), pos + a.len() + b.len()) == (a + b).subrange(
        a.len() as int,
        (a + b).len() as int,
    )) by {
        assert(whole.subrange(a.len() as int, (a + b).len() as int) == s.subrange(
            pos + a.len(),
            pos + a.len() + b.len(),
        ));
    }
    assert((a + b).subrange(a.len() as int, (a + b).len() as int) == b);
}

/// What stands at `pos` gives the characters there.
proof fn lemma_stands_char(s: Seq<char>, pos: int, part: Seq<char>, i: int)
    requires
        stands_at(s, pos, part),
        0 <= i < part.len(),
    ensures
        0 <= pos + i < s.len(),
        s[pos + i] == part[i],
{
    assert(s.subrange(pos, pos + part.len())[i] == s[pos + i]);
}

/// The run of digits at `pos` ends at the first character that is none.
proof fn lemma_run_end_unique(s: Seq<char>, pos: int, radix: int, end: int)
    requires
        0 <= pos <= end <= s.len(),
        forall|i: int| pos <= i < end ==> addr::digit_of(#[trigger] s[i], radix) >= 0,
        no_digit_at(s, end, radix),
    ensures
        addr::run_end(s, pos, radix) == end,
    decreases end - pos,
{
    if pos < end {
        assert(addr::digit_of(s[pos], radix) >= 0);
        lemma_run_end_unique(s, pos + 1, radix, end);
    }
}

/// Where no digit stands, no number does.
proof fn lemma_no_number(
    s: Seq<char>,
    pos: int,
    radix: int,
    max_digits: int,
    zero_prefix: bool,
    max: int,
)
    requires
        no_digit_at(s, pos, radix),
    ensures
        addr::number_at(s, pos, radix, max_digits, zero_prefix, max) is None,
{
}

/// Decimal digits denote the same number either way.
proof fn lemma_run_value_decimal(s: Seq<char>)
    requires
        text::all_digits(s),
    ensures
        addr::run_value(s, 10) == text::digits_value(s),
    decreases s.len(),
{
    if s.len() > 0 {
        assert forall|i: int| 0 <= i < s.drop_last().len() implies text::is_digit(
            #[trigger] s.drop_last()[i],
        ) by {
            assert(text::is_digit(s[i]));
        }
        lemma_run_value_decimal(s.drop_last());
        assert(text::is_digit(s[s.len() - 1]));
    }
}

/// Decimal notation has no superfluous zeros in front.
proof fn lemma_decimal_leading(n: nat)
    ensures
        text::decimal(n).len() > 0,
        text::decimal(n)[0] != '0' || text::decimal(n).len() == 1,
        n < 10 ==> text::decimal(n).len() == 1,
        n < 100 ==> text::decimal(n).len() <= 2,
        n < 1000 ==> text::decimal(n).len() <= 3,
        n > 0 ==> text::decimal(n)[0] != '0',
    decreases n,
{
    if n >= 10 {
        lemma_decimal_leading(n / 10);
    }
}

/// A number of 32 bits has at most ten digits.
proof fn lemma_decimal_short(n: nat)
    requires
        n <= u32::MAX,
    ensures
        text::decimal(n).len() <= 10,
{
    reveal_with_fuel(text::decimal, 11);
}

/// A decimal number that is not followed by a digit is read as itself.
proof fn lemma_decimal_is_read(s: Seq<char>, pos: int, n: nat, max_digits: int, max: int)
    requires
        stands_at(s, pos, text::decimal(n)),
        no_digit_at(s, pos + text::decimal(n).len(), 10),
        text::decimal(n).len() <= max_digits,
        n <= max,
    ensures
        addr::number_at(s, pos, 10, max_digits, false, max) == Some(
            (n as int, pos + text::decimal(n).len()),
        ),
        addr::number_at(s, pos, 10, max_digits, true, max) == Some(
            (n as int, pos + text::decimal(n).len()),
        ),
{
    let digits = text::decimal(n);
    let end = pos + digits.len();
    text::decimal_round_trip(n);
    assert forall|i: int| pos <= i < end implies addr::digit_of(#[trigger] s[i], 10) >= 0 by {
        lemma_stands_char(s, pos, digits, i - pos);
        assert(text::is_digit(digits[i - pos]));
    }
    lemma_run_end_unique(s, pos, 10, end);
    lemma_run_value_decimal(digits);
    lemma_decimal_leading(n);
    lemma_stands_char(s, pos, digits, 0);
}

/// Hexadecimal notation is made of hexadecimal digits and denotes its number.
proof fn lemma_hex_value(n: nat)
    ensures
        addr::hex(n).len() > 0,
        forall|i: int|
            0 <= i < addr::hex(n).len() ==> addr::digit_of(#[trigger] addr::hex(n)[i], 16) >= 0
                && addr::hex(n)[i] != '.',
        addr::run_value(addr::hex(n), 16) == n,
        n < 16 ==> addr::hex(n).len() == 1,
        n < 0x100 ==> addr::hex(n).len() <= 2,
        n < 0x1000 ==> addr::hex(n).len() <= 3,
        n < 0x1_0000 ==> addr::hex(n).len() <= 4,
    decreases n,
{
    reveal_with_fuel(addr::run_value, 2);
    if n >= 16 {
        lemma_hex_value(n / 16);
        assert(addr::hex(n).drop_last() == addr::hex(n / 16));
        assert forall|i: int| 0 <= i < addr::hex(n).len() implies addr::digit_of(
            #[trigger] addr::hex(n)[i],
            16,
        ) >= 0 && addr::hex(n)[i] != '.' by {
            if i < addr::hex(n / 16).len() {
                assert(addr::hex(n)[i] == addr::hex(n / 16)[i]);
            }
        }
    } else {
        assert(addr::hex(n).drop_last() == Seq::<char>::empty());
    }
}

/// A group that is not followed by a digit is read as itself.
proof fn lemma_hex_is_read(s: Seq<char>, pos: int, n: nat)
    requires
        n <= 0xffff,
        stands_at(s, pos, addr::hex(n)),
        no_digit_at(s, pos + addr::hex(n).len(), 16),
    ensures
        addr::number_at(s, pos, 16, 4, true, 0xffff) == Some(
            (n as int, pos + addr::hex(n).len()),
        ),
{
    let digits = addr::hex(n);
    let end = pos + digits.len();
    lemma_hex_value(n);
    assert forall|i: int| pos <= i < end implies addr::digit_of(#[trigger] s[i], 16) >= 0 by {
        lemma_stands_char(s, pos, digits, i - pos);
        assert(addr::digit_of(digits[i - pos], 16) >= 0);
    }
    lemma_run_end_unique(s, pos, 16, end);
}

/// An octet with a dot before it is read as itself.
proof fn lemma_dotted_octet_is_read(s: Seq<char>, pos: int, n: nat)
    requires
        n <= 255,
        stands_at(s, pos, seq!['.'] + text::decimal(n)),
        no_digit_at(s, pos + 1 + text::decimal(n).len(), 10),
    ensures
        addr::dotted_octet_at(s, pos) == Some((n as int, pos + 1 + text::decimal(n).len())),
{
    lemma_stands_split(s, pos, seq!['.'], text::decimal(n));
    lemma_stands_char(s, pos, seq!['.'], 0);
    lemma_decimal_leading(n);
    lemma_decimal_is_read(s, pos + 1, n, 3, 255);
}

/// The octets of an address make up the address.
proof fn lemma_octets(ip: nat)
    requires
        ip <= u32::MAX,
    ensures
        ip / 0x100_0000 <= 255,
        ip / 0x1_0000 % 0x100 <= 255,
        ip / 0x100 % 0x100 <= 255,
        ip % 0x100 <= 255,
        (ip / 0x100_0000) * 0x100_0000 + (ip / 0x1_0000 % 0x100) * 0x1_0000 + (ip / 0x100 % 0x100)
            * 0x100 + ip % 0x100 == ip,
{
}

/// An IPv4 address that is not followed by a digit is read as itself.
proof fn lemma_ipv4_is_read(s: Seq<char>, pos: int, ip: nat)
    requires
        ip <= u32::MAX,
        stands_at(s, pos, addr::ipv4_text(ip)),
        no_digit_at(s, pos + addr::ipv4_text(ip).len(), 10),
    ensures
        addr::ipv4_at(s, pos) == Some((ip as int, pos + addr::ipv4_text(ip).len())),
{
    let a = ip / 0x100_0000;
    let b = ip / 0x1_0000 % 0x100;
    let c = ip / 0x100 % 0x100;
    let d = ip % 0x100;
    lemma_octets(ip);
    let tb = seq!['.'] + text::decimal(b);
    let tc = seq!['.'] + text::decimal(c);
    let td = seq!['.'] + text::decimal(d);
    assert(addr::ipv4_text(ip) == text::decimal(a) + (tb + (tc + td)));
    let p1 = pos + text::decimal(a).len();
    let p2 = p1 + tb.len();
    let p3 = p2 + tc.len();
    let p4 = p3 + td.len();
    lemma_stands_split(s, pos, text::decimal(a), tb + (tc + td));
    lemma_stands_split(s, p1, tb, tc + td);
    lemma_stands_split(s, p2, tc, td);
    lemma_stands_char(s, p1, tb, 0);
    lemma_stands_char(s, p2, tc, 0);
    lemma_stands_char(s, p3, td, 0);
    lemma_decimal_leading(a);
    lemma_decimal_is_read(s, pos, a, 3, 255);
    lemma_dotted_octet_is_read(s, p1, b);
    lemma_dotted_octet_is_read(s, p2, c);
    lemma_dotted_octet_is_read(s, p3, d);
}

/// A port at the end, with a colon before it, is read as itself.
proof fn lemma_port_is_read(s: Seq<char>, pos: int, port: nat)
    requires
        port <= 0xffff,
        stands_at(s, pos, seq![':'] + text::decimal(port)),
        pos + 1 + text::decimal(port).len() == s.len(),
    ensures
        addr::port_at(s, pos) == Some((port as int, s.len() as int)),
{
    lemma_stands_split(s, pos, seq![':'], text::decimal(port));
    lemma_stands_char(s, pos, seq![':'], 0);
    lemma_decimal_short(port);
    lemma_decimal_is_read(s, pos + 1, port, usize::MAX as int, 0xffff);
}

/// Two parts that make up a text stand one behind the other in it.
proof fn lemma_two_parts(a: Seq<char>, b: Seq<char>)
    ensures
        stands_at(a + b, 0, a),
        stands_at(a + b, a.len() as int, b),
{
    assert((a + b).subrange(0, (a + b).len() as int) == a + b);
    lemma_stands_split(a + b, 0, a, b);
}

/// An IPv4 address with a port behind it is read as such.
proof fn lemma_v4_is_read(s: Seq<char>, p: int, ip: u32, port: u16)
    requires
        addr::ipv4_at(s, 0) == Some((ip as int, p)),
        addr::port_at(s, p) == Some((port as int, s.len() as int)),
    ensures
        addr::socket_addr_v4(s) == Some(SocketAddr::V4 { ip, port }),
{
}

/// The notation of an IPv4 socket address denotes that address.
pub proof fn ipv4_notation_round_trip(ip: u32, port: u16)
    ensures
        addr::socket_addr(addr::socket_addr_text(SocketAddr::V4 { ip, port })) == Some(
            SocketAddr::V4 { ip, port },
        ),
{
    let s = addr::socket_addr_text(SocketAddr::V4 { ip, port });
    let head = addr::ipv4_text(ip as nat);
    let tail = seq![':'] + text::decimal(port as nat);
    let p = head.len() as int;
    assert(s == head + tail);
    lemma_two_parts(head, tail);
    assert(addr::ipv4_at(s, 0) == Some((ip as int, p))) by {
        lemma_stands_char(s, p, tail, 0);
        lemma_ipv4_is_read(s, 0, ip as nat);
    }
    assert(addr::port_at(s, p) == Some((port as int, s.len() as int))) by {
        lemma_port_is_read(s, p, port as nat);
    }
    lemma_v4_is_read(s, p, ip, port);
}

/// Text without a dot holds no IPv4 address.
proof fn lemma_no_ipv4(s: Seq<char>, pos: int)
    requires
        forall|i: int| 0 <= i < s.len() ==> s[i] != '.',
    ensures
        addr::ipv4_at(s, pos) is None,
{
}

/// All groups have 16 bits.
pub open spec fn are_groups(groups: Seq<int>) -> bool {
    forall|i: int| 0 <= i < groups.len() ==> 0 <= #[trigger] groups[i] <= 0xffff
}

/// The notation of groups begins with that of the first group.
proof fn lemma_groups_text_first(groups: Seq<int>)
    requires
        groups.len() > 1,
    ensures
        addr::groups_text(groups) == addr::hex(groups[0] as nat) + (seq![':'] + addr::groups_text(
            groups.skip(1),
        )),
    decreases groups.len(),
{
    let rest = groups.skip(1);
    reveal_with_fuel(addr::groups_text, 2);
    if groups.len() == 2 {
        assert(groups.drop_last() == seq![groups[0]]);
        assert(rest == seq![groups[1]]);
    } else {
        lemma_groups_text_first(groups.drop_last());
        assert(groups.drop_last().skip(1) == rest.drop_last());
        assert(rest.last() == groups.last());
    }
    assert(addr::groups_text(groups) == addr::hex(groups[0] as nat) + (seq![':']
        + addr::groups_text(rest)));
}

/// Nothing that continues a list of groups stands at `pos`.
pub open spec fn groups_end_at(s: Seq<char>, pos: int) -> bool {
    &&& no_digit_at(s, pos, 16)
    &&& addr::char_at(s, pos, ':') ==> no_digit_at(s, pos + 1, 16)
}

/// Groups that are not followed by another one are read as themselves.
proof fn lemma_groups_are_read(s: Seq<char>, pos: int, groups: Seq<int>, i: nat, limit: nat)
    requires
        forall|j: int| 0 <= j < s.len() ==> s[j] != '.',
        are_groups(groups),
        groups.len() > 0,
        i + groups.len() <= limit,
        stands_at(
            s,
            pos,
            if i > 0 {
                seq![':'] + addr::groups_text(groups)
            } else {
                addr::groups_text(groups)
            },
        ),
        groups_end_at(
            s,
            pos + addr::groups_text(groups).len() + if i > 0 {
                1int
            } else {
                0int
            },
        ),
    ensures
        addr::groups_at(s, pos, i, limit) == (
            groups,
            pos + addr::groups_text(groups).len() + if i > 0 {
                1int
            } else {
                0int
            },
            false,
        ),
    decreases groups.len(),
{
    let start = if i > 0 {
        pos + 1
    } else {
        pos
    };
    if i > 0 {
        lemma_stands_split(s, pos, seq![':'], addr::groups_text(groups));
        lemma_stands_char(s, pos, seq![':'], 0);
    }
    lemma_no_ipv4(s, start);
    let first = addr::hex(groups[0] as nat);
    let end = start + first.len();
    if groups.len() == 1 {
        lemma_hex_is_read(s, start, groups[0] as nat);
        lemma_no_ipv4(s, end + 1);
        if addr::char_at(s, end, ':') {
            lemma_no_number(s, end + 1, 16, 4, true, 0xffff);
        }
        assert(addr::groups_at(s, end, i + 1, limit) == (Seq::<int>::empty(), end, false));
        assert(seq![groups[0]] + Seq::<int>::empty() == groups);
    } else {
        let rest = groups.skip(1);
        lemma_groups_text_first(groups);
        lemma_stands_split(s, start, first, seq![':'] + addr::groups_text(rest));
        lemma_stands_char(s, end, seq![':'] + addr::groups_text(rest), 0);
        lemma_hex_is_read(s, start, groups[0] as nat);
        assert(are_groups(rest)) by {
            assert forall|j: int| 0 <= j < rest.len() implies 0 <= #[trigger] rest[j] <= 0xffff by {
                assert(rest[j] == groups[j + 1]);
            }
        }
        lemma_groups_are_read(s, end, rest, i + 1, limit);
        assert(seq![groups[0]] + rest == groups);
    }
}

/// No dot stands in a text.
pub open spec fn no_dots(s: Seq<char>) -> bool {
    forall|i: int| 0 <= i < s.len() ==> s[i] != '.'
}

/// The notation of groups holds no dot.
proof fn lemma_groups_text_no_dots(groups: Seq<int>)
    ensures
        no_dots(addr::groups_text(groups)),
    decreases groups.len(),
{
    if groups.len() > 0 {
        lemma_hex_value(groups[0] as nat);
        lemma_hex_value(groups.last() as nat);
        lemma_groups_text_no_dots(groups.drop_last());
    }
}

/// A decimal number holds no dot.
proof fn lemma_decimal_no_dots(n: nat)
    ensures
        no_dots(text::decimal(n)),
{
    text::decimal_round_trip(n);
    assert forall|i: int| 0 <= i < text::decimal(n).len() implies text::decimal(n)[i] != '.' by {
        assert(text::is_digit(text::decimal(n)[i]));
    }
}

/// One more than the largest number of `n` groups.
pub open spec fn groups_limit(n: nat) -> nat
    decreases n,
{
    if n == 0 {
        1
    } else {
        0x1_0000 * groups_limit((n - 1) as nat)
    }
}

/// The groups of a number make up the number.
proof fn lemma_groups_of(ip: nat, n: nat)
    requires
        ip < groups_limit(n),
    ensures
        addr::groups_of(ip, n).len() == n,
        are_groups(addr::groups_of(ip, n)),
        addr::joined(addr::groups_of(ip, n)) == ip,
    decreases n,
{
    if n > 0 {
        let high = addr::groups_of(ip / 0x1_0000, (n - 1) as nat);
        lemma_groups_of(ip / 0x1_0000, (n - 1) as nat);
        assert(addr::groups_of(ip, n).drop_last() == high);
        assert forall|i: int| 0 <= i < n implies 0 <= #[trigger] addr::groups_of(ip, n)[i]
            <= 0xffff by {
            if i < n - 1 {
                assert(addr::groups_of(ip, n)[i] == high[i]);
            }
        }
    }
}

/// A run of zero groups is one.
proof fn lemma_zeros_from(groups: Seq<int>, i: int)
    requires
        0 <= i <= groups.len(),
    ensures
        0 <= addr::zeros_from(groups, i) <= groups.len() - i,
        forall|j: int| i <= j < i + addr::zeros_from(groups, i) ==> groups[j] == 0,
    decreases groups.len() - i,
{
    if i < groups.len() && groups[i] == 0 {
        lemma_zeros_from(groups, i + 1);
    }
}

/// The longest run of zero groups begins at a group.
proof fn lemma_longest_zeros(groups: Seq<int>, n: nat)
    requires
        n > 0,
    ensures
        0 <= addr::longest_zeros(groups, n) < n,
    decreases n,
{
    if n > 1 {
        lemma_longest_zeros(groups, (n - 1) as nat);
    }
}

/// One more group shifts the others.
proof fn lemma_joined_push(groups: Seq<int>, g: int)
    ensures
        addr::joined(groups.push(g)) == addr::joined(groups) * 0x1_0000 + g,
{
    assert(groups.push(g).drop_last() == groups);
}

/// Zero groups make up zero.
proof fn lemma_joined_zeros(n: nat)
    ensures
        addr::joined(Seq::new(n, |i: int| 0int)) == 0,
    decreases n,
{
    if n > 0 {
        lemma_joined_zeros((n - 1) as nat);
        assert(Seq::new(n, |i: int| 0int).drop_last() == Seq::new((n - 1) as nat, |i: int| 0int));
    }
}

/// Behind the address stands what ends it.
pub open spec fn address_ends_at(s: Seq<char>, pos: int) -> bool {
    addr::char_at(s, pos, ']') || addr::char_at(s, pos, '%')
}

/// An address mapped from IPv4 is read as itself.
proof fn lemma_mapped_is_read(s: Seq<char>, pos: int, ip: nat)
    requires
        ip / 0x1_0000_0000 == 0xffff,
        stands_at(s, pos, addr::ipv6_text(ip)),
        address_ends_at(s, pos + addr::ipv6_text(ip).len()),
    ensures
        addr::ipv6_at(s, pos) == Some((ip as int, pos + addr::ipv6_text(ip).len())),
{
    let low = ip % 0x1_0000_0000;
    let head = "::ffff:"@;
    let end = pos + addr::ipv6_text(ip).len();
    reveal_strlit("::ffff:");
    lemma_stands_split(s, pos, head, addr::ipv4_text(low));
    lemma_stands_char(s, pos, head, 0);
    lemma_stands_char(s, pos, head, 1);
    lemma_stands_char(s, pos, head, 2);
    lemma_stands_char(s, pos, head, 6);
    assert(addr::groups_at(s, pos, 0, 8) == (Seq::<int>::empty(), pos, false)) by {
        lemma_no_number(s, pos, 10, 3, false, 255);
        lemma_no_number(s, pos, 16, 4, true, 0xffff);
    }
    reveal_with_fuel(addr::hex, 4);
    let word = addr::hex(0xffff);
    assert(word == seq!['f', 'f', 'f', 'f']);
    assert(head == seq![':', ':'] + (word + seq![':']));
    lemma_stands_split(s, pos, seq![':', ':'], word + seq![':']);
    lemma_stands_split(s, pos + 2, word, seq![':']);
    lemma_hex_is_read(s, pos + 2, 0xffff);
    lemma_no_number(s, pos + 2, 10, 3, false, 255);
    lemma_ipv4_is_read(s, pos + 7, low);
    let tail = seq![0xffffint, low as int / 0x1_0000, low as int % 0x1_0000];
    let behind = addr::groups_at(s, pos + 6, 1, 7);
    assert(behind == (seq![low as int / 0x1_0000, low as int % 0x1_0000], end, true));
    assert(addr::groups_at(s, pos + 2, 0, 7) == (seq![0xffffint] + behind.0, end, true));
    assert(seq![0xffffint] + behind.0 == tail);
    let zeros = Seq::new(5, |i: int| 0int);
    let one = zeros.push(0xffff);
    let two = one.push(low as int / 0x1_0000);
    lemma_joined_zeros(5);
    lemma_joined_push(zeros, 0xffff);
    lemma_joined_push(one, low as int / 0x1_0000);
    lemma_joined_push(two, low as int % 0x1_0000);
    assert(Seq::<int>::empty() + zeros + tail == two.push(low as int % 0x1_0000));
}

/// An address with a shortened run of zero groups is read as itself.
proof fn lemma_shortened_is_read(
    s: Seq<char>,
    pos: int,
    groups: Seq<int>,
    start: int,
    zeros: int,
)
    requires
        no_dots(s),
        groups.len() == 8,
        are_groups(groups),
        0 <= start,
        0 < zeros,
        start + zeros <= 8,
        forall|j: int| start <= j < start + zeros ==> groups[j] == 0,
        stands_at(
            s,
            pos,
            addr::groups_text(groups.take(start)) + "::"@ + addr::groups_text(
                groups.skip(start + zeros),
            ),
        ),
        address_ends_at(
            s,
            pos + addr::groups_text(groups.take(start)).len() + 2 + addr::groups_text(
                groups.skip(start + zeros),
            ).len(),
        ),
    ensures
        addr::ipv6_at(s, pos) == Some(
            (
                addr::joined(groups),
                pos + addr::groups_text(groups.take(start)).len() + 2 + addr::groups_text(
                    groups.skip(start + zeros),
                ).len(),
            ),
        ),
{
    let head = groups.take(start);
    let tail = groups.skip(start + zeros);
    let (ht, tt) = (addr::groups_text(head), addr::groups_text(tail));
    let p = pos + ht.len();
    let end = p + 2 + tt.len();
    reveal_strlit("::");
    assert(ht + "::"@ + tt == ht + ("::"@ + tt));
    lemma_stands_split(s, pos, ht, "::"@ + tt);
    lemma_stands_split(s, p, "::"@, tt);
    lemma_stands_char(s, p, "::"@, 0);
    lemma_stands_char(s, p, "::"@, 1);
    assert(are_groups(head));
    assert(are_groups(tail)) by {
        assert forall|j: int| 0 <= j < tail.len() implies 0 <= #[trigger] tail[j] <= 0xffff by {
            assert(tail[j] == groups[j + start + zeros]);
        }
    }
    assert(addr::groups_at(s, pos, 0, 8) == (head, p, false)) by {
        if start > 0 {
            lemma_groups_are_read(s, pos, head, 0, 8);
        } else {
            lemma_no_ipv4(s, pos);
            lemma_no_number(s, pos, 16, 4, true, 0xffff);
        }
    }
    let limit = (7 - start) as nat;
    assert(addr::groups_at(s, p + 2, 0, limit) == (tail, end, false)) by {
        if tail.len() > 0 {
            lemma_groups_are_read(s, p + 2, tail, 0, limit);
        } else {
            lemma_no_ipv4(s, end);
            lemma_no_number(s, end, 16, 4, true, 0xffff);
        }
    }
    assert(head + Seq::new((8 - head.len() - tail.len()) as nat, |i: int| 0int) + tail == groups);
}

/// An IPv6 address is read as itself.
proof fn lemma_ipv6_is_read(s: Seq<char>, pos: int, ip: nat)
    requires
        ip <= u128::MAX,
        ip / 0x1_0000_0000 != 0xffff ==> no_dots(s),
        stands_at(s, pos, addr::ipv6_text(ip)),
        address_ends_at(s, pos + addr::ipv6_text(ip).len()),
    ensures
        addr::ipv6_at(s, pos) == Some((ip as int, pos + addr::ipv6_text(ip).len())),
{
    if ip / 0x1_0000_0000 == 0xffff {
        lemma_mapped_is_read(s, pos, ip);
    } else {
        let groups = addr::groups_of(ip, 8);
        let start = addr::longest_zeros(groups, 8);
        let zeros = addr::zeros_from(groups, start);
        reveal_with_fuel(groups_limit, 9);
        lemma_groups_of(ip, 8);
        lemma_longest_zeros(groups, 8);
        lemma_zeros_from(groups, start);
        if zeros > 1 {
            reveal_strlit("::");
            lemma_shortened_is_read(s, pos, groups, start, zeros);
        } else {
            lemma_groups_are_read(s, pos, groups, 0, 8);
        }
    }
}

/// The scope of an address as it is written: nothing for scope 0.
pub open spec fn scope_text(scope_id: u32) -> Seq<char> {
    if scope_id == 0 {
        Seq::empty()
    } else {
        seq!['%'] + text::decimal(scope_id as nat)
    }
}

/// A scope that a bracket follows is read as itself.
proof fn lemma_scope_is_read(s: Seq<char>, pos: int, scope_id: u32)
    requires
        stands_at(s, pos, scope_text(scope_id)),
        addr::char_at(s, pos + scope_text(scope_id).len(), ']'),
    ensures
        addr::scope_at(s, pos) == (scope_id as int, pos + scope_text(scope_id).len()),
        address_ends_at(s, pos),
{
    if scope_id != 0 {
        lemma_stands_split(s, pos, seq!['%'], text::decimal(scope_id as nat));
        lemma_stands_char(s, pos, seq!['%'], 0);
        lemma_decimal_short(scope_id as nat);
        lemma_decimal_is_read(
            s,
            pos + 1,
            scope_id as nat,
            usize::MAX as int,
            u32::MAX as int,
        );
    }
}

/// No dot stands in the notation of an address that is not mapped from IPv4.
proof fn lemma_ipv6_text_no_dots(ip: nat)
    requires
        ip / 0x1_0000_0000 != 0xffff,
    ensures
        no_dots(addr::ipv6_text(ip)),
{
    let groups = addr::groups_of(ip, 8);
    let start = addr::longest_zeros(groups, 8);
    let zeros = addr::zeros_from(groups, start);
    reveal_strlit("::");
    lemma_groups_text_no_dots(groups);
    lemma_groups_text_no_dots(groups.take(start));
    lemma_groups_text_no_dots(groups.skip(start + zeros));
}

/// Five parts that make up a text stand one behind the other in it.
proof fn lemma_five_parts(a: Seq<char>, b: Seq<char>, c: Seq<char>, d: Seq<char>, e: Seq<char>)
    ensures
        ({
            let s = a + (b + (c + (d + e)));
            let p = a.len() as int;
            let q = p + b.len();
            let r = q + c.len();
            let t = r + d.len();
            &&& s.len() == t + e.len()
            &&& stands_at(s, 0, a)
            &&& stands_at(s, p, b)
            &&& stands_at(s, q, c)
            &&& stands_at(s, r, d)
            &&& stands_at(s, t, e)
        }),
{
    let s = a + (b + (c + (d + e)));
    let p = a.len() as int;
    let q = p + b.len();
    let r = q + c.len();
    lemma_two_parts(a, b + (c + (d + e)));
    lemma_stands_split(s, p, b, c + (d + e));
    lemma_stands_split(s, q, c, d + e);
    lemma_stands_split(s, r, d, e);
}

/// An address in brackets with a port behind it is read as such.
proof fn lemma_v6_is_read(s: Seq<char>, p: int, q: int, ip6: u128, scope_id: u32, port: u16)
    requires
        addr::char_at(s, 0, '['),
        addr::ipv6_at(s, 1) == Some((ip6 as int, p)),
        addr::scope_at(s, p) == (scope_id as int, q),
        addr::char_at(s, q, ']'),
        addr::port_at(s, q + 1) == Some((port as int, s.len() as int)),
    ensures
        addr::socket_addr(s) == Some(SocketAddr::V6 { ip6, scope_id, port }),
{
    assert(addr::socket_addr_v4(s) is None) by {
        lemma_no_number(s, 0, 10, 3, false, 255);
    }
}

/// The notation of an IPv6 socket address denotes that address.
pub proof fn ipv6_notation_round_trip(ip6: u128, scope_id: u32, port: u16)
    ensures
        addr::socket_addr(addr::socket_addr_text(SocketAddr::V6 { ip6, scope_id, port })) == Some(
            SocketAddr::V6 { ip6, scope_id, port },
        ),
{
    let s = addr::socket_addr_text(SocketAddr::V6 { ip6, scope_id, port });
    let address = addr::ipv6_text(ip6 as nat);
    let scope = scope_text(scope_id);
    let digits = text::decimal(port as nat);
    assert(s == seq!['['] + (address + (scope + (seq![']'] + (seq![':'] + digits))))) by {
        reveal_strlit("]:");
    }
    let p = 1 + address.len() as int;
    let q = p + scope.len();
    lemma_five_parts(seq!['['], address, scope, seq![']'], seq![':'] + digits);
    lemma_stands_char(s, 0, seq!['['], 0);
    lemma_stands_char(s, q, seq![']'], 0);
    assert(addr::scope_at(s, p) == (scope_id as int, q) && address_ends_at(s, p)) by {
        lemma_scope_is_read(s, p, scope_id);
    }
    assert(addr::ipv6_at(s, 1) == Some((ip6 as int, p))) by {
        if ip6 as nat / 0x1_0000_0000 != 0xffff {
            lemma_ipv6_text_no_dots(ip6 as nat);
            lemma_decimal_no_dots(scope_id as nat);
            lemma_decimal_no_dots(port as nat);
            assert(no_dots(s));
        }
        lemma_ipv6_is_read(s, 1, ip6 as nat);
    }
    assert(addr::port_at(s, q + 1) == Some((port as int, s.len() as int))) by {
        lemma_port_is_read(s, q + 1, port as nat);
    }
    lemma_v6_is_read(s, p, q, ip6, scope_id, port);
}

/// The notation of a socket address denotes that address.
pub proof fn notation_round_trip(a: SocketAddr)
    ensures
        addr::socket_addr(addr::socket_addr_text(a)) == Some(a),
{
    match a {
        SocketAddr::V4 { ip, port } => ipv4_notation_round_trip(ip, port),
        SocketAddr::V6 { ip6, scope_id, port } => ipv6_notation_round_trip(ip6, scope_id, port),
    }
}

/// The octets of an IPv4 address are written in their order, most significant
/// first, and so they are read.
pub proof fn octets_keep_their_order(a: u8, b: u8, c: u8, d: u8, port: u16)
    ensures
        ({
            let s = text::decimal(a as nat) + seq!['.'] + text::decimal(b as nat) + seq!['.']
                + text::decimal(c as nat) + seq!['.'] + text::decimal(d as nat) + seq![':']
                + text::decimal(port as nat);
            let ip = (((a * 0x100 + b) * 0x100 + c) * 0x100 + d) as u32;
            &&& addr::socket_addr_text(SocketAddr::V4 { ip, port }) == s
            &&& addr::socket_addr(s) == Some(SocketAddr::V4 { ip, port })
        }),
{
    let ip = (((a * 0x100 + b) * 0x100 + c) * 0x100 + d) as u32;
    assert(ip / 0x100_0000 == a);
    assert(ip / 0x1_0000 % 0x100 == b);
    assert(ip / 0x100 % 0x100 == c);
    assert(ip % 0x100 == d);
    ipv4_notation_round_trip(ip, port);
}

/// Digits without a superfluous zero in front are the decimal notation of what they
/// denote.
proof fn lemma_digits_are_decimal(s: Seq<char>)
    requires
        s.len() > 0,
        text::all_digits(s),
        s[0] != '0' || s.len() == 1,
    ensures
        text::decimal(text::digits_value(s)) == s,
    decreases s.len(),
{
    let rest = s.drop_last();
    reveal_with_fuel(text::digits_value, 2);
    reveal_with_fuel(text::decimal, 2);
    assert(text::is_digit(s[s.len() - 1]));
    if s.len() == 1 {
        assert(text::decimal(text::digits_value(s)) =~= s);
    } else {
        assert forall|i: int| 0 <= i < rest.len() implies text::is_digit(#[trigger] rest[i]) by {
            assert(text::is_digit(s[i]));
        }
        lemma_digits_are_decimal(rest);
        assert(text::digits_value(rest) != 0) by {
            if text::digits_value(rest) == 0 {
                assert(rest[0] == '0');
            }
        }
        assert(text::digits_value(s) / 10 == text::digits_value(rest));
        assert(text::decimal(text::digits_value(s)) =~= rest.push(s.last()));
        assert(rest.push(s.last()) =~= s);
    }
}

/// A run of digits holds digits only.
proof fn lemma_run_holds_digits(s: Seq<char>, pos: int)
    requires
        0 <= pos <= s.len(),
    ensures
        pos <= addr::run_end(s, pos, 10) <= s.len(),
        text::all_digits(s.subrange(pos, addr::run_end(s, pos, 10))),
    decreases s.len() - pos,
{
    if pos < s.len() && addr::digit_of(s[pos], 10) >= 0 {
        lemma_run_holds_digits(s, pos + 1);
        let end = addr::run_end(s, pos, 10);
        let tail = s.subrange(pos + 1, end);
        assert forall|i: int| 0 <= i < end - pos implies text::is_digit(
            #[trigger] s.subrange(pos, end)[i],
        ) by {
            if i > 0 {
                assert(text::is_digit(tail[i - 1]));
            }
        }
    }
}

proof fn lemma_octet_is_notation(s: Seq<char>, pos: int)
    requires
        0 <= pos <= s.len(),
        addr::octet_at(s, pos) is Some,
    ensures
        ({
            let (n, end) = addr::octet_at(s, pos)->Some_0;
            0 <= n <= 255 && pos < end <= s.len() && s.subrange(pos, end) == text::decimal(n as nat)
        }),
{
    let end = addr::run_end(s, pos, 10);
    let digits = s.subrange(pos, end);
    lemma_run_holds_digits(s, pos);
    lemma_run_value_decimal(digits);
    lemma_digits_are_decimal(digits);
}

/// Whatever is read as an IPv4 socket address is one: its octets in their decimal
/// notation, dots between them, a colon, and digits that denote the port.
#[verifier::rlimit(40)]
pub proof fn only_ipv4_addresses_are_read(s: Seq<char>, ip: u32, port: u16)
    requires
        addr::socket_addr(s) == Some(SocketAddr::V4 { ip, port }),
    ensures
        exists|a: u8, b: u8, c: u8, d: u8, digits: Seq<char>|
            {
                &&& ip == ((a * 0x100 + b) * 0x100 + c) * 0x100 + d
                &&& text::all_digits(digits) && digits.len() > 0
                &&& port == text::digits_value(digits)
                &&& s == #[trigger] ipv4_with_port(a, b, c, d, digits)
            },
{
    let (a, p1) = addr::octet_at(s, 0)->Some_0;
    let (b, p2) = addr::octet_at(s, p1 + 1)->Some_0;
    let (c, p3) = addr::octet_at(s, p2 + 1)->Some_0;
    let (d, p4) = addr::octet_at(s, p3 + 1)->Some_0;
    lemma_octet_is_notation(s, 0);
    lemma_octet_is_notation(s, p1 + 1);
    lemma_octet_is_notation(s, p2 + 1);
    lemma_octet_is_notation(s, p3 + 1);
    let digits = s.subrange(p4 + 1, s.len() as int);
    lemma_run_holds_digits(s, p4 + 1);
    lemma_run_value_decimal(digits);
    assert(addr::socket_addr_v4(s) is Some);
    lemma_parts_of_address(s, p1, p2, p3, p4);
    assert(s == ipv4_with_port(a as u8, b as u8, c as u8, d as u8, digits));
}

proof fn lemma_parts_of_address(s: Seq<char>, p1: int, p2: int, p3: int, p4: int)
    requires
        0 <= p1 < p2 < p3 < p4 < s.len(),
        s[p1] == '.',
        s[p2] == '.',
        s[p3] == '.',
        s[p4] == ':',
    ensures
        s == s.subrange(0, p1) + seq!['.'] + s.subrange(p1 + 1, p2) + seq!['.'] + s.subrange(
            p2 + 1,
            p3,
        ) + seq!['.'] + s.subrange(p3 + 1, p4) + seq![':'] + s.subrange(p4 + 1, s.len() as int),
{
    let a = s.subrange(0, p1) + seq!['.'];
    assert(a =~= s.take(p1 + 1));
    let b = a + s.subrange(p1 + 1, p2) + seq!['.'];
    assert(b =~= s.take(p2 + 1));
    let c = b + s.subrange(p2 + 1, p3) + seq!['.'];
    assert(c =~= s.take(p3 + 1));
    let d = c + s.subrange(p3 + 1, p4) + seq![':'];
    assert(d =~= s.take(p4 + 1));
    assert(d + s.subrange(p4 + 1, s.len() as int) =~= s);
}

/// Four octets and a port as they are written.
pub open spec fn ipv4_with_port(a: u8, b: u8, c: u8, d: u8, port: Seq<char>) -> Seq<char> {
    text::decimal(a as nat) + seq!['.'] + text::decimal(b as nat) + seq!['.'] + text::decimal(
        c as nat,
    ) + seq!['.'] + text::decimal(d as nat) + seq![':'] + port
}

/// Hexadecimal digits are read in either case, decimal digits as such, and nothing
/// else is a digit.
pub proof fn digits_have_their_values(c: char)
    ensures
        '0' <= c <= '9' ==> addr::digit_of(c, 10) == c as int - 0x30 && addr::digit_of(c, 16)
            == c as int - 0x30,
        'a' <= c <= 'f' ==> addr::digit_of(c, 16) == c as int - 0x61 + 10,
        'A' <= c <= 'F' ==> addr::digit_of(c, 16) == c as int - 0x41 + 10,
        !('0' <= c <= '9') ==> addr::digit_of(c, 10) < 0,
        !('0' <= c <= '9' || 'a' <= c <= 'f' || 'A' <= c <= 'F') ==> addr::digit_of(c, 16) < 0,
{
}

/// A group is written in lower case, with one digit up to 15, and each further digit
/// is worth sixteen times less than the one before it.
pub proof fn groups_are_hexadecimal(n: nat)
    ensures
        forall|i: int|
            0 <= i < addr::hex(n).len() ==> '0' <= #[trigger] addr::hex(n)[i] <= '9' || 'a'
                <= addr::hex(n)[i] <= 'f',
        n < 16 ==> addr::hex(n).len() == 1 && addr::digit_of(addr::hex(n)[0], 16) == n,
        n >= 16 ==> addr::hex(n).drop_last() == addr::hex(n / 16) && addr::digit_of(
            addr::hex(n).last(),
            16,
        ) == n % 16,
        n > 0 ==> addr::hex(n)[0] != '0',
    decreases n,
{
    if n >= 16 {
        groups_are_hexadecimal(n / 16);
        assert(addr::hex(n).drop_last() =~= addr::hex(n / 16));
        assert forall|i: int| 0 <= i < addr::hex(n).len() implies '0' <= #[trigger] addr::hex(
            n,
        )[i] <= '9' || 'a' <= addr::hex(n)[i] <= 'f' by {
            if i < addr::hex(n).len() - 1 {
                assert(addr::hex(n)[i] == addr::hex(n / 16)[i]);
            }
        }
        lemma_hex_value(n / 16);
    }
}

/// The address that eight groups make up, most significant first.
pub open spec fn grouped(g: Seq<int>) -> int {
    g[0] * 0x1_0000_0000_0000_0000_0000_0000_0000 + g[1] * 0x1_0000_0000_0000_0000_0000_0000 + g[2]
        * 0x1_0000_0000_0000_0000_0000 + g[3] * 0x1_0000_0000_0000_0000 + g[4] * 0x1_0000_0000_0000
        + g[5] * 0x1_0000_0000 + g[6] * 0x1_0000 + g[7]
}

proof fn lemma_grouped(g: Seq<int>)
    requires
        g.len() == 8,
    ensures
        addr::joined(g) == grouped(g),
{
    let g1 = seq![g[0]];
    let g2 = g1.push(g[1]);
    let g3 = g2.push(g[2]);
    let g4 = g3.push(g[3]);
    let g5 = g4.push(g[4]);
    let g6 = g5.push(g[5]);
    let g7 = g6.push(g[6]);
    assert(g =~= g7.push(g[7]));
    assert(g1 =~= Seq::<int>::empty().push(g[0]));
    lemma_joined_push(Seq::<int>::empty(), g[0]);
    lemma_joined_push(g1, g[1]);
    lemma_joined_push(g2, g[2]);
    lemma_joined_push(g3, g[3]);
    lemma_joined_push(g4, g[4]);
    lemma_joined_push(g5, g[5]);
    lemma_joined_push(g6, g[6]);
    lemma_joined_push(g7, g[7]);
}

/// The groups of an address are its own, most significant first.
pub proof fn groups_make_up_the_address(ip6: u128)
    ensures
        addr::groups_of(ip6 as nat, 8).len() == 8,
        are_groups(addr::groups_of(ip6 as nat, 8)),
        grouped(addr::groups_of(ip6 as nat, 8)) == ip6,
{
    reveal_with_fuel(groups_limit, 9);
    lemma_groups_of(ip6 as nat, 8);
    lemma_grouped(addr::groups_of(ip6 as nat, 8));
}

/// Eight groups in full denote their address.
#[verifier::rlimit(40)]
pub proof fn full_addresses_are_read(groups: Seq<int>, ip6: u128, port: u16)
    requires
        groups.len() == 8,
        are_groups(groups),
        ip6 == grouped(groups),
    ensures
        addr::socket_addr(
            seq!['['] + addr::groups_text(groups) + seq![']', ':'] + text::decimal(port as nat),
        ) == Some(SocketAddr::V6 { ip6, scope_id: 0, port }),
{
    let full = addr::groups_text(groups);
    let s = seq!['['] + full + seq![']', ':'] + text::decimal(port as nat);
    let p = 1 + full.len() as int;
    assert(addr::joined(groups) == ip6) by {
        lemma_grouped(groups);
    }
    assert(no_dots(full)) by {
        lemma_groups_text_no_dots(groups);
    }
    lemma_bracketed(full, port);
    assert(addr::ipv6_at(s, 1) == Some((ip6 as int, p))) by {
        lemma_groups_are_read(s, 1, groups, 0, 8);
    }
    lemma_v6_is_read(s, p, p, ip6, 0, port);
}

/// Eight groups denote their address with any one run of zero groups left out.
#[verifier::rlimit(40)]
pub proof fn shortened_addresses_are_read(
    groups: Seq<int>,
    start: int,
    zeros: int,
    ip6: u128,
    port: u16,
)
    requires
        groups.len() == 8,
        are_groups(groups),
        ip6 == grouped(groups),
        0 <= start,
        0 < zeros,
        start + zeros <= 8,
        forall|j: int| start <= j < start + zeros ==> groups[j] == 0,
    ensures
        addr::socket_addr(
            seq!['['] + (addr::groups_text(groups.take(start)) + seq![':', ':'] + addr::groups_text(
                groups.skip(start + zeros),
            )) + seq![']', ':'] + text::decimal(port as nat),
        ) == Some(SocketAddr::V6 { ip6, scope_id: 0, port }),
{
    let (head, tail) = (groups.take(start), groups.skip(start + zeros));
    let short = addr::groups_text(head) + seq![':', ':'] + addr::groups_text(tail);
    let s = seq!['['] + short + seq![']', ':'] + text::decimal(port as nat);
    let p = 1 + short.len() as int;
    assert(addr::joined(groups) == ip6) by {
        lemma_grouped(groups);
    }
    assert(no_dots(short)) by {
        lemma_groups_text_no_dots(head);
        lemma_groups_text_no_dots(tail);
    }
    lemma_bracketed(short, port);
    lemma_shortened_at_one(s, groups, start, zeros);
    lemma_v6_is_read(s, p, p, ip6, 0, port);
}

proof fn lemma_shortened_at_one(s: Seq<char>, groups: Seq<int>, start: int, zeros: int)
    requires
        no_dots(s),
        groups.len() == 8,
        are_groups(groups),
        0 <= start,
        0 < zeros,
        start + zeros <= 8,
        forall|j: int| start <= j < start + zeros ==> groups[j] == 0,
        ({
            let short = addr::groups_text(groups.take(start)) + seq![':', ':'] + addr::groups_text(
                groups.skip(start + zeros),
            );
            stands_at(s, 1, short) && addr::char_at(s, 1 + short.len() as int, ']')
        }),
    ensures
        addr::ipv6_at(s, 1) == Some(
            (
                addr::joined(groups),
                1 + (addr::groups_text(groups.take(start)) + seq![':', ':'] + addr::groups_text(
                    groups.skip(start + zeros),
                )).len() as int,
            ),
        ),
{
    reveal_strlit("::");
    assert("::"@ =~= seq![':', ':']);
    lemma_shortened_is_read(s, 1, groups, start, zeros);
}

/// What stands around an address without a scope.
proof fn lemma_bracketed(address: Seq<char>, port: u16)
    requires
        no_dots(address),
    ensures
        ({
            let s = seq!['['] + address + seq![']', ':'] + text::decimal(port as nat);
            let p = 1 + address.len() as int;
            &&& no_dots(s)
            &&& addr::char_at(s, 0, '[')
            &&& stands_at(s, 1, address)
            &&& addr::char_at(s, p, ']')
            &&& addr::scope_at(s, p) == (0int, p)
            &&& addr::port_at(s, p + 1) == Some((port as int, s.len() as int))
        }),
{
    let digits = text::decimal(port as nat);
    let s = seq!['['] + address + seq![']', ':'] + digits;
    let p = 1 + address.len() as int;
    assert(s.subrange(1, p) =~= address);
    assert(s.subrange(p + 1, s.len() as int) =~= seq![':'] + digits);
    lemma_decimal_no_dots(port as nat);
    lemma_port_is_read(s, p + 1, port as nat);
}

/// Of the runs of zero groups the longest is left out, and the first of those; the run
/// is as long as it can be.
pub proof fn longest_run_is_left_out(groups: Seq<int>, j: int)
    requires
        groups.len() == 8,
        0 <= j < 8,
    ensures
        ({
            let start = addr::longest_zeros(groups, 8);
            let zeros = addr::zeros_from(groups, start);
            &&& 0 <= start < 8
            &&& zeros >= addr::zeros_from(groups, j)
            &&& j < start ==> zeros > addr::zeros_from(groups, j)
        }),
        forall|k: int|
            j <= k < j + addr::zeros_from(groups, j) ==> 0 <= k < 8 && #[trigger] groups[k] == 0,
        0 <= addr::zeros_from(groups, j) <= 8 - j,
        j + addr::zeros_from(groups, j) < 8 ==> groups[j + addr::zeros_from(groups, j)] != 0,
{
    lemma_longest_zeros(groups, 8);
    lemma_longest_of(groups, 8, j);
    lemma_zeros_from(groups, j);
    lemma_run_is_whole(groups, j);
}

proof fn lemma_longest_of(groups: Seq<int>, n: nat, j: int)
    requires
        0 <= j < n,
    ensures
        ({
            let start = addr::longest_zeros(groups, n);
            &&& addr::zeros_from(groups, start) >= addr::zeros_from(groups, j)
            &&& j < start ==> addr::zeros_from(groups, start) > addr::zeros_from(groups, j)
        }),
    decreases n,
{
    if n > 1 {
        lemma_longest_zeros(groups, (n - 1) as nat);
        if j < n - 1 {
            lemma_longest_of(groups, (n - 1) as nat, j);
        }
    }
}

proof fn lemma_run_is_whole(groups: Seq<int>, i: int)
    requires
        0 <= i <= groups.len(),
    ensures
        i + addr::zeros_from(groups, i) < groups.len() ==> groups[i + addr::zeros_from(groups, i)]
            != 0,
    decreases groups.len() - i,
{
    if i < groups.len() && groups[i] == 0 {
        lemma_run_is_whole(groups, i + 1);
    }
}

/// An IPv6 address is written with its longest run of zero groups left out, where that is
/// two groups or more, and an address mapped from IPv4 ends in that address.
pub proof fn ipv6_addresses_are_written_short(ip6: u128)
    ensures
        ({
            let groups = addr::groups_of(ip6 as nat, 8);
            let start = addr::longest_zeros(groups, 8);
            let zeros = addr::zeros_from(groups, start);
            let low = ip6 as nat % 0x1_0000_0000;
            let short = addr::ipv6_text(ip6 as nat);
            if 0xffff_0000_0000 <= ip6 <= 0xffff_ffff_ffff {
                short == seq![':', ':', 'f', 'f', 'f', 'f', ':'] + addr::ipv4_text(low)
            } else if zeros >= 2 {
                short == addr::groups_text(groups.take(start)) + seq![':', ':']
                    + addr::groups_text(groups.skip(start + zeros))
            } else {
                short == addr::groups_text(groups)
            }
        }),
{
    reveal_strlit("::");
    reveal_strlit("::ffff:");
    assert("::"@ =~= seq![':', ':']);
    assert("::ffff:"@ =~= seq![':', ':', 'f', 'f', 'f', 'f', ':']);
}

/// The multicast addresses are those from 224.0.0.0 to 239.255.255.255, and those whose
/// first eight bits are set.
pub proof fn multicast_addresses(a: u8, b: u8, c: u8, d: u8, groups: Seq<int>, port: u16)
    requires
        groups.len() == 8,
        are_groups(groups),
    ensures
        (SocketAddr::V4 {
            ip: (((a * 0x100 + b) * 0x100 + c) * 0x100 + d) as u32,
            port,
        }).spec_is_multicast() <==> 224 <= a <= 239,
        (SocketAddr::V6 {
            ip6: grouped(groups) as u128,
            scope_id: 0,
            port,
        }).spec_is_multicast() <==> groups[0] / 0x100 == 0xff,
{
    assert(0 <= grouped(groups) <= u128::MAX);
}

/// A group of four digits, in any case and with zeros in front, is worth what its digits
/// are worth.
pub proof fn groups_of_four_digits_are_read(s: Seq<char>, pos: int)
    requires
        0 <= pos,
        pos + 4 <= s.len(),
        forall|i: int| pos <= i < pos + 4 ==> addr::digit_of(#[trigger] s[i], 16) >= 0,
        pos + 4 < s.len() ==> addr::digit_of(s[pos + 4], 16) < 0,
    ensures
        addr::number_at(s, pos, 16, 4, true, 0xffff) == Some(
            (
                addr::digit_of(s[pos], 16) * 0x1000 + addr::digit_of(s[pos + 1], 16) * 0x100
                    + addr::digit_of(s[pos + 2], 16) * 0x10 + addr::digit_of(s[pos + 3], 16),
                pos + 4,
            ),
        ),
{
    lemma_run_end_unique(s, pos, 16, pos + 4);
    let d = s.subrange(pos, pos + 4);
    reveal_with_fuel(addr::run_value, 5);
    assert(d.drop_last().drop_last().drop_last().drop_last() =~= Seq::<char>::empty());
    assert(d.last() == s[pos + 3]);
    assert(d.drop_last().last() == s[pos + 2]);
    assert(d.drop_last().drop_last().last() == s[pos + 1]);
    assert(d.drop_last().drop_last().drop_last().last() == s[pos]);
}

/// The last two groups may be written as an IPv4 address.
pub proof fn last_groups_may_be_ipv4(s: Seq<char>, pos: int, ip: u32, i: nat, limit: nat)
    requires
        0 <= pos,
        i + 1 < limit,
        i > 0 ==> addr::char_at(s, pos - 1, ':') && pos > 0,
        stands_at(s, pos, addr::ipv4_text(ip as nat)),
        no_digit_at(s, pos + addr::ipv4_text(ip as nat).len(), 10),
    ensures
        addr::groups_at(s, if i > 0 {
            pos - 1
        } else {
            pos
        }, i, limit) == (
            seq![ip as int / 0x1_0000, ip as int % 0x1_0000],
            pos + addr::ipv4_text(ip as nat).len(),
            true,
        ),
{
    lemma_ipv4_is_read(s, pos, ip as nat);
}

} // verus!
