//! Connection target for rigctld.
use crate::addr;
use crate::addr::SocketAddr;
use crate::addr_laws;
use crate::text;
use vstd::prelude::*;

verus! {

/// Connection target for rigctld. Accepts both pre-resolved socket addresses
/// (`127.0.0.1:4532`, `[::1]:4532`) and `host:port` strings (`rig.local:4532`);
/// the latter defers DNS resolution to connect time.
#[derive(Debug, Clone, PartialEq, Eq)]
pub enum Endpoint {
    Resolved(SocketAddr),
    Host { host: String, port: u16 },
}

/// A text that is no endpoint.
#[derive(Debug)]
pub enum EndpointParseError {
    MissingPort(String),
    InvalidPort(String),
    EmptyHost(String),
    AmbiguousIpv6 { raw: String, addr: String },
}

impl EndpointParseError {
    /// The error as shown to the operator.
    pub open spec fn text(&self) -> Seq<char> {
        match self {
            EndpointParseError::MissingPort(s) => "missing port in rigctld endpoint `"@ + s@ + "`"@,
            EndpointParseError::InvalidPort(s) => "invalid port in rigctld endpoint `"@ + s@ + "`"@,
            EndpointParseError::EmptyHost(s) => "empty host in rigctld endpoint `"@ + s@ + "`"@,
            EndpointParseError::AmbiguousIpv6 { raw, addr } =>
                "IPv6 endpoint must be bracketed: `["@ + addr@ + "]:port` (got `"@ + raw@ + "`)"@,
        }
    }

    /// Renders the error.
    pub fn message(&self) -> (shown: String)
        ensures
            shown@ == self.text(),
    {
        let mut shown = String::new();
        match self {
            EndpointParseError::MissingPort(s) => {
                shown.append("missing port in rigctld endpoint `");
                shown.append(s.as_str());
                shown.append("`");
            },
            EndpointParseError::InvalidPort(s) => {
                shown.append("invalid port in rigctld endpoint `");
                shown.append(s.as_str());
                shown.append("`");
            },
            EndpointParseError::EmptyHost(s) => {
                shown.append("empty host in rigctld endpoint `");
                shown.append(s.as_str());
                shown.append("`");
            },
            EndpointParseError::AmbiguousIpv6 { raw, addr } => {
                shown.append("IPv6 endpoint must be bracketed: `[");
                shown.append(addr.as_str());
                shown.append("]:port` (got `");
                shown.append(raw.as_str());
                shown.append("`)");
            },
        }
        assert(shown@ == self.text());
        shown
    }
}

/// The index of the last colon; -1 where there is none.
pub open spec fn last_colon(s: Seq<char>) -> int
    decreases s.len(),
{
    if s.len() == 0 {
        -1
    } else if s.last() == ':' {
        s.len() - 1
    } else {
        last_colon(s.drop_last())
    }
}

/// What stands before the last colon.
pub open spec fn host_part(s: Seq<char>) -> Seq<char> {
    s.take(last_colon(s))
}

/// What stands behind the last colon.
pub open spec fn port_part(s: Seq<char>) -> Seq<char> {
    s.skip(last_colon(s) + 1)
}

/// A text denotes an endpoint as this result says.
pub open spec fn endpoint_result(s: Seq<char>, parsed: Result<Endpoint, EndpointParseError>) -> bool {
    let resolved = addr::socket_addr(s);
    let has_colon = last_colon(s) >= 0;
    let host = host_part(s);
    let port = text::unsigned_value(port_part(s), 0xffff);
    match parsed {
        Ok(Endpoint::Resolved(a)) => resolved == Some(a),
        Ok(Endpoint::Host { host: h, port: p }) => {
            &&& resolved is None && has_colon && host.len() > 0 && !host.contains(':')
            &&& h@ == host
            &&& port == Some(p as nat)
        },
        Err(EndpointParseError::MissingPort(t)) => resolved is None && !has_colon && t@ == s,
        Err(EndpointParseError::EmptyHost(t)) => resolved is None && has_colon && host.len() == 0
            && t@ == s,
        Err(EndpointParseError::AmbiguousIpv6 { raw, addr }) => {
            &&& resolved is None && has_colon && host.contains(':')
            &&& raw@ == s
            &&& addr@ == host
        },
        Err(EndpointParseError::InvalidPort(p)) => {
            &&& resolved is None && has_colon && host.len() > 0 && !host.contains(':')
            &&& port is None
            &&& p@ == port_part(s)
        },
    }
}

proof fn lemma_last_colon(s: Seq<char>)
    ensures
        -1 <= last_colon(s) < s.len(),
        last_colon(s) >= 0 ==> s[last_colon(s)] == ':',
    decreases s.len(),
{
    if s.len() > 0 && s.last() != ':' {
        lemma_last_colon(s.drop_last());
    }
}

impl Endpoint {
    /// Parses an endpoint. A socket address is taken as it is; anything else is
    /// split at its last colon.
    pub fn parse(s: &str) -> (parsed: Result<Endpoint, EndpointParseError>)
        ensures
            endpoint_result(s@, parsed),
    {
        if let Some(a) = addr::parse_socket_addr(s) {
            return Ok(Endpoint::Resolved(a));
        }
        let chars = text::chars_of(s);
        let c = chars.as_slice();
        let mut i: usize = c.len();
        assert(c@.take(c@.len() as int) == c@);
        proof {
            lemma_last_colon(s@);
        }
        while i > 0 && c[i - 1] != ':'
            invariant
                i <= c@.len(),
                last_colon(c@) == last_colon(c@.take(i as int)),
            decreases i,
        {
            assert(c@.take(i as int).drop_last() == c@.take(i - 1));
            i -= 1;
        }
        if i == 0 {
            return Err(EndpointParseError::MissingPort(s.to_owned()));
        }
        assert(last_colon(c@) == i - 1);
        let host = vstd::slice::slice_subrange(c, 0, i - 1);
        let port = vstd::slice::slice_subrange(c, i, c.len());
        assert(host@ == host_part(s@));
        assert(port@ == port_part(s@));
        if host.len() == 0 {
            return Err(EndpointParseError::EmptyHost(s.to_owned()));
        }
        let inner: usize = text::find_char(host, ':', 0);
        proof {
            text::first_index_is_first(host@, ':', 0);
        }
        if inner < host.len() {
            assert(host@[inner as int] == ':');
            return Err(
                EndpointParseError::AmbiguousIpv6 { raw: s.to_owned(), addr: text::string_of(host) },
            );
        }
        match text::parse_unsigned(port, 0xffff) {
            Some(p) => Ok(Endpoint::Host { host: text::string_of(host), port: p as u16 }),
            None => Err(EndpointParseError::InvalidPort(text::string_of(port))),
        }
    }

    /// The endpoint as it is written.
    pub open spec fn text(&self) -> Seq<char> {
        match self {
            Endpoint::Resolved(a) => addr::socket_addr_text(*a),
            Endpoint::Host { host, port } => host@ + seq![':'] + text::decimal(*port as nat),
        }
    }

    /// Writes the endpoint.
    pub fn to_text(&self) -> (s: String)
        ensures
            s@ == self.text(),
    {
        match self {
            Endpoint::Resolved(a) => a.to_text(),
            Endpoint::Host { host, port } => {
                let mut s = String::new();
                s.append(host.as_str());
                s.push(':');
                text::push_decimal(&mut s, *port as u64);
                assert(s@ == self.text());
                s
            },
        }
    }
}

impl core::str::FromStr for Endpoint {
    type Err = EndpointParseError;

    fn from_str(s: &str) -> (parsed: Result<Endpoint, EndpointParseError>)
        ensures
            endpoint_result(s@, parsed),
    {
        Endpoint::parse(s)
    }
}

impl From<SocketAddr> for Endpoint {
    fn from(addr: SocketAddr) -> (e: Endpoint) {
        Endpoint::Resolved(addr)
    }
}

impl vstd::std_specs::convert::FromSpecImpl<SocketAddr> for Endpoint {
    open spec fn obeys_from_spec() -> bool {
        true
    }

    open spec fn from_spec(addr: SocketAddr) -> Endpoint {
        Endpoint::Resolved(addr)
    }
}

/// The text of an address endpoint denotes that address.
pub proof fn resolved_endpoint_round_trip(
    a: SocketAddr,
    parsed: Result<Endpoint, EndpointParseError>,
)
    requires
        endpoint_result(Endpoint::Resolved(a).text(), parsed),
    ensures
        parsed == Ok::<Endpoint, EndpointParseError>(Endpoint::Resolved(a)),
{
    addr_laws::notation_round_trip(a);
}

/// A `host:port` text that is no socket address denotes that host and that
/// port, and nothing else.
pub proof fn host_endpoint_round_trip(
    host: Seq<char>,
    port: u16,
    parsed: Result<Endpoint, EndpointParseError>,
)
    requires
        host.len() > 0,
        !host.contains(':'),
        addr::socket_addr(host + seq![':'] + text::decimal(port as nat)) is None,
        endpoint_result(host + seq![':'] + text::decimal(port as nat), parsed),
    ensures
        parsed matches Ok(Endpoint::Host { host: h, port: p }) && h@ == host && p == port,
{
    let digits = text::decimal(port as nat);
    let s = host + seq![':'] + digits;
    text::decimal_round_trip(port as nat);
    assert forall|i: int| host.len() < i < s.len() implies s[i] != ':' by {
        assert(text::is_digit(digits[i - host.len() - 1]));
    }
    lemma_last_colon_at(s, host.len() as int);
    assert(host_part(s) == host);
    assert(port_part(s) == digits);
}

/// The last colon is the one that none follows.
proof fn lemma_last_colon_at(s: Seq<char>, at: int)
    requires
        0 <= at < s.len(),
        s[at] == ':',
        forall|i: int| at < i < s.len() ==> s[i] != ':',
    ensures
        last_colon(s) == at,
    decreases s.len(),
{
    if at < s.len() - 1 {
        assert(s[s.len() - 1] != ':');
        lemma_last_colon_at(s.drop_last(), at);
    }
}

/// A text that is no socket address is split at its last colon. Before it stands the host,
/// which is not empty and holds no colon of its own; behind it stands the port, a number
/// below 65536. Each text that is none of this is refused for the first thing that is wrong.
pub proof fn endpoints_are_split_at_the_last_colon(
    host: Seq<char>,
    port: Seq<char>,
    parsed: Result<Endpoint, EndpointParseError>,
)
    requires
        !port.contains(':'),
        addr::socket_addr(host + seq![':'] + port) is None,
        endpoint_result(host + seq![':'] + port, parsed),
    ensures
        host.len() == 0 ==> (parsed matches Err(EndpointParseError::EmptyHost(t)) && t@ == seq![':']
            + port),
        host.len() > 0 && host.contains(':') ==> (parsed matches Err(
            EndpointParseError::AmbiguousIpv6 { raw, addr },
        ) && raw@ == host + seq![':'] + port && addr@ == host),
        host.len() > 0 && !host.contains(':') ==> match text::unsigned_value(port, 65535) {
            Some(n) => parsed matches Ok(Endpoint::Host { host: h, port: p }) && h@ == host && p
                == n,
            None => parsed matches Err(EndpointParseError::InvalidPort(t)) && t@ == port,
        },
{
    let s = host + seq![':'] + port;
    assert forall|i: int| host.len() < i < s.len() implies s[i] != ':' by {
        assert(port[i - host.len() - 1] == s[i]);
        assert(port.contains(port[i - host.len() - 1]));
    }
    lemma_last_colon_at(s, host.len() as int);
    assert(host_part(s) =~= host);
    assert(port_part(s) =~= port);
    if host.len() == 0 {
        assert(s =~= seq![':'] + port);
    }
}

/// A text without a colon lacks its port.
pub proof fn endpoints_need_a_port(s: Seq<char>, parsed: Result<Endpoint, EndpointParseError>)
    requires
        !s.contains(':'),
        endpoint_result(s, parsed),
    ensures
        addr::socket_addr(s) is None ==> (parsed matches Err(EndpointParseError::MissingPort(t))
            && t@ == s),
        addr::socket_addr(s) matches Some(a) ==> parsed == Ok::<Endpoint, EndpointParseError>(
            Endpoint::Resolved(a),
        ),
{
    lemma_last_colon(s);
    if last_colon(s) >= 0 {
        assert(s.contains(s[last_colon(s)]));
    }
}

} // verus!
