//! Requests to Wavelog and what their answers mean.
use crate::binary32::Binary32;
use crate::rigctld::exchange::RigState;
use crate::text;
use crate::wavelog::station;
use crate::wavelog::station::Station;
use crate::wavelog::url;
use crate::ws;
use vstd::prelude::*;

verus! {

/// How long a request may take, in seconds.
pub const DEFAULT_REQUEST_TIMEOUT_SECS: u64 = 5;

/// Why a request failed.
#[derive(Debug)]
pub enum WavelogError {
    InvalidUrl(String),
    Http(String),
    Status { status: u16, body: String },
    /// 2xx with JSON `status` other than `"created"`. Not retryable: transport
    /// succeeded; only the logical operation failed.
    Rejected { reason: String },
    BadResponse(String),
    /// No station profile is flagged active in Wavelog.
    NoActiveStation,
}

/// What an error says.
#[verifier::ext_equal]
pub enum WavelogErrorView {
    InvalidUrl(Seq<char>),
    Http(Seq<char>),
    Status { status: u16, body: Seq<char> },
    Rejected { reason: Seq<char> },
    BadResponse(Seq<char>),
    NoActiveStation,
}

impl View for WavelogError {
    type V = WavelogErrorView;

    open spec fn view(&self) -> WavelogErrorView {
        match self {
            WavelogError::InvalidUrl(u) => WavelogErrorView::InvalidUrl(u@),
            WavelogError::Http(why) => WavelogErrorView::Http(why@),
            WavelogError::Status { status, body } => WavelogErrorView::Status {
                status: *status,
                body: body@,
            },
            WavelogError::Rejected { reason } => WavelogErrorView::Rejected { reason: reason@ },
            WavelogError::BadResponse(why) => WavelogErrorView::BadResponse(why@),
            WavelogError::NoActiveStation => WavelogErrorView::NoActiveStation,
        }
    }
}

impl WavelogError {
    /// The error as shown to the operator.
    pub open spec fn text(&self) -> Seq<char> {
        match self {
            WavelogError::InvalidUrl(u) => "invalid wavelog URL `"@ + u@ + "`"@,
            WavelogError::Http(why) => "HTTP request failed: "@ + why@,
            WavelogError::Status { status, body } => "wavelog returned HTTP "@ + text::decimal(
                *status as nat,
            ) + ": "@ + body@,
            WavelogError::Rejected { reason } => "wavelog rejected the submission: "@ + reason@,
            WavelogError::BadResponse(why) => "wavelog response could not be parsed: "@ + why@,
            WavelogError::NoActiveStation => "no active station profile in wavelog"@,
        }
    }

    /// Renders the error.
    pub fn message(&self) -> (shown: String)
        ensures
            shown@ == self.text(),
    {
        let mut shown = String::new();
        match self {
            WavelogError::InvalidUrl(u) => {
                shown.append("invalid wavelog URL `");
                shown.append(u.as_str());
                shown.append("`");
            },
            WavelogError::Http(why) => {
                shown.append("HTTP request failed: ");
                shown.append(why.as_str());
            },
            WavelogError::Status { status, body } => {
                shown.append("wavelog returned HTTP ");
                text::push_decimal(&mut shown, *status as u64);
                shown.append(": ");
                shown.append(body.as_str());
            },
            WavelogError::Rejected { reason } => {
                shown.append("wavelog rejected the submission: ");
                shown.append(reason.as_str());
            },
            WavelogError::BadResponse(why) => {
                shown.append("wavelog response could not be parsed: ");
                shown.append(why.as_str());
            },
            WavelogError::NoActiveStation => {
                shown.append("no active station profile in wavelog");
            },
        }
        assert(shown@ == self.text());
        shown
    }
}

/// A URL without the slashes at its end.
pub open spec fn without_slashes(s: Seq<char>) -> Seq<char>
    decreases s.len(),
{
    if s.len() > 0 && s.last() == '/' {
        without_slashes(s.drop_last())
    } else {
        s
    }
}

/// Removes the slashes at the end.
fn trim_slashes(s: &str) -> (trimmed: String)
    ensures
        trimmed@ == without_slashes(s@),
{
    let chars = text::chars_of(s);
    let c = chars.as_slice();
    let mut i: usize = c.len();
    assert(c@.take(c@.len() as int) == c@);
    while i > 0 && c[i - 1] == '/'
        invariant
            i <= c@.len(),
            without_slashes(c@) == without_slashes(c@.take(i as int)),
        decreases i,
    {
        assert(c@.take(i as int).drop_last() == c@.take(i - 1));
        i -= 1;
    }
    assert(c@.subrange(0, i as int) == c@.take(i as int));
    text::string_of(vstd::slice::slice_subrange(c, 0, i))
}

/// Removing slashes twice removes no more.
proof fn lemma_without_slashes_idempotent(s: Seq<char>)
    ensures
        without_slashes(without_slashes(s)) == without_slashes(s),
    decreases s.len(),
{
    if s.len() > 0 && s.last() == '/' {
        lemma_without_slashes_idempotent(s.drop_last());
    }
}

/// The text of an endpoint's URL.
pub open spec fn endpoint_text(base_url: Seq<char>, suffix: Seq<char>) -> Seq<char> {
    without_slashes(base_url) + "/api/"@ + suffix
}

/// Slashes at the end of the base URL do not bear on an endpoint's URL.
pub proof fn trailing_slashes_do_not_matter(base_url: Seq<char>, suffix: Seq<char>)
    ensures
        endpoint_text(base_url.push('/'), suffix) == endpoint_text(base_url, suffix),
        endpoint_text(without_slashes(base_url), suffix) == endpoint_text(base_url, suffix),
{
    assert(base_url.push('/').drop_last() == base_url);
    lemma_without_slashes_idempotent(base_url);
}

fn write_endpoint(base_url: &str, suffix: &str) -> (s: String)
    ensures
        s@ == endpoint_text(base_url@, suffix@),
{
    let mut s = trim_slashes(base_url);
    s.append("/api/");
    s.append(suffix);
    assert(s@ == endpoint_text(base_url@, suffix@));
    s
}

/// Decides on what was read from the text of an endpoint's URL: a URL, or none.
pub fn accept_url(base_url: &str, parsed: Option<String>) -> (accepted: Result<
    String,
    WavelogError,
>)
    ensures
        match parsed {
            Some(href) => accepted == Ok::<String, WavelogError>(href),
            None => accepted matches Err(e) && e@ == WavelogErrorView::InvalidUrl(base_url@),
        },
{
    match parsed {
        Some(href) => Ok(href),
        None => Err(WavelogError::InvalidUrl(base_url.to_owned())),
    }
}

/// The URL of an endpoint.
pub fn build_url(base_url: &str, suffix: &str) -> (built: Result<String, WavelogError>)
    ensures
        match built {
            Ok(href) => url::url_href(endpoint_text(base_url@, suffix@)) == Some(href@),
            Err(e) => url::url_href(endpoint_text(base_url@, suffix@)) is None && e@
                == WavelogErrorView::InvalidUrl(base_url@),
        },
{
    accept_url(base_url, url::parse_url(write_endpoint(base_url, suffix).as_str()))
}

/// The URL of the station profiles has room for a key.
pub open spec fn has_room_for_key(base_url: Seq<char>, key: Seq<char>) -> bool {
    url::has_room(url::url_href(endpoint_text(base_url, "station_info"@)), key)
}

/// The URL of the station profiles that belong to a key.
pub fn build_station_info_url(base_url: &str, key: &str) -> (built: Result<String, WavelogError>)
    requires
        has_room_for_key(base_url@, key@),
    ensures
        match built {
            Ok(href) => url::url_with_segment(
                endpoint_text(base_url@, "station_info"@),
                key@,
            ) == Some(href@),
            Err(e) => url::url_with_segment(
                endpoint_text(base_url@, "station_info"@),
                key@,
            ) is None && e@ == WavelogErrorView::InvalidUrl(base_url@),
        },
{
    accept_url(
        base_url,
        url::push_segment(write_endpoint(base_url, "station_info").as_str(), key),
    )
}

/// The URL of the station profiles that belong to a key; `None` where it would
/// be longer than a URL can be.
pub fn try_build_station_info_url(base_url: &str, key: &str) -> (built: Option<
    Result<String, WavelogError>,
>)
    ensures
        built is Some <==> has_room_for_key(base_url@, key@),
        built matches Some(Ok(href)) ==> url::url_with_segment(
            endpoint_text(base_url@, "station_info"@),
            key@,
        ) == Some(href@),
        built matches Some(Err(e)) ==> url::url_with_segment(
            endpoint_text(base_url@, "station_info"@),
            key@,
        ) is None && e@ == WavelogErrorView::InvalidUrl(base_url@),
{
    let href = url::parse_url(write_endpoint(base_url, "station_info").as_str());
    if url::leaves_room(&href, key) {
        Some(build_station_info_url(base_url, key))
    } else {
        None
    }
}

/// The body of `POST /api/radio`. `power` (in watts) is left out when there is
/// none, so that rigs without RFPOWER readback do not log fake wattage.
pub struct RadioPayload {
    pub key: String,
    pub radio: String,
    pub frequency: u64,
    pub mode: String,
    pub power: Option<Binary32>,
}

/// The body of `POST /api/qso`.
pub struct QsoPayload {
    pub key: String,
    pub station_profile_id: String,
    /// The `type` of the submission: always `adif`.
    pub kind: &'static str,
    pub string: String,
}

/// A body says this of a rig state.
pub open spec fn is_radio_payload(
    payload: RadioPayload,
    key: Seq<char>,
    radio: Seq<char>,
    state: RigState,
    power_max: Binary32,
) -> bool {
    &&& payload.key@ == key
    &&& payload.radio@ == radio
    &&& payload.frequency == state.freq
    &&& payload.mode@ == state.mode@
    &&& payload.power == ws::watts(state.power, power_max)
}

/// A body submits this QSO for a station.
pub open spec fn is_qso_payload(
    payload: QsoPayload,
    key: Seq<char>,
    station_id: Seq<char>,
    adif: Seq<char>,
) -> bool {
    &&& payload.key@ == key
    &&& payload.station_profile_id@ == station_id
    &&& payload.kind@ == "adif"@
    &&& payload.string@ == adif
}

/// What Wavelog answers to a submitted QSO.
pub struct QsoResponse {
    pub status: Option<String>,
    pub reason: Option<String>,
}

/// What Wavelog answers for a station profile.
pub struct StationInfoRow {
    pub station_id: String,
    pub station_profile_name: String,
    pub station_callsign: String,
    pub station_active: Option<String>,
}

/// A Wavelog account: base URL without a trailing slash, and API key.
pub struct WavelogClient {
    base_url: String,
    key: String,
}

impl WavelogClient {
    /// The base URL, without a trailing slash.
    pub closed spec fn spec_base_url(&self) -> Seq<char> {
        self.base_url@
    }

    /// The API key.
    pub closed spec fn spec_key(&self) -> Seq<char> {
        self.key@
    }

    /// Takes a base URL and a key. Trailing slashes are trimmed. The shape of
    /// the URL is checked now, so that the daemon fails at startup rather than
    /// per request.
    pub fn new(base_url: &str, key: &str) -> (made: Result<WavelogClient, WavelogError>)
        ensures
            made is Ok <==> url::url_href(endpoint_text(base_url@, "radio"@)) is Some,
            made matches Ok(client) ==> client.spec_base_url() == without_slashes(base_url@)
                && client.spec_key() == key@ && url::url_href(
                endpoint_text(client.spec_base_url(), "radio"@),
            ) is Some,
            made matches Err(e) ==> e@ == WavelogErrorView::InvalidUrl(without_slashes(base_url@)),
    {
        let trimmed = trim_slashes(base_url);
        proof {
            lemma_without_slashes_idempotent(base_url@);
        }
        match build_url(trimmed.as_str(), "radio") {
            Ok(_) => Ok(WavelogClient { base_url: trimmed, key: key.to_owned() }),
            Err(e) => Err(e),
        }
    }

    /// The body that pushes a rig state.
    pub fn radio_payload(&self, radio: &str, state: &RigState, power_max: Binary32) -> (payload:
        RadioPayload)
        ensures
            is_radio_payload(payload, self.spec_key(), radio@, *state, power_max),
            payload.key@ == self.spec_key(),
            payload.radio@ == radio@,
            payload.frequency == state.freq,
            payload.mode@ == state.mode@,
    {
        RadioPayload {
            key: self.key.clone(),
            radio: radio.to_owned(),
            frequency: state.freq,
            mode: state.mode.clone(),
            power: ws::to_watts(state.power, power_max),
        }
    }

    /// The body that submits a logged QSO.
    pub fn qso_payload(&self, station_id: &str, adif: &str) -> (payload: QsoPayload)
        ensures
            is_qso_payload(payload, self.spec_key(), station_id@, adif@),
            payload.key@ == self.spec_key(),
            payload.station_profile_id@ == station_id@,
            payload.string@ == adif@,
    {
        QsoPayload {
            key: self.key.clone(),
            station_profile_id: station_id.to_owned(),
            kind: "adif",
            string: adif.to_owned(),
        }
    }

    /// The request that pushes a rig state: its URL and its body.
    pub fn push_radio(&self, radio: &str, state: &RigState, power_max: Binary32) -> (request:
        Result<(String, RadioPayload), WavelogError>)
        ensures
            match request {
                Ok((href, payload)) => {
                    &&& url::url_href(endpoint_text(self.spec_base_url(), "radio"@)) == Some(href@)
                    &&& is_radio_payload(payload, self.spec_key(), radio@, *state, power_max)
                },
                Err(e) => {
                    &&& url::url_href(endpoint_text(self.spec_base_url(), "radio"@)) is None
                    &&& e@ == WavelogErrorView::InvalidUrl(self.spec_base_url())
                },
            },
    {
        match build_url(self.base_url.as_str(), "radio") {
            Ok(href) => Ok((href, self.radio_payload(radio, state, power_max))),
            Err(e) => Err(e),
        }
    }

    /// The request that submits a logged QSO: its URL and its body.
    pub fn push_qso(&self, station_id: &str, adif: &str) -> (request: Result<
        (String, QsoPayload),
        WavelogError,
    >)
        ensures
            match request {
                Ok((href, payload)) => {
                    &&& url::url_href(endpoint_text(self.spec_base_url(), "qso"@)) == Some(href@)
                    &&& is_qso_payload(payload, self.spec_key(), station_id@, adif@)
                },
                Err(e) => {
                    &&& url::url_href(endpoint_text(self.spec_base_url(), "qso"@)) is None
                    &&& e@ == WavelogErrorView::InvalidUrl(self.spec_base_url())
                },
            },
    {
        match build_url(self.base_url.as_str(), "qso") {
            Ok(href) => Ok((href, self.qso_payload(station_id, adif))),
            Err(e) => Err(e),
        }
    }

    /// The request for the station profiles: its URL.
    pub fn list_stations(&self) -> (request: Result<String, WavelogError>)
        requires
            has_room_for_key(self.spec_base_url(), self.spec_key()),
        ensures
            match request {
                Ok(href) => url::url_with_segment(
                    endpoint_text(self.spec_base_url(), "station_info"@),
                    self.spec_key(),
                ) == Some(href@),
                Err(e) => url::url_with_segment(
                    endpoint_text(self.spec_base_url(), "station_info"@),
                    self.spec_key(),
                ) is None && e@ == WavelogErrorView::InvalidUrl(self.spec_base_url()),
            },
    {
        build_station_info_url(self.base_url.as_str(), self.key.as_str())
    }

    /// The request for the station profiles: its URL; `None` where it would be
    /// longer than a URL can be.
    pub fn try_list_stations(&self) -> (request: Option<Result<String, WavelogError>>)
        ensures
            request is Some <==> has_room_for_key(self.spec_base_url(), self.spec_key()),
            request matches Some(Ok(href)) ==> url::url_with_segment(
                endpoint_text(self.spec_base_url(), "station_info"@),
                self.spec_key(),
            ) == Some(href@),
            request matches Some(Err(e)) ==> url::url_with_segment(
                endpoint_text(self.spec_base_url(), "station_info"@),
                self.spec_key(),
            ) is None && e@ == WavelogErrorView::InvalidUrl(self.spec_base_url()),
    {
        let href = url::parse_url(
            write_endpoint(self.base_url.as_str(), "station_info").as_str(),
        );
        if url::leaves_room(&href, self.key.as_str()) {
            Some(self.list_stations())
        } else {
            None
        }
    }

    /// The base URL.
    pub fn base_url(&self) -> (s: &str)
        ensures
            s@ == self.spec_base_url(),
    {
        self.base_url.as_str()
    }

    /// The key as debug output shows it; `None` where its last four bytes do
    /// not begin with a character.
    pub fn redacted_key(&self) -> (shown: Option<String>)
        ensures
            shown is Some <==> can_redact(self.spec_key()),
            shown matches Some(s) ==> s@ == redacted_text(self.spec_key()),
    {
        let key = self.key.as_str();
        let len: usize = key.as_bytes().len();
        if len <= 4 || key.is_char_boundary(len - 4) {
            Some(redacted(key))
        } else {
            None
        }
    }
}

/// The last four bytes of a key begin with a character, or it has no more.
pub open spec fn can_redact(key: Seq<char>) -> bool {
    let b = vstd::utf8::encode_utf8(key);
    b.len() <= 4 || vstd::utf8::is_char_boundary(b, b.len() - 4)
}

/// A key in debug output: its last four bytes behind a mask, or the mask alone
/// where the key has no more than four bytes.
pub open spec fn redacted_text(key: Seq<char>) -> Seq<char> {
    let b = vstd::utf8::encode_utf8(key);
    if b.len() <= 4 {
        "\"****\""@
    } else {
        "\"****"@ + vstd::utf8::decode_utf8(b.subrange(b.len() - 4, b.len() as int)) + "\""@
    }
}

/// Debug output gives away no more of a key than its last four bytes, and
/// nothing of a key that has no more.
pub proof fn redaction_hides_all_but_the_tail(a: Seq<char>, b: Seq<char>)
    requires
        ({
            let x = vstd::utf8::encode_utf8(a);
            let y = vstd::utf8::encode_utf8(b);
            ||| x.len() <= 4 && y.len() <= 4
            ||| x.len() > 4 && y.len() > 4 && x.skip(x.len() - 4) == y.skip(y.len() - 4)
        }),
    ensures
        redacted_text(a) == redacted_text(b),
{
    let x = vstd::utf8::encode_utf8(a);
    let y = vstd::utf8::encode_utf8(b);
    if x.len() > 4 {
        assert(x.subrange(x.len() - 4, x.len() as int) == x.skip(x.len() - 4));
        assert(y.subrange(y.len() - 4, y.len() as int) == y.skip(y.len() - 4));
    }
}

/// Masks a key for debug output.
pub fn redacted(key: &str) -> (shown: String)
    requires
        can_redact(key@),
    ensures
        shown@ == redacted_text(key@),
{
    let len: usize = key.as_bytes().len();
    if len <= 4 {
        return "\"****\"".to_owned();
    }
    let tail = key.split_at(len - 4).1;
    proof {
        vstd::utf8::encode_utf8_decode_utf8(tail@);
    }
    let mut shown = String::new();
    shown.append("\"****");
    shown.append(tail);
    shown.append("\"");
    assert(shown@ == redacted_text(key@));
    shown
}

/// A success status.
pub open spec fn is_success(status: u16) -> bool {
    200 <= status < 300
}

/// What the answer to a pushed rig state means.
pub fn radio_response(status: u16, body: String) -> (outcome: Result<(), WavelogError>)
    ensures
        outcome is Ok <==> is_success(status),
        outcome matches Err(e) ==> e == (WavelogError::Status { status, body }),
{
    if 200 <= status && status < 300 {
        Ok(())
    } else {
        Err(WavelogError::Status { status, body })
    }
}

/// The reason of a rejection: the stated one, else the status, else `unknown`.
pub open spec fn rejection_reason(response: QsoResponse) -> Seq<char> {
    match (response.reason, response.status) {
        (Some(reason), _) => reason@,
        (None, Some(status)) => status@,
        (None, None) => "unknown"@,
    }
}

/// Wavelog created the QSO.
pub open spec fn is_created(response: QsoResponse) -> bool {
    response.status matches Some(s) && s@ == "created"@
}

/// What the answer to a submitted QSO means, where `parsed` is the body's JSON
/// or why it is none. Success takes both a 2xx status and the JSON status
/// `created`.
pub fn qso_response(status: u16, body: String, parsed: Result<QsoResponse, String>) -> (outcome:
    Result<(), WavelogError>)
    ensures
        outcome is Ok <==> is_success(status) && (parsed matches Ok(r) && is_created(r)),
        outcome matches Err(e) ==> e@ == (if !is_success(status) {
            WavelogErrorView::Status { status, body: body@ }
        } else {
            match parsed {
                Ok(r) => WavelogErrorView::Rejected { reason: rejection_reason(r) },
                Err(why) => WavelogErrorView::BadResponse(why@ + ": "@ + body@),
            }
        }),
{
    if !(200 <= status && status < 300) {
        return Err(WavelogError::Status { status, body });
    }
    match parsed {
        Err(why) => Err(WavelogError::BadResponse(unparsed(why.as_str(), body.as_str()))),
        Ok(response) => {
            let created = match &response.status {
                Some(s) => text::same_text(s.as_str(), "created"),
                None => false,
            };
            if created {
                return Ok(());
            }
            let reason = match (response.reason, response.status) {
                (Some(reason), _) => reason,
                (None, Some(status)) => status,
                (None, None) => "unknown".to_owned(),
            };
            Err(WavelogError::Rejected { reason })
        },
    }
}

fn unparsed(why: &str, body: &str) -> (s: String)
    ensures
        s@ == why@ + ": "@ + body@,
{
    let mut s = why.to_owned();
    s.append(": ");
    s.append(body);
    s
}

/// The station that a row describes. It is active where Wavelog flags it `1`.
pub open spec fn station_of(row: StationInfoRow) -> station::StationView {
    station::StationView {
        id: row.station_id@,
        name: row.station_profile_name@,
        callsign: row.station_callsign@,
        active: row.station_active matches Some(flag) && flag@ == "1"@,
    }
}

/// Takes a row over.
fn to_station(row: StationInfoRow) -> (s: Station)
    ensures
        s@ == station_of(row),
{
    let active = match &row.station_active {
        Some(flag) => text::same_text(flag.as_str(), "1"),
        None => false,
    };
    Station {
        id: row.station_id,
        name: row.station_profile_name,
        callsign: row.station_callsign,
        active,
    }
}

/// What the answer to the request for station profiles means, where `parsed` is
/// the body's JSON or why it is none.
pub fn stations_response(
    status: u16,
    body: String,
    parsed: Result<Vec<StationInfoRow>, String>,
) -> (outcome: Result<Vec<Station>, WavelogError>)
    ensures
        outcome is Ok <==> is_success(status) && parsed is Ok,
        outcome matches Ok(stations) ==> station::station_views(stations@)
            == parsed->Ok_0@.map_values(|r: StationInfoRow| station_of(r)),
        outcome matches Err(e) ==> e@ == (if !is_success(status) {
            WavelogErrorView::Status { status, body: body@ }
        } else {
            WavelogErrorView::BadResponse(parsed->Err_0@ + ": "@ + body@)
        }),
{
    if !(200 <= status && status < 300) {
        return Err(WavelogError::Status { status, body });
    }
    match parsed {
        Err(why) => Err(WavelogError::BadResponse(unparsed(why.as_str(), body.as_str()))),
        Ok(rows) => {
            let ghost all = rows@;
            let mut rest = rows;
            let mut stations: Vec<Station> = Vec::new();
            while rest.len() > 0
                invariant
                    all == rows@,
                    rest@ == all.skip(all.len() - rest@.len()),
                    rest@.len() <= all.len(),
                    stations@.len() == all.len() - rest@.len(),
                    forall|i: int| 0 <= i < stations@.len() ==> (#[trigger] stations@[i])@
                        == station_of(all[i]),
                decreases rest@.len(),
            {
                assert(rest@[0] == all[all.len() - rest@.len()]);
                let row = rest.remove(0);
                stations.push(to_station(row));
            }
            assert(station::station_views(stations@) =~= all.map_values(
                |r: StationInfoRow| station_of(r),
            ));
            Ok(stations)
        },
    }
}

/// Of a key of four bytes or fewer nothing is shown but the mask.
pub proof fn short_keys_are_masked(key: Seq<char>)
    requires
        vstd::utf8::encode_utf8(key).len() <= 4,
    ensures
        redacted_text(key) == seq!['"', '*', '*', '*', '*', '"'],
        can_redact(key),
{
    reveal_strlit("\"****\"");
    assert("\"****\""@ =~= seq!['"', '*', '*', '*', '*', '"']);
}

} // verus!
