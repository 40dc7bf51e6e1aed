//! What Wavelog is told, what its answers mean, and when it is asked again.
use crate::binary32;
use crate::binary32::Binary32;
use crate::rigctld::exchange::RigState;
use crate::text;
use crate::text_laws;
use crate::wavelog::client;
use crate::wavelog::client::{
    QsoPayload, QsoResponse, RadioPayload, StationInfoRow, WavelogErrorView,
};
use crate::wavelog::retry;
use crate::wavelog::station;
use crate::wavelog::station::{ActiveStationCache, Station, StationSource, StationView};
use crate::wavelog::url;
use crate::ws;
use vstd::prelude::*;

verus! {

/// Another attempt is made on a failure of the transport and on every status from
/// 500 on, and on nothing else.
pub proof fn server_failures_are_mended_by_another_attempt(
    status: u16,
    body: Seq<char>,
    why: Seq<char>,
)
    ensures
        retry::retryable(WavelogErrorView::Status { status, body }) <==> status >= 500,
        retry::retryable(WavelogErrorView::Http(why)),
        !retry::retryable(WavelogErrorView::InvalidUrl(why)),
        !retry::retryable(WavelogErrorView::Rejected { reason: why }),
        !retry::retryable(WavelogErrorView::BadResponse(why)),
        !retry::retryable(WavelogErrorView::NoActiveStation),
{
}

/// The transport failed, or Wavelog did.
pub open spec fn is_outage(result: Result<(), WavelogErrorView>) -> bool {
    match result {
        Err(WavelogErrorView::Http(_)) => true,
        Err(WavelogErrorView::Status { status, .. }) => status >= 500,
        _ => false,
    }
}

/// A request outlives an outage of one or two attempts: the first result that is no
/// outage is what it comes to. Three outages in a row end it, with the third.
pub proof fn outages_of_two_attempts_are_outlived(
    results: Seq<Result<(), WavelogErrorView>>,
    n: int,
)
    requires
        results.len() == 3,
        0 <= n <= 2,
        forall|i: int| 0 <= i < n ==> is_outage(#[trigger] results[i]),
        n < 2 ==> !is_outage(results[n]),
    ensures
        retry::outcome_from(results, 0) == Some(results[n]),
        forall|i: int| 0 <= i < n ==> !retry::is_final(i, #[trigger] results[i]),
        retry::is_final(n, results[n]),
{
    reveal_with_fuel(retry::outcome_from, 4);
    if n > 0 {
        assert(is_outage(results[0]));
    }
    if n > 1 {
        assert(is_outage(results[1]));
    }
}

/// The second attempt waits for one second, the third for four, the first for none.
pub proof fn attempts_wait_longer_and_longer()
    ensures
        retry::sleep_secs(0) == 0,
        retry::sleep_secs(1) == 1,
        retry::sleep_secs(2) == 4,
        retry::ATTEMPTS == 3,
{
}

/// Exactly the statuses from 200 to 299 are successes.
pub proof fn success_is_the_two_hundreds(status: u16)
    ensures
        client::is_success(status) <==> status / 100 == 2,
{
}

/// A QSO is logged only where Wavelog says `created`; the reason it gives for
/// anything else is handed on, else its status, else `unknown`.
pub proof fn only_created_qsos_are_logged(response: QsoResponse)
    ensures
        client::is_created(response) <==> text::text_view(response.status) == Some(
            seq!['c', 'r', 'e', 'a', 't', 'e', 'd'],
        ),
        response.reason matches Some(r) ==> client::rejection_reason(response) == r@,
        response.reason is None ==> (response.status matches Some(s)
            ==> client::rejection_reason(response) == s@),
        response.reason is None && response.status is None ==> client::rejection_reason(response)
            == "unknown"@,
{
    reveal_strlit("created");
    assert("created"@ =~= seq!['c', 'r', 'e', 'a', 't', 'e', 'd']);
}

/// The pushed body says what the snapshot says: key, radio, frequency and mode as
/// they are, and the power as that share of the maximum which is nearest among all
/// numbers.
pub proof fn pushed_body_says_the_snapshot(
    payload: RadioPayload,
    key: Seq<char>,
    radio: Seq<char>,
    state: RigState,
    power_max: Binary32,
    c: Binary32,
)
    requires
        client::is_radio_payload(payload, key, radio, state, power_max),
        state.power matches Some(p) ==> p.spec_is_finite() && 0 <= p.value() <= binary32::one(),
        power_max.spec_is_finite(),
        power_max.value() > 0,
        c.spec_is_finite(),
    ensures
        payload.key@ == key,
        payload.radio@ == radio,
        payload.frequency == state.freq,
        payload.mode@ == state.mode@,
        payload.power is Some == state.power is Some,
        state.power matches Some(p) ==> payload.power matches Some(w) && w.spec_is_finite()
            && binary32::distance(p.value() * power_max.value(), w.value() * binary32::one())
            <= binary32::distance(p.value() * power_max.value(), c.value() * binary32::one()),
{
    if let Some(p) = state.power {
        ws::watts_are_the_share_of_the_maximum(p, power_max, c);
    } else {
        ws::full_power_is_the_maximum(power_max);
    }
}

/// The submitted body holds the contact as it was logged, for the station it was
/// logged at.
pub proof fn submitted_body_holds_the_contact(
    payload: QsoPayload,
    key: Seq<char>,
    station_id: Seq<char>,
    adif: Seq<char>,
)
    requires
        client::is_qso_payload(payload, key, station_id, adif),
    ensures
        payload.key@ == key,
        payload.station_profile_id@ == station_id,
        payload.string@ == adif,
        payload.kind@ == seq!['a', 'd', 'i', 'f'],
{
    reveal_strlit("adif");
    assert("adif"@ =~= seq!['a', 'd', 'i', 'f']);
}

/// An endpoint's URL is the base URL, `/api/` and the endpoint's name; slashes at the
/// end of the base URL make no difference.
pub proof fn endpoint_follows_the_base_url(base: Seq<char>, slashes: nat, suffix: Seq<char>)
    requires
        base.len() > 0 ==> base.last() != '/',
    ensures
        client::without_slashes(base + Seq::new(slashes, |i: int| '/')) == base,
        client::endpoint_text(base + Seq::new(slashes, |i: int| '/'), suffix) == base + seq![
            '/',
            'a',
            'p',
            'i',
            '/',
        ] + suffix,
    decreases slashes,
{
    reveal_strlit("/api/");
    assert("/api/"@ =~= seq!['/', 'a', 'p', 'i', '/']);
    let all = base + Seq::new(slashes, |i: int| '/');
    if slashes == 0 {
        assert(all == base);
    } else {
        endpoint_follows_the_base_url(base, (slashes - 1) as nat, suffix);
        assert(all.drop_last() =~= base + Seq::new((slashes - 1) as nat, |i: int| '/'));
        assert(all.last() == '/');
    }
}

/// A key of more than four bytes is shown by a mask and its last four bytes, a
/// shorter one by the mask alone.
pub proof fn redacted_key_shows_its_tail(head: Seq<char>, tail: Seq<char>)
    requires
        head.len() > 0,
        vstd::utf8::encode_utf8(tail).len() == 4,
    ensures
        client::redacted_text(head + tail) == seq!['"', '*', '*', '*', '*'] + tail + seq!['"'],
        client::redacted_text(tail) == seq!['"', '*', '*', '*', '*', '"'],
        client::can_redact(head + tail),
{
    reveal_strlit("\"****\"");
    reveal_strlit("\"****");
    reveal_strlit("\"");
    assert("\"****\""@ =~= seq!['"', '*', '*', '*', '*', '"']);
    assert("\"****"@ =~= seq!['"', '*', '*', '*', '*']);
    assert("\""@ =~= seq!['"']);
    let key = head + tail;
    let (a, b) = (vstd::utf8::encode_utf8(head), vstd::utf8::encode_utf8(tail));
    text_laws::utf8_of_parts(head, tail);
    text_laws::utf8_is_no_shorter(head);
    assert((a + b).subrange((a + b).len() - 4, (a + b).len() as int) =~= b);
    vstd::utf8::encode_utf8_decode_utf8(tail);
    text_laws::parts_end_at_boundaries(head, tail);
}

/// A row is taken over as it is, and is the active one exactly where Wavelog flags
/// it `1`.
pub proof fn rows_are_taken_over(row: StationInfoRow)
    ensures
        client::station_of(row).id == row.station_id@,
        client::station_of(row).name == row.station_profile_name@,
        client::station_of(row).callsign == row.station_callsign@,
        client::station_of(row).active <==> text::text_view(row.station_active) == Some(seq!['1']),
{
    reveal_strlit("1");
    assert("1"@ =~= seq!['1']);
}

/// What is said of a station is all of it.
pub proof fn stations_are_told_apart(a: Station, b: Station)
    requires
        a@ == b@,
    ensures
        a.id@ == b.id@,
        a.name@ == b.name@,
        a.callsign@ == b.callsign@,
        a.active == b.active,
{
}

/// Among several active stations the first one counts, and there is one where any
/// station is active.
pub proof fn first_active_station_counts(stations: Seq<StationView>, i: int, j: int)
    requires
        0 <= j < stations.len(),
        stations[j].active,
    ensures
        station::is_first_active(stations, i) ==> 0 <= i <= j && stations[i].active,
        exists|k: int| #[trigger] station::is_first_active(stations, k),
        (station::is_first_active(stations, i) && station::is_first_active(stations, j)) ==> i == j,
    decreases j,
{
    if forall|k: int| 0 <= k < j ==> !(#[trigger] stations[k]).active {
        assert(station::is_first_active(stations, j));
    } else {
        let k = choose|k: int| 0 <= k < j && (#[trigger] stations[k]).active;
        first_active_station_counts(stations, i, k);
    }
}

/// A station that was fetched is used for a minute where the standard time is kept,
/// and fetched again after that.
pub proof fn active_station_is_kept_for_a_minute(
    cache: ActiveStationCache,
    id: Seq<char>,
    at: int,
    now: int,
)
    requires
        cache@ == Some((id, at)),
        cache.spec_ttl() == station::DEFAULT_ACTIVE_TTL_SECS * 1_000_000_000,
    ensures
        now < at + 60_000_000_000 ==> StationSource::Active(cache).known(now) == Some(id),
        now >= at + 60_000_000_000 ==> StationSource::Active(cache).known(now) is None,
{
}

/// A key can be appended to the URL of the stations as long as the whole stays below 4 GiB,
/// at three characters for each byte of the key.
pub proof fn keys_need_room(base: Seq<char>, key: Seq<char>)
    requires
        base.len() > 0 ==> base.last() != '/',
    ensures
        match url::url_href(base + "/api/station_info"@) {
            Some(href) => client::has_room_for_key(base, key) <==> vstd::utf8::encode_utf8(
                href,
            ).len() + 3 * vstd::utf8::encode_utf8(key).len() < 0xffff_ffff,
            None => client::has_room_for_key(base, key),
        },
{
    reveal_strlit("/api/");
    reveal_strlit("station_info");
    reveal_strlit("/api/station_info");
    assert(client::without_slashes(base) == base);
    assert(base + "/api/"@ + "station_info"@ =~= base + "/api/station_info"@);
}

/// A station that is pinned is used at any time.
pub proof fn pinned_station_is_always_used(id: String, now: int)
    ensures
        StationSource::Fixed(id).known(now) == Some(id@),
        StationSource::Fixed(id).wf(),
{
}

} // verus!
