//! Station-profile resolution: either an operator-pinned ID or a cached lookup
//! of whichever profile Wavelog currently flags active.
use crate::duration::Duration;
use crate::wavelog::client::{WavelogError, WavelogErrorView};
use vstd::prelude::*;

verus! {

/// A Wavelog station-profile entry as returned by `/api/station_info`. `id` is
/// the value to pass as `station_profile_id` when submitting QSOs. `active`
/// reflects Wavelog's per-user `station_active` flag.
#[derive(Debug, Clone, PartialEq, Eq)]
pub struct Station {
    pub id: String,
    pub name: String,
    pub callsign: String,
    pub active: bool,
}

/// What an entry says.
#[verifier::ext_equal]
pub struct StationView {
    pub id: Seq<char>,
    pub name: Seq<char>,
    pub callsign: Seq<char>,
    pub active: bool,
}

impl View for Station {
    type V = StationView;

    open spec fn view(&self) -> StationView {
        StationView {
            id: self.id@,
            name: self.name@,
            callsign: self.callsign@,
            active: self.active,
        }
    }
}

/// What a list of entries says.
pub open spec fn station_views(stations: Seq<Station>) -> Seq<StationView> {
    stations.map_values(|s: Station| s@)
}

/// How long an active station is remembered, in seconds: an operator who flips
/// the active station in the Wavelog UI sees the daemon route QSOs to the new
/// one within that time, without a restart.
pub const DEFAULT_ACTIVE_TTL_SECS: u64 = 60;

/// The first active station is the one at `i`.
pub open spec fn is_first_active(stations: Seq<StationView>, i: int) -> bool {
    &&& 0 <= i < stations.len()
    &&& stations[i].active
    &&& forall|j: int| 0 <= j < i ==> !(#[trigger] stations[j]).active
}

/// Picks the active station's ID.
pub fn find_active_station(stations: &[Station]) -> (found: Result<String, WavelogError>)
    ensures
        match found {
            Ok(id) => exists|i: int| #[trigger]
                is_first_active(station_views(stations@), i) && id@ == stations@[i].id@,
            Err(e) => {
                &&& e@ == WavelogErrorView::NoActiveStation
                &&& forall|j: int| 0 <= j < stations@.len() ==> !(#[trigger] stations@[j]).active
            },
        },
{
    let mut i: usize = 0;
    while i < stations.len()
        invariant
            i <= stations@.len(),
            forall|j: int| 0 <= j < i ==> !(#[trigger] stations@[j]).active,
        decreases stations@.len() - i,
    {
        if stations[i].active {
            assert(is_first_active(station_views(stations@), i as int));
            return Ok(stations[i].id.clone());
        }
        i += 1;
    }
    Err(WavelogError::NoActiveStation)
}

/// Remembers the active station for a while.
pub struct ActiveStationCache {
    cached: Option<(String, Duration)>,
    ttl: Duration,
}

impl View for ActiveStationCache {
    /// The remembered ID and when it was fetched, in nanoseconds.
    type V = Option<(Seq<char>, int)>;

    closed spec fn view(&self) -> Option<(Seq<char>, int)> {
        match self.cached {
            Some((id, at)) => Some((id@, at.total())),
            None => None,
        }
    }
}

impl ActiveStationCache {
    pub closed spec fn wf(&self) -> bool {
        &&& self.ttl.wf()
        &&& self.cached matches Some((_, at)) ==> at.wf()
    }

    /// How long an ID is remembered, in nanoseconds.
    pub closed spec fn spec_ttl(&self) -> int {
        self.ttl.total()
    }

    /// What the cache knows at `now`.
    pub open spec fn fresh(&self, now: int) -> Option<Seq<char>> {
        match self@ {
            Some((id, at)) => if now - at < self.spec_ttl() && self.spec_ttl() > 0 {
                Some(id)
            } else {
                None
            },
            None => None,
        }
    }

    pub fn new(ttl: Duration) -> (cache: ActiveStationCache)
        requires
            ttl.wf(),
        ensures
            cache.wf(),
            cache@ is None,
            cache.spec_ttl() == ttl.total(),
    {
        ActiveStationCache { cached: None, ttl }
    }

    /// The remembered ID, fresh or not.
    pub fn remembered(&self) -> (id: Option<&str>)
        ensures
            match id {
                Some(s) => self@ matches Some((r, _)) && r == s@,
                None => self@ is None,
            },
    {
        match &self.cached {
            Some(entry) => Some(entry.0.as_str()),
            None => None,
        }
    }

    /// The remembered ID, where it is fresh; else it has to be fetched.
    pub fn lookup(&self, now: Duration) -> (id: Option<String>)
        requires
            self.wf(),
            now.wf(),
        ensures
            match id {
                Some(s) => self.fresh(now.total()) == Some(s@),
                None => self.fresh(now.total()) is None,
            },
    {
        match &self.cached {
            Some(entry) => if now.since(&entry.1).is_shorter_than(&self.ttl) {
                Some(entry.0.clone())
            } else {
                None
            },
            None => None,
        }
    }

    /// Takes what was fetched at `now`. An ID is remembered; an error leaves
    /// what was remembered as it was.
    pub fn on_fetched(
        &mut self,
        fetched: Result<Vec<Station>, WavelogError>,
        now: Duration,
    ) -> (resolved: Result<String, WavelogError>)
        requires
            old(self).wf(),
            now.wf(),
        ensures
            final(self).wf(),
            final(self).spec_ttl() == old(self).spec_ttl(),
            match fetched {
                Err(e) => resolved == Err::<String, WavelogError>(e),
                Ok(stations) => match resolved {
                    Ok(id) => exists|i: int| #[trigger]
                        is_first_active(station_views(stations@), i) && id@ == stations@[i].id@,
                    Err(e) => {
                        &&& e@ == WavelogErrorView::NoActiveStation
                        &&& forall|j: int|
                            0 <= j < stations@.len() ==> !(#[trigger] stations@[j]).active
                    },
                },
            },
            match resolved {
                Ok(id) => final(self)@ == Some((id@, now.total())),
                Err(_) => final(self)@ == old(self)@,
            },
    {
        let stations = match fetched {
            Ok(stations) => stations,
            Err(e) => {
                return Err(e);
            },
        };
        match find_active_station(stations.as_slice()) {
            Ok(id) => {
                self.cached = Some((id.clone(), now));
                Ok(id)
            },
            Err(e) => Err(e),
        }
    }
}

/// Source of the `station_profile_id` for outbound QSO POSTs.
pub enum StationSource {
    /// A pre-configured ID: no network traffic.
    Fixed(String),
    /// The station that Wavelog flags active, looked up on first use and
    /// remembered.
    Active(ActiveStationCache),
}

impl StationSource {
    pub open spec fn wf(&self) -> bool {
        self matches StationSource::Active(cache) ==> cache.wf()
    }

    /// What the source knows at `now` without asking Wavelog.
    pub open spec fn known(&self, now: int) -> Option<Seq<char>> {
        match self {
            StationSource::Fixed(id) => Some(id@),
            StationSource::Active(cache) => cache.fresh(now),
        }
    }

    /// A source that looks the active station up, remembering it for the
    /// standard time.
    pub fn active() -> (source: StationSource)
        ensures
            source.wf(),
            source matches StationSource::Active(cache) && cache@ is None && cache.spec_ttl()
                == DEFAULT_ACTIVE_TTL_SECS * 1_000_000_000 && cache.spec_ttl() == 60_000_000_000,
    {
        StationSource::Active(
            ActiveStationCache::new(Duration::from_secs(DEFAULT_ACTIVE_TTL_SECS)),
        )
    }

    /// Resolves to a station ID without asking Wavelog, where that can be done.
    pub fn resolve(&self, now: Duration) -> (id: Option<String>)
        requires
            self.wf(),
            now.wf(),
        ensures
            match id {
                Some(s) => self.known(now.total()) == Some(s@),
                None => self.known(now.total()) is None,
            },
    {
        match self {
            StationSource::Fixed(id) => Some(id.clone()),
            StationSource::Active(cache) => cache.lookup(now),
        }
    }

    /// Takes what Wavelog said at `now` where a lookup was needed.
    pub fn on_fetched(
        &mut self,
        fetched: Result<Vec<Station>, WavelogError>,
        now: Duration,
    ) -> (resolved: Result<String, WavelogError>)
        requires
            old(self).wf(),
            now.wf(),
        ensures
            final(self).wf(),
            match *old(self) {
                StationSource::Fixed(id) => resolved matches Ok(s) && s@ == id@ && *final(self)
                    == *old(self),
                StationSource::Active(before) => {
                    &&& *final(self) matches StationSource::Active(after)
                    &&& after.spec_ttl() == before.spec_ttl()
                    &&& match fetched {
                        Err(e) => resolved == Err::<String, WavelogError>(e),
                        Ok(stations) => match resolved {
                            Ok(id) => exists|i: int| #[trigger]
                                is_first_active(station_views(stations@), i) && id@
                                    == stations@[i].id@,
                            Err(e) => {
                                &&& e@ == WavelogErrorView::NoActiveStation
                                &&& forall|j: int|
                                    0 <= j < stations@.len() ==> !(#[trigger] stations@[j]).active
                            },
                        },
                    }
                    &&& after@ == match resolved {
                        Ok(id) => Some((id@, now.total())),
                        Err(_) => before@,
                    }
                },
            },
    {
        match self {
            StationSource::Fixed(id) => Ok(id.clone()),
            StationSource::Active(cache) => cache.on_fetched(fetched, now),
        }
    }
}

/// A pinned station is known at any time: Wavelog is never asked for it.
pub proof fn pinned_station_needs_no_lookup(id: String, now: int)
    ensures
        StationSource::Fixed(id).known(now) == Some(id@),
{
}

/// A station that was fetched at `at` is served from memory until its time is
/// over, and fetched again after that.
pub proof fn cache_serves_until_ttl(cache: ActiveStationCache, id: Seq<char>, at: int, now: int)
    requires
        cache@ == Some((id, at)),
        cache.spec_ttl() > 0,
    ensures
        cache.fresh(now) == (if now < at + cache.spec_ttl() {
            Some(id)
        } else {
            None
        }),
{
}

} // verus!
