//! The Wavelog side: requests, answers, retries and station profiles.
//!
//! Three endpoints:
//!
//! - `POST /api/radio`, used by the poller for live rig-state updates. The
//!   caller owns any dedupe and heartbeat policy.
//! - `POST /api/qso`. Wavelog signals success via JSON `status: "created"`; 2xx
//!   alone is not enough (duplicates and validation errors return 200 too).
//! - `GET /api/station_info/<key>`, used by the `stations` subcommand.
//!
//! The program sends the requests and decodes the answers' JSON; what is sent
//! and what an answer means is decided here.
pub mod client;
pub mod laws;
pub mod retry;
pub mod station;
pub mod url;

pub use crate::wavelog::client::{WavelogClient, WavelogError};
pub use crate::wavelog::station::{ActiveStationCache, Station, StationSource};
