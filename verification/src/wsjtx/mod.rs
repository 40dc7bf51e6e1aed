//! WSJT-X UDP listener.
//!
//! WSJT-X (and its forks JTDX/MSHV) emit a binary message protocol over UDP,
//! parsed by [`protocol`]. Exactly one message matters: Logged ADIF (type 12).
//! It carries the complete ADIF record of a completed QSO and is what goes to
//! Wavelog's `/api/qso`. WSJT-X also emits `QSO Logged` (type 5) immediately
//! before it; that one is discarded to avoid double-logging, as are all other
//! types.
//!
//! A UDP listener receives and parses, and hands the ADIF text through a bounded
//! queue to a POST worker, so that a slow Wavelog POST cannot stall UDP receive.
pub mod adif;
pub mod bind;
pub mod laws;
pub mod listener;
pub mod protocol;
pub mod worker;

pub use crate::wsjtx::protocol::WsjtxError;
