//! Relay between rigctld, WSJT-X and Wavelog: the verified core.
//!
//! The modules hold what the relay decides and computes. Sockets, files, HTTP
//! and clocks are driven by the program around it, which hands in plain values
//! and carries out the actions that come back.

pub mod addr;
pub mod addr_laws;
pub mod binary32;
pub mod config;
pub mod config_laws;
pub mod daemon;
pub mod duration;
pub mod listener;
pub mod messages;
pub mod modes;
pub mod opening;
pub mod path;
pub mod poller;
pub mod qso_queue;
pub mod queue_laws;
pub mod rewriting;
pub mod rigctld;
pub mod stations;
pub mod text;
pub mod text_laws;
pub mod util;
pub mod views;
pub mod wavelog;
pub mod ws;
pub mod wsjtx;
