//! The rigctld side: where rigctld is, what is said to it, and what its answers
//! and failures come to.
//!
//! rigctld speaks an untagged line protocol: one command at a time, answers in
//! the order of the commands. A command is carried out as one [`Exchange`] on the
//! shared connection, so nothing interleaves with it.
//!
//! [`Exchange`]: exchange::Exchange
pub mod actor;
pub mod endpoint;
pub mod exchange;
pub mod laws;

pub use crate::rigctld::actor::{backoff_delay, DegradedKind, Health, HealthState, RigActor};
pub use crate::rigctld::endpoint::{Endpoint, EndpointParseError};
pub use crate::rigctld::exchange::{
    parse_rprt, parse_set_response, Exchange, RigCommand, RigError, RigReply, RigState, Step,
};
