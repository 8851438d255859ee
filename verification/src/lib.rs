//! A verified topic-routing and dispatch engine for a broker-to-chat bridge.
//!
//! Broker-originated device events (door sensors, motion sensors, switches)
//! are matched against an ordered table of topic filters and translated into
//! chat actions; chat-originated messages are framed as JSON envelopes for
//! publication back onto the broker.  The routing, matching, payload
//! validation and envelope framing logic all live here with proved
//! contracts; network I/O stays with the embedding application.

use vstd::prelude::*;

pub mod config;
pub mod filter;
pub mod json;
pub mod handlers;
pub mod outbound;
pub mod payloads;
pub mod router;
pub mod supervisor;

verus! {

} // verus!
