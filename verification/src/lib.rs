//! Signalling core of a WebRTC media server.
//!
//! The crate drives every peer-to-peer connection between clients (members)
//! grouped into rooms through an SDP/ICE negotiation state machine, and
//! decides, for every client command and connection event, which events each
//! member must receive next.  All state lives in memory; transports (HTTP,
//! WebSocket, gRPC) are expected to be driven by a thin host around this
//! library.

pub mod callback;
pub mod endpoints;
pub mod errors;
pub mod ids;
pub mod member;
pub mod participants;
pub mod peer;
pub mod peers;
pub mod proto;
pub mod protocol;
pub mod room;
pub mod room_service;
pub mod room_spec;
pub mod server;
pub mod session;
pub mod snapshots;

use vstd::prelude::*;

verus! {

} // verus!
