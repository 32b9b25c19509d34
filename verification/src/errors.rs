//! Errors of the room controller and its repositories.

use vstd::prelude::*;

use crate::ids::{MemberId, PeerId};
use crate::peer::PeerStateKind;

verus! {

/// A peer was found in a state in which the requested transition is illegal.
#[derive(Debug)]
pub enum PeerStateError {
    /// `peer_id` was expected in state `expected` but is in state `actual`.
    WrongState { peer_id: PeerId, expected: PeerStateKind, actual: PeerStateKind },
    /// `peer_id` was required to have left the `New` state but has not.
    NotStarted { peer_id: PeerId },
}

/// An error inside one room; any of these is fatal to the room.
#[derive(Debug)]
pub enum RoomError {
    /// No peer with this identifier exists in the room.
    PeerNotFound(PeerId),
    /// No member with this identifier exists in the room.
    MemberNotFound(MemberId),
    /// A member with this identifier already exists in the room.
    MemberAlreadyExists(MemberId),
    /// An endpoint with this identifier already exists on the member.
    EndpointAlreadyExists(String),
    /// No endpoint with this identifier exists on the member.
    EndpointNotFound(String),
    /// The member has no live connection.
    ConnectionNotExists(MemberId),
    /// An event could not be delivered to the member.
    UnableToSendEvent(MemberId),
    /// A peer state machine violation.
    PeerStateError(PeerStateError),
    /// The room description is contradictory.
    BadRoomSpec(String),
}

} // verus!
