//! Messages of the client API: commands sent by members, events sent by the
//! server, heartbeats, and the media-track descriptions they carry.

use vstd::prelude::*;

use crate::ids::{MemberId, PeerId, TrackId};

verus! {

/// Direction of a media track, relative to the peer that holds it.
#[derive(Clone, Copy, Debug, PartialEq, Eq, Structural)]
pub enum Direction {
    /// The peer sends this track to its partner.
    Send,
    /// The peer receives this track from its partner.
    Recv,
}

impl Direction {
    /// The opposite direction: what the partner peer holds for this track.
    pub open spec fn spec_inverted(self) -> Direction {
        match self {
            Direction::Send => Direction::Recv,
            Direction::Recv => Direction::Send,
        }
    }

    /// Returns the opposite direction.
    #[verifier::when_used_as_spec(spec_inverted)]
    pub fn inverted(self) -> (r: Direction)
        ensures
            r == self.spec_inverted(),
    {
        match self {
            Direction::Send => Direction::Recv,
            Direction::Recv => Direction::Send,
        }
    }
}

/// Kind of media a track carries.
#[derive(Clone, Copy, Debug, PartialEq, Eq, Structural)]
pub enum MediaType {
    Audio,
    Video,
}

/// Description of one media track of a peer.
#[derive(Clone, Copy, Debug, PartialEq, Eq, Structural)]
pub struct MediaTrack {
    pub id: TrackId,
    pub direction: Direction,
    pub media_type: MediaType,
}

impl MediaTrack {
    /// The track the partner peer holds for this one: same identifier and
    /// kind, inverted direction.
    pub open spec fn spec_mirrored(self) -> MediaTrack {
        MediaTrack { id: self.id, direction: self.direction.spec_inverted(), media_type: self.media_type }
    }

    /// Returns the partner-side counterpart of this track.
    #[verifier::when_used_as_spec(spec_mirrored)]
    pub fn mirrored(self) -> (r: MediaTrack)
        ensures
            r == self.spec_mirrored(),
    {
        MediaTrack { id: self.id, direction: self.direction.inverted(), media_type: self.media_type }
    }
}

/// Opaque ICE candidate record, relayed verbatim between peers.
#[derive(Debug)]
pub struct IceCandidate {
    pub candidate: String,
    pub sdp_m_line_index: Option<u16>,
    pub sdp_mid: Option<String>,
}

/// Candidates `a` and `b` carry the same data.
pub open spec fn ice_eq(a: IceCandidate, b: IceCandidate) -> bool {
    &&& a.candidate@ == b.candidate@
    &&& a.sdp_m_line_index == b.sdp_m_line_index
    &&& (a.sdp_mid matches Some(m) ==> (b.sdp_mid matches Some(n) && m@ == n@))
    &&& (b.sdp_mid matches Some(n) ==> a.sdp_mid is Some)
}

impl Clone for IceCandidate {
    fn clone(&self) -> (r: IceCandidate)
        ensures
            ice_eq(*self, r),
    {
        IceCandidate {
            candidate: self.candidate.clone(),
            sdp_m_line_index: self.sdp_m_line_index,
            sdp_mid: match &self.sdp_mid {
                Some(m) => Some(m.clone()),
                None => None,
            },
        }
    }
}

/// Command received from a member over its connection.
#[derive(Clone, Debug)]
pub enum Command {
    MakeSdpOffer { peer_id: PeerId, sdp_offer: String },
    MakeSdpAnswer { peer_id: PeerId, sdp_answer: String },
    SetIceCandidate { peer_id: PeerId, candidate: IceCandidate },
}

impl Command {
    /// The peer the command refers to.
    pub open spec fn peer_id(self) -> PeerId {
        match self {
            Command::MakeSdpOffer { peer_id, .. } => peer_id,
            Command::MakeSdpAnswer { peer_id, .. } => peer_id,
            Command::SetIceCandidate { peer_id, .. } => peer_id,
        }
    }
}

/// Event sent by the server to one member.
#[derive(Clone, Debug)]
pub enum Event {
    PeerCreated { peer_id: PeerId, sdp_offer: Option<String>, tracks: Vec<MediaTrack> },
    SdpAnswerMade { peer_id: PeerId, sdp_answer: String },
    IceCandidateDiscovered { peer_id: PeerId, candidate: IceCandidate },
    PeersRemoved { peer_ids: Vec<PeerId> },
}

/// Message for keeping a client connection alive.
#[derive(Clone, Copy, Debug, PartialEq, Eq, Structural)]
pub enum Heartbeat {
    /// Counter a client sends periodically.
    Ping(u64),
    /// Answer of the server to a `Ping` with the same counter.
    Pong(u64),
}

/// Why the server closes a client connection.
#[derive(Clone, Copy, Debug, PartialEq, Eq, Structural)]
pub enum CloseReason {
    /// Ordinary close: the room was closed or the member became idle.
    Normal,
    /// A newer authorized connection of the same member superseded this one.
    Replaced,
}

/// How a member's connection went away, as reported to the room.
#[derive(Clone, Copy, Debug, PartialEq, Eq, Structural)]
pub enum ClosedReason {
    /// The client went away; a reconnect may still follow.
    Disconnect,
    /// No message arrived within the member's idle timeout.
    Idle,
    /// The connection is gone for good; the member's peers are torn down.
    Closed,
}

/// Why an authorization attempt failed.
#[derive(Clone, Copy, Debug, PartialEq, Eq, Structural)]
pub enum AuthorizationError {
    /// No member with the given identifier exists in the room.
    MemberNotExists,
    /// The member exists but the presented credential does not match.
    InvalidCredentials,
}

/// Reason delivered with an `on_leave` callback.
#[derive(Clone, Copy, Debug, PartialEq, Eq, Structural)]
pub enum OnLeaveReason {
    /// The member closed its connection or it was lost.
    Disconnected,
    /// The member's connection timed out without a reconnect.
    LostConnection,
    /// The server shut the room down.
    ServerShutdown,
}

/// One instruction of the room to its host: deliver an event, close a
/// connection, or fire a callback.  The host performs these in order.
#[derive(Clone, Debug)]
pub enum Action {
    /// Serialize `event` and send it over the live connection of `member_id`.
    SendEvent { member_id: MemberId, event: Event },
    /// Close the connection with the given token, with the given reason.
    CloseConnection { connection: u64, reason: CloseReason },
    /// Fire an `on_join` callback for `fid` (`<room>/<member>`).
    OnJoin { fid: String },
    /// Fire an `on_leave` callback for `fid` (`<room>/<member>`).
    OnLeave { fid: String, reason: OnLeaveReason },
}

} // verus!
