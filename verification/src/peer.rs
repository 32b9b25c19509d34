//! Typed state machine of one side of a peer-to-peer media session.
//!
//! A peer moves along the graph
//! `New -> WaitLocalSdp -> WaitRemoteSdp -> Stable` (offerer side) or
//! `New -> WaitLocalHaveRemote -> Stable` (answerer side); illegal
//! transitions are unrepresentable, because each transition is a method on
//! the peer typed with its current state.

use vstd::prelude::*;

use crate::ids::{MemberId, PeerId, TrackId};
use crate::protocol::{Direction, IceCandidate, MediaTrack};

verus! {

/// Data shared by a peer in every state.
#[derive(Debug)]
pub struct PeerContext {
    /// Identifier of this peer.
    pub id: PeerId,
    /// Member this peer belongs to.
    pub member_id: MemberId,
    /// Identifier of the partner peer on the other side of the session.
    pub partner_peer: PeerId,
    /// Member the partner peer belongs to.
    pub partner_member: MemberId,
    /// Media tracks of this peer; fixed at creation.
    pub tracks: Vec<MediaTrack>,
    /// Last SDP offer seen by this peer (its own for the offerer, the
    /// partner's for the answerer).
    pub sdp_offer: Option<String>,
    /// Last SDP answer seen by this peer.
    pub sdp_answer: Option<String>,
    /// ICE candidates relayed to this peer's member, in arrival order.
    pub ice_candidates: Vec<IceCandidate>,
}

/// Marker state: the peer was just created; no negotiation happened.
#[derive(Debug)]
pub struct New;

/// Marker state: the peer was asked for an SDP offer and has not produced it
/// yet.
#[derive(Debug)]
pub struct WaitLocalSdp;

/// Marker state: the peer sent its SDP offer and waits for the partner's
/// answer.
#[derive(Debug)]
pub struct WaitRemoteSdp;

/// Marker state: the peer received the partner's SDP offer and has not
/// answered yet.
#[derive(Debug)]
pub struct WaitLocalHaveRemote;

/// Marker state: SDP negotiation finished on this side.
#[derive(Debug)]
pub struct Stable;

/// One side of a media session, typed by its negotiation state `S`.
#[derive(Debug)]
pub struct Peer<S> {
    pub context: PeerContext,
    pub state: S,
}

/// The negotiation state of a peer, as a plain value.
#[derive(Clone, Copy, Debug, PartialEq, Eq, Structural)]
pub enum PeerStateKind {
    New,
    WaitLocalSdp,
    WaitRemoteSdp,
    WaitLocalHaveRemote,
    Stable,
}

/// A peer in any state: the form peers are stored in.
#[derive(Debug)]
pub enum PeerStateMachine {
    New(Peer<New>),
    WaitLocalSdp(Peer<WaitLocalSdp>),
    WaitRemoteSdp(Peer<WaitRemoteSdp>),
    WaitLocalHaveRemote(Peer<WaitLocalHaveRemote>),
    Stable(Peer<Stable>),
}

/// Whether a peer with context `c` sends any media to its partner.
pub open spec fn ctx_sends(c: PeerContext) -> bool {
    exists|i: int| 0 <= i < c.tracks@.len() && (#[trigger] c.tracks@[i]).direction == Direction::Send
}

impl<S> Peer<S> {
    /// Whether this peer sends any media to its partner.
    pub open spec fn spec_is_sender(self) -> bool {
        ctx_sends(self.context)
    }

    /// Returns `true` iff this peer has at least one outbound track.
    pub fn is_sender(&self) -> (r: bool)
        ensures
            r == self.spec_is_sender(),
    {
        let mut i: usize = 0;
        while i < self.context.tracks.len()
            invariant
                0 <= i <= self.context.tracks@.len(),
                forall|j: int| 0 <= j < i ==> self.context.tracks@[j].direction != Direction::Send,
            decreases self.context.tracks@.len() - i,
        {
            if self.context.tracks[i].direction == Direction::Send {
                assert(self.spec_is_sender());
                return true;
            }
            i = i + 1;
        }
        false
    }

    /// Identifier of this peer.
    pub fn id(&self) -> (r: PeerId)
        ensures
            r == self.context.id,
    {
        self.context.id
    }

    /// Member this peer belongs to.
    pub fn member_id(&self) -> (r: MemberId)
        ensures
            r@ == self.context.member_id@,
    {
        self.context.member_id.clone()
    }

    /// Identifier of the partner peer.
    pub fn partner_peer_id(&self) -> (r: PeerId)
        ensures
            r == self.context.partner_peer,
    {
        self.context.partner_peer
    }

    /// Member the partner peer belongs to.
    pub fn partner_member_id(&self) -> (r: MemberId)
        ensures
            r@ == self.context.partner_member@,
    {
        self.context.partner_member.clone()
    }

    /// Copy of this peer's track list.
    pub fn tracks(&self) -> (r: Vec<MediaTrack>)
        ensures
            r@ == self.context.tracks@,
    {
        let mut out: Vec<MediaTrack> = Vec::new();
        let mut i: usize = 0;
        while i < self.context.tracks.len()
            invariant
                0 <= i <= self.context.tracks@.len(),
                out@ == self.context.tracks@.subrange(0, i as int),
            decreases self.context.tracks@.len() - i,
        {
            out.push(self.context.tracks[i]);
            assert(out@ =~= self.context.tracks@.subrange(0, i + 1));
            i = i + 1;
        }
        assert(out@ =~= self.context.tracks@);
        out
    }
}

impl Peer<New> {
    /// Creates a peer in the `New` state with the given identity and tracks
    /// and no SDP or ICE data.
    pub fn new(
        id: PeerId,
        member_id: MemberId,
        partner_peer: PeerId,
        partner_member: MemberId,
        tracks: Vec<MediaTrack>,
    ) -> (r: Peer<New>)
        ensures
            r.context.id == id,
            r.context.member_id@ == member_id@,
            r.context.partner_peer == partner_peer,
            r.context.partner_member@ == partner_member@,
            r.context.tracks@ == tracks@,
            r.context.sdp_offer is None,
            r.context.sdp_answer is None,
            r.context.ice_candidates@.len() == 0,
    {
        Peer {
            context: PeerContext {
                id,
                member_id,
                partner_peer,
                partner_member,
                tracks,
                sdp_offer: None,
                sdp_answer: None,
                ice_candidates: Vec::new(),
            },
            state: New,
        }
    }

    /// The offerer transition: the server asks this peer for an SDP offer.
    pub fn start(self) -> (r: Peer<WaitLocalSdp>)
        ensures
            r.context == self.context,
    {
        Peer { context: self.context, state: WaitLocalSdp }
    }

    /// The answerer transition: the partner's SDP offer arrives.
    pub fn set_remote_sdp(self, sdp_offer: String) -> (r: Peer<WaitLocalHaveRemote>)
        ensures
            r.context == (PeerContext { sdp_offer: Some(sdp_offer), ..self.context }),
    {
        Peer {
            context: PeerContext { sdp_offer: Some(sdp_offer), ..self.context },
            state: WaitLocalHaveRemote,
        }
    }
}

impl Peer<WaitLocalSdp> {
    /// Records the SDP offer this peer produced; it now waits for the
    /// partner's answer.
    pub fn set_local_sdp(self, sdp_offer: String) -> (r: Peer<WaitRemoteSdp>)
        ensures
            r.context == (PeerContext { sdp_offer: Some(sdp_offer), ..self.context }),
    {
        Peer {
            context: PeerContext { sdp_offer: Some(sdp_offer), ..self.context },
            state: WaitRemoteSdp,
        }
    }
}

impl Peer<WaitRemoteSdp> {
    /// Records the partner's SDP answer; negotiation on this side is done.
    pub fn set_remote_sdp(self, sdp_answer: String) -> (r: Peer<Stable>)
        ensures
            r.context == (PeerContext { sdp_answer: Some(sdp_answer), ..self.context }),
    {
        Peer {
            context: PeerContext { sdp_answer: Some(sdp_answer), ..self.context },
            state: Stable,
        }
    }
}

impl Peer<WaitLocalHaveRemote> {
    /// Records the SDP answer this peer produced; negotiation on this side
    /// is done.
    pub fn set_local_sdp(self, sdp_answer: String) -> (r: Peer<Stable>)
        ensures
            r.context == (PeerContext { sdp_answer: Some(sdp_answer), ..self.context }),
    {
        Peer {
            context: PeerContext { sdp_answer: Some(sdp_answer), ..self.context },
            state: Stable,
        }
    }
}

impl PeerStateMachine {
    /// The context of the peer, whatever its state.
    pub open spec fn context(self) -> PeerContext {
        match self {
            PeerStateMachine::New(p) => p.context,
            PeerStateMachine::WaitLocalSdp(p) => p.context,
            PeerStateMachine::WaitRemoteSdp(p) => p.context,
            PeerStateMachine::WaitLocalHaveRemote(p) => p.context,
            PeerStateMachine::Stable(p) => p.context,
        }
    }

    /// The state of the peer, as a plain value.
    pub open spec fn spec_kind(self) -> PeerStateKind {
        match self {
            PeerStateMachine::New(_) => PeerStateKind::New,
            PeerStateMachine::WaitLocalSdp(_) => PeerStateKind::WaitLocalSdp,
            PeerStateMachine::WaitRemoteSdp(_) => PeerStateKind::WaitRemoteSdp,
            PeerStateMachine::WaitLocalHaveRemote(_) => PeerStateKind::WaitLocalHaveRemote,
            PeerStateMachine::Stable(_) => PeerStateKind::Stable,
        }
    }

    /// Returns the state of the peer as a plain value.
    pub fn kind(&self) -> (r: PeerStateKind)
        ensures
            r == self.spec_kind(),
    {
        match self {
            PeerStateMachine::New(_) => PeerStateKind::New,
            PeerStateMachine::WaitLocalSdp(_) => PeerStateKind::WaitLocalSdp,
            PeerStateMachine::WaitRemoteSdp(_) => PeerStateKind::WaitRemoteSdp,
            PeerStateMachine::WaitLocalHaveRemote(_) => PeerStateKind::WaitLocalHaveRemote,
            PeerStateMachine::Stable(_) => PeerStateKind::Stable,
        }
    }

    /// Identifier of the peer.
    pub fn id(&self) -> (r: PeerId)
        ensures
            r == self.context().id,
    {
        match self {
            PeerStateMachine::New(p) => p.id(),
            PeerStateMachine::WaitLocalSdp(p) => p.id(),
            PeerStateMachine::WaitRemoteSdp(p) => p.id(),
            PeerStateMachine::WaitLocalHaveRemote(p) => p.id(),
            PeerStateMachine::Stable(p) => p.id(),
        }
    }

    /// Member the peer belongs to.
    pub fn member_id(&self) -> (r: MemberId)
        ensures
            r@ == self.context().member_id@,
    {
        match self {
            PeerStateMachine::New(p) => p.member_id(),
            PeerStateMachine::WaitLocalSdp(p) => p.member_id(),
            PeerStateMachine::WaitRemoteSdp(p) => p.member_id(),
            PeerStateMachine::WaitLocalHaveRemote(p) => p.member_id(),
            PeerStateMachine::Stable(p) => p.member_id(),
        }
    }

    /// Identifier of the partner peer.
    pub fn partner_peer_id(&self) -> (r: PeerId)
        ensures
            r == self.context().partner_peer,
    {
        match self {
            PeerStateMachine::New(p) => p.partner_peer_id(),
            PeerStateMachine::WaitLocalSdp(p) => p.partner_peer_id(),
            PeerStateMachine::WaitRemoteSdp(p) => p.partner_peer_id(),
            PeerStateMachine::WaitLocalHaveRemote(p) => p.partner_peer_id(),
            PeerStateMachine::Stable(p) => p.partner_peer_id(),
        }
    }

    /// Member the partner peer belongs to.
    pub fn partner_member_id(&self) -> (r: MemberId)
        ensures
            r@ == self.context().partner_member@,
    {
        match self {
            PeerStateMachine::New(p) => p.partner_member_id(),
            PeerStateMachine::WaitLocalSdp(p) => p.partner_member_id(),
            PeerStateMachine::WaitRemoteSdp(p) => p.partner_member_id(),
            PeerStateMachine::WaitLocalHaveRemote(p) => p.partner_member_id(),
            PeerStateMachine::Stable(p) => p.partner_member_id(),
        }
    }

    /// Returns `true` iff this peer has at least one outbound track.
    pub fn is_sender(&self) -> (r: bool)
        ensures
            r == ctx_sends(self.context()),
    {
        match self {
            PeerStateMachine::New(p) => p.is_sender(),
            PeerStateMachine::WaitLocalSdp(p) => p.is_sender(),
            PeerStateMachine::WaitRemoteSdp(p) => p.is_sender(),
            PeerStateMachine::WaitLocalHaveRemote(p) => p.is_sender(),
            PeerStateMachine::Stable(p) => p.is_sender(),
        }
    }

    /// Buffers an ICE candidate on this peer, legal in any state but `New`.
    pub fn add_ice_candidate(&mut self, candidate: IceCandidate)
        requires
            old(self).spec_kind() != PeerStateKind::New,
        ensures
            final(self).spec_kind() == old(self).spec_kind(),
            final(self).context() == (PeerContext {
                ice_candidates: final(self).context().ice_candidates,
                ..old(self).context()
            }),
            final(self).context().ice_candidates@ == old(self).context().ice_candidates@.push(candidate),
    {
        match self {
            PeerStateMachine::New(_) => {
                proof {
                    assert(false);
                }
            }
            PeerStateMachine::WaitLocalSdp(p) => p.context.ice_candidates.push(candidate),
            PeerStateMachine::WaitRemoteSdp(p) => p.context.ice_candidates.push(candidate),
            PeerStateMachine::WaitLocalHaveRemote(p) => p.context.ice_candidates.push(candidate),
            PeerStateMachine::Stable(p) => p.context.ice_candidates.push(candidate),
        }
    }
}

/// Every track of a peer mirrors a track of its partner: same identifier and
/// media type, inverted direction, matched position for position.
#[verifier::opaque]
pub open spec fn tracks_mirrored(a: Seq<MediaTrack>, b: Seq<MediaTrack>) -> bool {
    &&& a.len() == b.len()
    &&& forall|i: int| 0 <= i < a.len() ==> b[i] == #[trigger] a[i].spec_mirrored()
}

/// Mirroring tracks is an involution: the mirror of the mirror is the
/// original, so `tracks_mirrored` holds symmetrically.
pub proof fn lemma_tracks_mirrored_symmetric(a: Seq<MediaTrack>, b: Seq<MediaTrack>)
    requires
        tracks_mirrored(a, b),
    ensures
        tracks_mirrored(b, a),
{
    reveal(tracks_mirrored);
    assert forall|i: int| 0 <= i < b.len() implies a[i] == #[trigger] b[i].spec_mirrored() by {
        assert(b[i] == a[i].spec_mirrored());
    }
}

} // verus!
