//! The room controller: the single writer over one room's peers and
//! participants.  Every client command, connection event and control-plane
//! mutation is a method here; each returns the actions the host must
//! perform (events to deliver, connections to close, callbacks to fire).

use vstd::prelude::*;

use crate::errors::{PeerStateError, RoomError};
use crate::ids::{MemberId, PeerId, RoomId};
use crate::peer::{tracks_mirrored, PeerContext, PeerStateKind, PeerStateMachine};
use crate::peers::{has_peer_id, ids_unique, member_of, partner_member_of, PeerRepository};
use crate::participants::{
    has_member_id, member_index, no_connections, Member, ParticipantService,
    RpcConnection,
};
use crate::room_spec::{member_spec_of, RoomElement, RoomSpec};
use crate::protocol::{
    Action, ClosedReason, CloseReason, Command, Direction, Event, IceCandidate, MediaTrack, MediaType, OnLeaveReason,
};

verus! {

/// Signal to start signalling between two freshly created peers.
#[derive(Clone, Copy, Debug, PartialEq, Eq, Structural)]
pub struct ConnectPeers(pub PeerId, pub PeerId);

/// Signal that the listed peers of a member were removed.
#[derive(Debug)]
pub struct PeersRemoved {
    pub peers_id: Vec<PeerId>,
    pub member_id: MemberId,
}

/// Signal to close a room: drop every connection and every peer.
#[derive(Clone, Copy, Debug, PartialEq, Eq, Structural)]
pub struct CloseRoom {}

/// Contexts `a` and `b` describe two halves of one session: each names the
/// other's identifier and member, and their tracks mirror each other.
pub open spec fn partner_ctx_ok(a: PeerContext, b: PeerContext) -> bool {
    &&& b.id == a.partner_peer
    &&& b.partner_peer == a.id
    &&& b.member_id@ == a.partner_member@
    &&& b.partner_member@ == a.member_id@
    &&& tracks_mirrored(a.tracks@, b.tracks@)
}

/// Some peer in `s` is the partner half of context `c`.
#[verifier::opaque]
pub open spec fn ctx_linked(s: Seq<PeerStateMachine>, c: PeerContext) -> bool {
    exists|j: int| 0 <= j < s.len() && partner_ctx_ok(c, (#[trigger] s[j]).context())
}

/// Every peer in `s` has its partner in `s`.
#[verifier::opaque]
pub open spec fn paired(s: Seq<PeerStateMachine>) -> bool {
    forall|i: int| 0 <= i < s.len() ==> ctx_linked(s, (#[trigger] s[i]).context())
}

/// No peer is partnered with its own member.
#[verifier::opaque]
pub open spec fn distinct_sides(s: Seq<PeerStateMachine>) -> bool {
    forall|i: int| 0 <= i < s.len() ==> member_of(#[trigger] s[i]) != partner_member_of(s[i])
}

/// Contexts `a` and `b` agree on everything the pairing relation reads:
/// identifiers, members and tracks.  Negotiation state is free to differ.
pub open spec fn ctx_same_core(a: PeerContext, b: PeerContext) -> bool {
    &&& a.id == b.id
    &&& a.partner_peer == b.partner_peer
    &&& a.member_id@ == b.member_id@
    &&& a.partner_member@ == b.partner_member@
    &&& a.tracks@ == b.tracks@
}

/// Peer `id`'s machine in `s`: meaningful when exactly one peer in `s`
/// carries `id`.
pub open spec fn peer_in(s: Seq<PeerStateMachine>, id: PeerId) -> PeerStateMachine {
    s[choose|i: int| 0 <= i < s.len() && (#[trigger] s[i]).context().id == id]
}

/// The peer lists `s1` and `s2` agree on every peer but the two named ones.
pub open spec fn same_peers_except2(
    s1: Seq<PeerStateMachine>,
    s2: Seq<PeerStateMachine>,
    a: PeerId,
    b: PeerId,
) -> bool {
    &&& s1.len() == s2.len()
    &&& forall|x: PeerStateMachine|
        #[trigger] s1.contains(x) && x.context().id != a && x.context().id != b ==> s2.contains(x)
    &&& forall|x: PeerStateMachine|
        #[trigger] s2.contains(x) && x.context().id != a && x.context().id != b ==> s1.contains(x)
}

/// Two values with one identifier in a unique-identifier list are the same
/// value.
pub proof fn lemma_unique_id_value(s: Seq<PeerStateMachine>, x: PeerStateMachine, y: PeerStateMachine)
    requires
        ids_unique(s),
        s.contains(x),
        s.contains(y),
        x.context().id == y.context().id,
    ensures
        x == y,
{
    let i = choose|i: int| 0 <= i < s.len() && s[i] == x;
    let j = choose|j: int| 0 <= j < s.len() && s[j] == y;
    if i != j {
        crate::peers::lemma_ids_unique_distinct(s, i, j);
    }
}

/// When `s` holds `x` under identifier `id`, `peer_in(s, id)` is `x`.
pub proof fn lemma_peer_in(s: Seq<PeerStateMachine>, x: PeerStateMachine, id: PeerId)
    requires
        ids_unique(s),
        s.contains(x),
        x.context().id == id,
    ensures
        has_peer_id(s, id),
        peer_in(s, id) == x,
{
    let i = choose|i: int| 0 <= i < s.len() && s[i] == x;
    assert(0 <= i < s.len() && s[i].context().id == id);
    let w = choose|w: int| 0 <= w < s.len() && (#[trigger] s[w]).context().id == id;
    lemma_unique_id_value(s, s[w], x);
}

/// Removing an element keeps the remaining elements; every element of the
/// result comes from the original.
pub proof fn lemma_remove_contains(s: Seq<PeerStateMachine>, i: int)
    requires
        0 <= i < s.len(),
    ensures
        forall|x: PeerStateMachine| #[trigger] s.remove(i).contains(x) ==> s.contains(x),
        forall|x: PeerStateMachine| s.contains(x) && x != s[i] ==> #[trigger] s.remove(i).contains(x),
{
    s.remove_ensures(i);
    assert forall|x: PeerStateMachine| #[trigger] s.remove(i).contains(x) implies s.contains(x) by {
        let j = choose|j: int| 0 <= j < s.remove(i).len() && s.remove(i)[j] == x;
        if j < i {
            assert(s[j] == x);
        } else {
            assert(s[j + 1] == x);
        }
    }
    assert forall|x: PeerStateMachine| s.contains(x) && x != s[i] implies #[trigger] s.remove(i).contains(x) by {
        let j = choose|j: int| 0 <= j < s.len() && s[j] == x;
        if j < i {
            assert(s.remove(i)[j] == x);
        } else {
            assert(j != i);
            assert(s.remove(i)[j - 1] == x);
        }
    }
}

/// Pushing an element keeps every element and adds the new one.
pub proof fn lemma_push_contains(s: Seq<PeerStateMachine>, e: PeerStateMachine)
    ensures
        forall|x: PeerStateMachine| #[trigger] s.push(e).contains(x) ==> s.contains(x) || x == e,
        forall|x: PeerStateMachine| s.contains(x) ==> #[trigger] s.push(e).contains(x),
        s.push(e).contains(e),
{
    assert forall|x: PeerStateMachine| #[trigger] s.push(e).contains(x) implies s.contains(x) || x == e by {
        let j = choose|j: int| 0 <= j < s.push(e).len() && s.push(e)[j] == x;
        if j < s.len() {
            assert(s[j] == x);
        }
    }
    assert forall|x: PeerStateMachine| s.contains(x) implies #[trigger] s.push(e).contains(x) by {
        let j = choose|j: int| 0 <= j < s.len() && s[j] == x;
        assert(s.push(e)[j] == x);
    }
    assert(s.push(e)[s.len() as int] == e);
}

/// `partner_ctx_ok` reads only core fields, so it transfers to contexts
/// with the same cores.
pub proof fn lemma_partner_transfer(a: PeerContext, b: PeerContext, a2: PeerContext, b2: PeerContext)
    requires
        partner_ctx_ok(a, b),
        ctx_same_core(a, a2),
        ctx_same_core(b, b2),
    ensures
        partner_ctx_ok(a2, b2),
{
    assert(tracks_mirrored(a2.tracks@, b2.tracks@) == tracks_mirrored(a.tracks@, b.tracks@));
}

/// In a paired list with unique identifiers, the partner of the peer at
/// `i` is the unique peer carrying its `partner_peer` identifier.
pub proof fn lemma_partner_value(s: Seq<PeerStateMachine>, x: PeerStateMachine, y: PeerStateMachine)
    requires
        paired(s),
        ids_unique(s),
        s.contains(x),
        s.contains(y),
        y.context().id == x.context().partner_peer,
    ensures
        partner_ctx_ok(x.context(), y.context()),
{
    reveal(paired);
    reveal(ctx_linked);
    let i = choose|i: int| 0 <= i < s.len() && s[i] == x;
    assert(ctx_linked(s, s[i].context()));
    let k = choose|k: int| 0 <= k < s.len() && partner_ctx_ok(x.context(), (#[trigger] s[k]).context());
    lemma_unique_id_value(s, s[k], y);
}

/// A peer picked from a member's own peer list belongs to that member and
/// is not its own partner.
pub proof fn lemma_scan_pick_ok(s: Seq<PeerStateMachine>, ids: Seq<PeerId>, m: Seq<char>, k: int)
    requires
        ids_unique(s),
        paired(s),
        distinct_sides(s),
        crate::peers::ids_sound(s, ids, m),
        0 <= k < ids.len(),
        has_peer_id(s, ids[k]),
    ensures
        member_of(peer_in(s, ids[k])) == m,
        peer_in(s, ids[k]).context().partner_peer != ids[k],
{
    let i = choose|i: int|
        0 <= i < s.len() && (#[trigger] s[i]).context().id == #[trigger] ids[k] && member_of(s[i]) == m;
    lemma_peer_in(s, s[i], ids[k]);
    let x = peer_in(s, ids[k]);
    if x.context().partner_peer == ids[k] {
        lemma_partner_value(s, x, x);
        reveal(distinct_sides);
        let w = choose|w: int| 0 <= w < s.len() && s[w] == x;
        assert(member_of(s[w]) != partner_member_of(s[w]));
    }
}

/// After taking two mutually partnered peers out and adding one
/// replacement for each, with cores unchanged, the pairing invariant and
/// the rest of the peers are intact.  `ya`/`yb` replace the peers taken at
/// `old_s[i1]` and `old_s.remove(i1)[i2]`.
#[verifier::rlimit(100)]
pub proof fn lemma_swap_pair(old_s: Seq<PeerStateMachine>, i1: int, i2: int, ya: PeerStateMachine, yb: PeerStateMachine)
    requires
        paired(old_s),
        distinct_sides(old_s),
        ids_unique(old_s),
        0 <= i1 < old_s.len(),
        0 <= i2 < old_s.remove(i1).len(),
        ctx_same_core(ya.context(), old_s[i1].context()),
        ctx_same_core(yb.context(), old_s.remove(i1)[i2].context()),
        old_s[i1].context().partner_peer == old_s.remove(i1)[i2].context().id,
        old_s.remove(i1)[i2].context().partner_peer == old_s[i1].context().id,
        old_s[i1].context().id != old_s.remove(i1)[i2].context().id,
    ensures
        ({
            let new_s = old_s.remove(i1).remove(i2).push(ya).push(yb);
            &&& paired(new_s)
            &&& distinct_sides(new_s)
            &&& new_s.len() == old_s.len()
            &&& new_s.contains(ya) && new_s.contains(yb)
            &&& same_peers_except2(old_s, new_s, old_s[i1].context().id, old_s.remove(i1)[i2].context().id)
        }),
{
    let xa = old_s[i1];
    let mid1 = old_s.remove(i1);
    let xb = mid1[i2];
    let mid2 = mid1.remove(i2);
    let new_s = mid2.push(ya).push(yb);
    let a = xa.context().id;
    let b = xb.context().id;
    lemma_remove_contains(old_s, i1);
    lemma_remove_contains(mid1, i2);
    lemma_push_contains(mid2, ya);
    lemma_push_contains(mid2.push(ya), yb);
    assert(old_s.contains(xa));
    assert(mid1.contains(xb));
    assert(old_s.contains(xb));
    assert(new_s.contains(ya) && new_s.contains(yb));

    lemma_partner_value(old_s, xa, xb);
    lemma_partner_value(old_s, xb, xa);
    lemma_partner_transfer(xa.context(), xb.context(), ya.context(), yb.context());
    lemma_partner_transfer(xb.context(), xa.context(), yb.context(), ya.context());

    // Every removed-then-kept peer still finds its partner: that partner
    // cannot have been one of the replaced pair.
    assert forall|j: int| 0 <= j < new_s.len() implies ctx_linked(new_s, (#[trigger] new_s[j]).context()) by {
        reveal(ctx_linked);
        let x = new_s[j];
        assert(new_s.contains(x));
        if x == ya {
            let l = choose|l: int| 0 <= l < new_s.len() && new_s[l] == yb;
            assert(partner_ctx_ok(ya.context(), (new_s[l]).context()));
        } else if x == yb {
            let l = choose|l: int| 0 <= l < new_s.len() && new_s[l] == ya;
            assert(partner_ctx_ok(yb.context(), (new_s[l]).context()));
        } else {
            assert(mid2.contains(x));
            assert(old_s.contains(x));
            reveal(paired);
            let i = choose|i: int| 0 <= i < old_s.len() && old_s[i] == x;
            assert(ctx_linked(old_s, old_s[i].context()));
            let k = choose|k: int| 0 <= k < old_s.len() && partner_ctx_ok(x.context(), (#[trigger] old_s[k]).context());
            let y = old_s[k];
            if y.context().id == a {
                lemma_unique_id_value(old_s, y, xa);
                assert(x.context().id == xa.context().partner_peer);
                lemma_unique_id_value(old_s, x, xb);
                assert(false);
            }
            if y.context().id == b {
                lemma_unique_id_value(old_s, y, xb);
                assert(x.context().id == xb.context().partner_peer);
                lemma_unique_id_value(old_s, x, xa);
                assert(false);
            }
            assert(y != xa && y != xb);
            assert(mid1.contains(y));
            assert(mid2.contains(y));
            assert(new_s.contains(y));
            let l = choose|l: int| 0 <= l < new_s.len() && new_s[l] == y;
            assert(partner_ctx_ok(x.context(), new_s[l].context()));
        }
    }
    assert(paired(new_s)) by {
        reveal(paired);
    }
    assert forall|j: int| 0 <= j < new_s.len() implies member_of(#[trigger] new_s[j]) != partner_member_of(
        new_s[j],
    ) by {
        reveal(distinct_sides);
        let x = new_s[j];
        assert(new_s.contains(x));
        if x == ya {
            let i = choose|i: int| 0 <= i < old_s.len() && old_s[i] == xa;
            assert(member_of(old_s[i]) != partner_member_of(old_s[i]));
        } else if x == yb {
            let i = choose|i: int| 0 <= i < old_s.len() && old_s[i] == xb;
            assert(member_of(old_s[i]) != partner_member_of(old_s[i]));
        } else {
            assert(mid2.contains(x));
            assert(old_s.contains(x));
            let i = choose|i: int| 0 <= i < old_s.len() && old_s[i] == x;
            assert(member_of(old_s[i]) != partner_member_of(old_s[i]));
        }
    }
    assert(distinct_sides(new_s)) by {
        reveal(distinct_sides);
    }

    assert forall|x: PeerStateMachine|
        #[trigger] old_s.contains(x) && x.context().id != a && x.context().id != b implies new_s.contains(x) by {
        assert(x != xa && x != xb);
        assert(mid1.contains(x));
        assert(mid2.contains(x));
    }
    assert forall|x: PeerStateMachine|
        #[trigger] new_s.contains(x) && x.context().id != a && x.context().id != b implies old_s.contains(x) by {
        assert(ya.context().id == a && yb.context().id == b);
        assert(x != ya && x != yb);
        assert(mid2.contains(x));
        assert(mid1.contains(x));
    }
}

/// `c_new` is `c_old` with the SDP offer set to `offer` and everything
/// else unchanged.
pub open spec fn ctx_with_offer(c_old: PeerContext, c_new: PeerContext, offer: Seq<char>) -> bool {
    &&& ctx_same_core(c_new, c_old)
    &&& c_new.sdp_offer matches Some(o) && o@ == offer
    &&& c_new.sdp_answer == c_old.sdp_answer
    &&& c_new.ice_candidates@ == c_old.ice_candidates@
}

/// `c_new` is `c_old` with the SDP answer set to `answer` and everything
/// else unchanged.
pub open spec fn ctx_with_answer(c_old: PeerContext, c_new: PeerContext, answer: Seq<char>) -> bool {
    &&& ctx_same_core(c_new, c_old)
    &&& c_new.sdp_answer matches Some(o) && o@ == answer
    &&& c_new.sdp_offer == c_old.sdp_offer
    &&& c_new.ice_candidates@ == c_old.ice_candidates@
}

/// Entry `e` of `plays` is a play endpoint sourced at member `src_member`
/// of room `room` whose named publish endpoint `src_pipeline` declares.
pub open spec fn resolved_play_at(
    plays: Seq<(crate::ids::EndpointId, crate::member::MemberElement)>,
    e: int,
    src_member: Seq<char>,
    src_pipeline: Seq<(crate::ids::EndpointId, crate::member::MemberElement)>,
    room: Seq<char>,
) -> bool {
    plays[e].1 matches crate::member::MemberElement::WebRtcPlayEndpoint { spec } && spec.src@.member == src_member
        && spec.src@.room == room && crate::room_spec::publish_key_in(src_pipeline, spec.src@.endpoint)
}

/// How many play endpoints of `plays` are sourced at member `src_member`
/// of room `room` and resolved by `src_pipeline`.
pub open spec fn resolved_plays_count(
    plays: Seq<(crate::ids::EndpointId, crate::member::MemberElement)>,
    src_member: Seq<char>,
    src_pipeline: Seq<(crate::ids::EndpointId, crate::member::MemberElement)>,
    room: Seq<char>,
) -> int
    decreases plays.len(),
{
    if plays.len() == 0 {
        0
    } else {
        resolved_plays_count(plays.drop_last(), src_member, src_pipeline, room) + if resolved_play_at(
            plays,
            plays.len() - 1,
            src_member,
            src_pipeline,
            room,
        ) {
            1int
        } else {
            0int
        }
    }
}

/// Some peer in `s` belongs to member `a` and is partnered with member `b`.
pub open spec fn pair_between(s: Seq<PeerStateMachine>, a: Seq<char>, b: Seq<char>) -> bool {
    exists|i: int| 0 <= i < s.len() && member_of(#[trigger] s[i]) == a && partner_member_of(s[i]) == b
}

/// `actions` carries a `PeerCreated` event without an SDP offer addressed
/// to member `a` or member `b`.
pub open spec fn peer_created_event_for(actions: Seq<Action>, a: Seq<char>, b: Seq<char>) -> bool {
    exists|k: int|
        0 <= k < actions.len() && ((#[trigger] actions[k]) matches Action::SendEvent { member_id: to, event } && (
        event matches Event::PeerCreated { sdp_offer, .. } && sdp_offer is None) && (to@ == a || to@ == b))
}

/// The member at roster index `j` must be interconnected with the freshly
/// connected member `m`: it is a different, connected member, no pair
/// between `m` and it exists yet, and at least one endpoint relation in
/// some direction resolves.
pub open spec fn needs_pair(
    ms: Seq<Member>,
    peers: Seq<PeerStateMachine>,
    room: Seq<char>,
    m: Seq<char>,
    j: int,
) -> bool {
    let mi = member_index(ms, m);
    &&& 0 <= j < ms.len()
    &&& ms[j].id@ != m
    &&& ms[j].connection is Some
    &&& !pair_between(peers, m, ms[j].id@)
    &&& resolved_plays_count(ms[j].spec.pipeline@, m, ms[mi].spec.pipeline@, room) + resolved_plays_count(
        ms[mi].spec.pipeline@,
        ms[j].id@,
        ms[j].spec.pipeline@,
        room,
    ) > 0
}

/// Entry `entry` of the interconnection work list is discharged: the pair
/// between its member and `m` exists and a `PeerCreated` event is queued,
/// or an identifier counter has no room for it.
pub open spec fn pair_done(
    entry: (MemberId, usize, usize),
    peers_now: Seq<PeerStateMachine>,
    tracks_now: u32,
    peers_count_now: u32,
    actions: Seq<Action>,
    m: Seq<char>,
) -> bool {
    ||| (pair_between(peers_now, entry.0@, m) && peer_created_event_for(actions, m, entry.0@))
    ||| tracks_now + 2 * (entry.1 + entry.2) > u32::MAX
    ||| peers_count_now + 2 > u32::MAX
}

/// The endpoint relation that justifies peer `x` still exists: both its
/// members are in the roster and at least one resolved play relation
/// remains between them, in either direction.
pub open spec fn peer_relation_alive(ms: Seq<Member>, room: Seq<char>, x: PeerStateMachine) -> bool {
    let m = member_of(x);
    let q = partner_member_of(x);
    &&& has_member_id(ms, m)
    &&& has_member_id(ms, q)
    &&& resolved_plays_count(
        ms[member_index(ms, m)].spec.pipeline@,
        q,
        ms[member_index(ms, q)].spec.pipeline@,
        room,
    ) + resolved_plays_count(
        ms[member_index(ms, q)].spec.pipeline@,
        m,
        ms[member_index(ms, m)].spec.pipeline@,
        room,
    ) > 0
}

/// `actions` tells member `to_member` that its peer `id` was removed.
pub open spec fn peers_removed_event_for(actions: Seq<Action>, to_member: Seq<char>, id: PeerId) -> bool {
    exists|k: int|
        0 <= k < actions.len() && ((#[trigger] actions[k]) matches Action::SendEvent { member_id: to, event } && (
        event matches Event::PeersRemoved { peer_ids } && peer_ids@.contains(id)) && to@ == to_member)
}

/// Every partner-side peer of the torn-down member `m` in `old_peers` has
/// a `PeersRemoved` event to its own member naming it.
pub open spec fn partner_removal_notified(actions: Seq<Action>, old_peers: Seq<PeerStateMachine>, m: Seq<char>) -> bool {
    forall|x: PeerStateMachine|
        old_peers.contains(x) && partner_member_of(x) == m && member_of(x) != m ==> peers_removed_event_for(
            actions,
            member_of(x),
            x.context().id,
        )
}

/// Entry list `list` holds an entry for member `q` with the two relation
/// counts.
pub open spec fn eligible_listed(list: Seq<(MemberId, usize, usize)>, q: Seq<char>, n1: int, n2: int) -> bool {
    exists|k: int| 0 <= k < list.len() && (#[trigger] list[k]).0@ == q && list[k].1 == n1 && list[k].2 == n2
}

/// The media server room: its identity, its member roster, and its peers.
#[derive(Debug)]
pub struct Room {
    /// Identifier of this room.
    pub id: RoomId,
    /// Roster of members, their connections and deadlines.
    pub participants: ParticipantService,
    /// Every peer of the room.
    pub peers: PeerRepository,
}

impl Room {
    /// Roster and repository are well formed, every peer's partner is
    /// present with mirrored identity and tracks, and no peer connects a
    /// member to itself.
    pub open spec fn wf(self) -> bool {
        &&& self.participants.wf()
        &&& self.peers.wf()
        &&& paired(self.peers.peers@)
        &&& distinct_sides(self.peers.peers@)
    }

    /// Returns this room's identifier.
    pub fn get_id(&self) -> (r: RoomId)
        ensures
            r@ == self.id@,
    {
        self.id.clone()
    }

    /// Decides which of two freshly created partner peers makes the offer,
    /// moves it from `New` to `WaitLocalSdp`, and returns the member that
    /// must receive `PeerCreated` together with that event.  Fails, leaving
    /// the room unchanged, if either peer is missing, either has left
    /// `New`, the two are not partners, or neither sends any media.
    pub fn connect_peers(&mut self, first: PeerId, second: PeerId) -> (r: Result<(MemberId, Event), RoomError>)
        requires
            old(self).wf(),
        ensures
            final(self).wf(),
            final(self).id@ == old(self).id@,
            final(self).participants == old(self).participants,
            final(self).peers.peers_count == old(self).peers.peers_count,
            final(self).peers.tracks_count == old(self).peers.tracks_count,
            match r {
                Ok(to) => ({
                    let old_peers = old(self).peers.peers@;
                    let new_peers = final(self).peers.peers@;
                    to.1 matches Event::PeerCreated { peer_id: offerer, sdp_offer, tracks } && {
                        &&& sdp_offer is None
                        &&& (offerer == first || offerer == second)
                        &&& has_peer_id(old_peers, first) && has_peer_id(old_peers, second)
                        &&& peer_in(old_peers, first) is New && peer_in(old_peers, second) is New
                        &&& ((offerer == first) <==> crate::peer::ctx_sends(peer_in(old_peers, first).context()))
                        &&& same_peers_except2(old_peers, new_peers, first, second)
                        &&& has_peer_id(new_peers, first) && has_peer_id(new_peers, second)
                        &&& peer_in(new_peers, offerer) is WaitLocalSdp
                        &&& peer_in(new_peers, offerer).context() == peer_in(old_peers, offerer).context()
                        &&& ({
                            let other = if offerer == first { second } else { first };
                            peer_in(new_peers, other) == peer_in(old_peers, other)
                        })
                        &&& to.0@ == peer_in(old_peers, offerer).context().member_id@
                        &&& tracks@ == peer_in(old_peers, offerer).context().tracks@
                        &&& crate::peer::ctx_sends(peer_in(old_peers, offerer).context())
                    }
                }),
                Err(_) => *final(self) == *old(self),
            },
            ({
                let old_peers = old(self).peers.peers@;
                (first != second && has_peer_id(old_peers, first) && has_peer_id(old_peers, second) && peer_in(
                    old_peers,
                    first,
                ) is New && peer_in(old_peers, second) is New && peer_in(old_peers, first).context().partner_peer
                    == second && peer_in(old_peers, second).context().partner_peer == first && (crate::peer::ctx_sends(
                    peer_in(old_peers, first).context(),
                ) || crate::peer::ctx_sends(peer_in(old_peers, second).context()))) ==> r is Ok
            }),
            ({
                let old_peers = old(self).peers.peers@;
                (first != second && has_peer_id(old_peers, first) && has_peer_id(old_peers, second) && peer_in(
                    old_peers,
                    first,
                ) is New && peer_in(old_peers, second) is New && peer_in(old_peers, first).context().partner_peer
                    == second && peer_in(old_peers, second).context().partner_peer == first && !crate::peer::ctx_sends(
                    peer_in(old_peers, first).context(),
                ) && !crate::peer::ctx_sends(peer_in(old_peers, second).context())) ==> (r matches Err(e) && e
                    is BadRoomSpec && *final(self) == *old(self))
            }),
    {
        // Validation phase: borrows only, so failure leaves no trace.
        if first.0 == second.0 {
            return Err(
                RoomError::PeerStateError(PeerStateError::NotStarted { peer_id: first }),
            );
        }
        let ghost old_peers = self.peers.peers@;
        let (first_kind, first_partner, first_is_sender) = match self.peers.get_peer(first) {
            Ok(p) => {
                proof {
                    lemma_peer_in(old_peers, *p, first);
                }
                (p.kind(), p.partner_peer_id(), p.is_sender())
            }
            Err(e) => {
                return Err(e);
            }
        };
        let (second_kind, second_partner, second_is_sender) = match self.peers.get_peer(second) {
            Ok(p) => {
                proof {
                    lemma_peer_in(old_peers, *p, second);
                }
                (p.kind(), p.partner_peer_id(), p.is_sender())
            }
            Err(e) => {
                return Err(e);
            }
        };
        if !matches!(first_kind, PeerStateKind::New) {
            return Err(
                RoomError::PeerStateError(
                    PeerStateError::WrongState { peer_id: first, expected: PeerStateKind::New, actual: first_kind },
                ),
            );
        }
        if !matches!(second_kind, PeerStateKind::New) {
            return Err(
                RoomError::PeerStateError(
                    PeerStateError::WrongState { peer_id: second, expected: PeerStateKind::New, actual: second_kind },
                ),
            );
        }
        if first_partner.0 != second.0 || second_partner.0 != first.0 {
            return Err(RoomError::PeerNotFound(second));
        }
        if !first_is_sender && !second_is_sender {
            return Err(RoomError::BadRoomSpec(String::new()));
        }

        // Mutation phase: both takes succeed and both peers are `New`.
        let first_machine = match self.peers.take_peer(first) {
            Ok(p) => p,
            Err(_) => {
                proof {
                    assert(false);
                }
                return Err(RoomError::PeerNotFound(first));
            }
        };
        let ghost i1 = choose|i: int|
            0 <= i < old_peers.len() && old_peers[i] == first_machine && self.peers.peers@ == old_peers.remove(i);
        proof {
            lemma_unique_id_value(old_peers, first_machine, peer_in(old_peers, first));
            lemma_remove_contains(old_peers, i1);
            let xb = peer_in(old_peers, second);
            assert(old_peers.contains(xb));
            assert(xb != first_machine);
            assert(self.peers.peers@.contains(xb));
            let bi = choose|bi: int| 0 <= bi < self.peers.peers@.len() && self.peers.peers@[bi] == xb;
            assert(has_peer_id(self.peers.peers@, second));
        }
        let ghost mid1 = self.peers.peers@;
        let second_machine = match self.peers.take_peer(second) {
            Ok(p) => p,
            Err(_) => {
                proof {
                    assert(false);
                }
                return Err(RoomError::PeerNotFound(second));
            }
        };
        let ghost i2 = choose|i: int|
            0 <= i < mid1.len() && mid1[i] == second_machine && self.peers.peers@ == mid1.remove(i);
        proof {
            lemma_remove_contains(mid1, i2);
            assert(old_peers.contains(second_machine));
            lemma_unique_id_value(old_peers, second_machine, peer_in(old_peers, second));
        }

        let first_peer = match first_machine {
            PeerStateMachine::New(p) => p,
            _ => {
                proof {
                    assert(false);
                }
                return Err(RoomError::PeerNotFound(first));
            }
        };
        let second_peer = match second_machine {
            PeerStateMachine::New(p) => p,
            _ => {
                proof {
                    assert(false);
                }
                return Err(RoomError::PeerNotFound(second));
            }
        };

        if first_is_sender {
            let started = first_peer.start();
            let to_member = started.member_id();
            let tracks = started.tracks();
            let ya = PeerStateMachine::WaitLocalSdp(started);
            let yb = PeerStateMachine::New(second_peer);
            let ghost gya = ya;
            let ghost gyb = yb;
            self.peers.add_peer(ya);
            self.peers.add_peer(yb);
            proof {
                lemma_swap_pair(old_peers, i1, i2, gya, gyb);
                lemma_peer_in(self.peers.peers@, gya, first);
                lemma_peer_in(self.peers.peers@, gyb, second);
            }
            Ok((to_member, Event::PeerCreated { peer_id: first, sdp_offer: None, tracks }))
        } else {
            let started = second_peer.start();
            let to_member = started.member_id();
            let tracks = started.tracks();
            let ya = PeerStateMachine::New(first_peer);
            let yb = PeerStateMachine::WaitLocalSdp(started);
            let ghost gya = ya;
            let ghost gyb = yb;
            self.peers.add_peer(ya);
            self.peers.add_peer(yb);
            proof {
                lemma_swap_pair(old_peers, i1, i2, gya, gyb);
                lemma_peer_in(self.peers.peers@, gya, first);
                lemma_peer_in(self.peers.peers@, gyb, second);
            }
            Ok((to_member, Event::PeerCreated { peer_id: second, sdp_offer: None, tracks }))
        }
    }

    /// Applies a member's SDP offer: the offerer moves from `WaitLocalSdp`
    /// to `WaitRemoteSdp` recording the offer, its partner moves from `New`
    /// to `WaitLocalHaveRemote` recording it as remote, and the partner's
    /// member must receive `PeerCreated` carrying the offer.  Fails,
    /// leaving the room unchanged, if the peer or its partner is missing or
    /// in another state.
    pub fn handle_make_sdp_offer(&mut self, from_peer_id: PeerId, sdp_offer: String) -> (r: Result<
        (MemberId, Event),
        RoomError,
    >)
        requires
            old(self).wf(),
        ensures
            final(self).wf(),
            final(self).id@ == old(self).id@,
            final(self).participants == old(self).participants,
            match r {
                Ok(to) => ({
                    let old_peers = old(self).peers.peers@;
                    let new_peers = final(self).peers.peers@;
                    let to_peer_id = peer_in(old_peers, from_peer_id).context().partner_peer;
                    &&& has_peer_id(old_peers, from_peer_id) && has_peer_id(old_peers, to_peer_id)
                    &&& peer_in(old_peers, from_peer_id) is WaitLocalSdp
                    &&& peer_in(old_peers, to_peer_id) is New
                    &&& same_peers_except2(old_peers, new_peers, from_peer_id, to_peer_id)
                    &&& has_peer_id(new_peers, from_peer_id) && has_peer_id(new_peers, to_peer_id)
                    &&& peer_in(new_peers, from_peer_id) is WaitRemoteSdp
                    &&& peer_in(new_peers, to_peer_id) is WaitLocalHaveRemote
                    &&& ctx_with_offer(
                        peer_in(old_peers, from_peer_id).context(),
                        peer_in(new_peers, from_peer_id).context(),
                        sdp_offer@,
                    )
                    &&& ctx_with_offer(
                        peer_in(old_peers, to_peer_id).context(),
                        peer_in(new_peers, to_peer_id).context(),
                        sdp_offer@,
                    )
                    &&& to.0@ == peer_in(old_peers, to_peer_id).context().member_id@
                    &&& to.1 matches Event::PeerCreated { peer_id, sdp_offer: off, tracks } && {
                        &&& peer_id == to_peer_id
                        &&& off matches Some(o) && o@ == sdp_offer@
                        &&& tracks@ == peer_in(old_peers, to_peer_id).context().tracks@
                    }
                }),
                Err(_) => *final(self) == *old(self),
            },
            ({
                let old_peers = old(self).peers.peers@;
                let to_peer_id = peer_in(old_peers, from_peer_id).context().partner_peer;
                (has_peer_id(old_peers, from_peer_id) && peer_in(old_peers, from_peer_id) is WaitLocalSdp
                    && has_peer_id(old_peers, to_peer_id) && peer_in(old_peers, to_peer_id) is New && to_peer_id
                    != from_peer_id && peer_in(old_peers, to_peer_id).context().partner_peer == from_peer_id)
                    ==> r is Ok
            }),
    {
        let ghost old_peers = self.peers.peers@;
        let (from_kind, to_peer_id) = match self.peers.get_peer(from_peer_id) {
            Ok(p) => {
                proof {
                    lemma_peer_in(old_peers, *p, from_peer_id);
                }
                (p.kind(), p.partner_peer_id())
            }
            Err(e) => {
                return Err(e);
            }
        };
        if !matches!(from_kind, PeerStateKind::WaitLocalSdp) {
            return Err(
                RoomError::PeerStateError(
                    PeerStateError::WrongState {
                        peer_id: from_peer_id,
                        expected: PeerStateKind::WaitLocalSdp,
                        actual: from_kind,
                    },
                ),
            );
        }
        if to_peer_id.0 == from_peer_id.0 {
            return Err(RoomError::PeerNotFound(to_peer_id));
        }
        let (to_kind, to_partner) = match self.peers.get_peer(to_peer_id) {
            Ok(p) => {
                proof {
                    lemma_peer_in(old_peers, *p, to_peer_id);
                }
                (p.kind(), p.partner_peer_id())
            }
            Err(e) => {
                return Err(e);
            }
        };
        if !matches!(to_kind, PeerStateKind::New) {
            return Err(
                RoomError::PeerStateError(
                    PeerStateError::WrongState {
                        peer_id: to_peer_id,
                        expected: PeerStateKind::New,
                        actual: to_kind,
                    },
                ),
            );
        }
        if to_partner.0 != from_peer_id.0 {
            return Err(RoomError::PeerNotFound(to_peer_id));
        }

        let from_machine = match self.peers.take_peer(from_peer_id) {
            Ok(p) => p,
            Err(_) => {
                proof {
                    assert(false);
                }
                return Err(RoomError::PeerNotFound(from_peer_id));
            }
        };
        let ghost i1 = choose|i: int|
            0 <= i < old_peers.len() && old_peers[i] == from_machine && self.peers.peers@ == old_peers.remove(i);
        proof {
            lemma_unique_id_value(old_peers, from_machine, peer_in(old_peers, from_peer_id));
            lemma_remove_contains(old_peers, i1);
            let xb = peer_in(old_peers, to_peer_id);
            assert(old_peers.contains(xb));
            assert(xb != from_machine);
            assert(self.peers.peers@.contains(xb));
            let bi = choose|bi: int| 0 <= bi < self.peers.peers@.len() && self.peers.peers@[bi] == xb;
            assert(has_peer_id(self.peers.peers@, to_peer_id));
        }
        let ghost mid1 = self.peers.peers@;
        let to_machine = match self.peers.take_peer(to_peer_id) {
            Ok(p) => p,
            Err(_) => {
                proof {
                    assert(false);
                }
                return Err(RoomError::PeerNotFound(to_peer_id));
            }
        };
        let ghost i2 = choose|i: int|
            0 <= i < mid1.len() && mid1[i] == to_machine && self.peers.peers@ == mid1.remove(i);
        proof {
            lemma_remove_contains(mid1, i2);
            assert(old_peers.contains(to_machine));
            lemma_unique_id_value(old_peers, to_machine, peer_in(old_peers, to_peer_id));
        }

        let from_peer = match from_machine {
            PeerStateMachine::WaitLocalSdp(p) => p,
            _ => {
                proof {
                    assert(false);
                }
                return Err(RoomError::PeerNotFound(from_peer_id));
            }
        };
        let to_peer = match to_machine {
            PeerStateMachine::New(p) => p,
            _ => {
                proof {
                    assert(false);
                }
                return Err(RoomError::PeerNotFound(to_peer_id));
            }
        };

        let from_peer = from_peer.set_local_sdp(sdp_offer.clone());
        let to_peer = to_peer.set_remote_sdp(sdp_offer.clone());
        let to_member = to_peer.member_id();
        let tracks = to_peer.tracks();

        let ya = PeerStateMachine::WaitRemoteSdp(from_peer);
        let yb = PeerStateMachine::WaitLocalHaveRemote(to_peer);
        let ghost gya = ya;
        let ghost gyb = yb;
        self.peers.add_peer(ya);
        self.peers.add_peer(yb);
        proof {
            lemma_swap_pair(old_peers, i1, i2, gya, gyb);
            lemma_peer_in(self.peers.peers@, gya, from_peer_id);
            lemma_peer_in(self.peers.peers@, gyb, to_peer_id);
        }
        Ok((to_member, Event::PeerCreated { peer_id: to_peer_id, sdp_offer: Some(sdp_offer), tracks }))
    }

    /// Applies a member's SDP answer: the answerer moves from
    /// `WaitLocalHaveRemote` to `Stable` recording the answer, its partner
    /// moves from `WaitRemoteSdp` to `Stable`, and the partner's member
    /// must receive `SdpAnswerMade`.  Fails, leaving the room unchanged, if
    /// the peer or its partner is missing or in another state.
    pub fn handle_make_sdp_answer(&mut self, from_peer_id: PeerId, sdp_answer: String) -> (r: Result<
        (MemberId, Event),
        RoomError,
    >)
        requires
            old(self).wf(),
        ensures
            final(self).wf(),
            final(self).id@ == old(self).id@,
            final(self).participants == old(self).participants,
            match r {
                Ok(to) => ({
                    let old_peers = old(self).peers.peers@;
                    let new_peers = final(self).peers.peers@;
                    let to_peer_id = peer_in(old_peers, from_peer_id).context().partner_peer;
                    &&& has_peer_id(old_peers, from_peer_id) && has_peer_id(old_peers, to_peer_id)
                    &&& peer_in(old_peers, from_peer_id) is WaitLocalHaveRemote
                    &&& peer_in(old_peers, to_peer_id) is WaitRemoteSdp
                    &&& same_peers_except2(old_peers, new_peers, from_peer_id, to_peer_id)
                    &&& has_peer_id(new_peers, from_peer_id) && has_peer_id(new_peers, to_peer_id)
                    &&& peer_in(new_peers, from_peer_id) is Stable
                    &&& peer_in(new_peers, to_peer_id) is Stable
                    &&& ctx_with_answer(
                        peer_in(old_peers, from_peer_id).context(),
                        peer_in(new_peers, from_peer_id).context(),
                        sdp_answer@,
                    )
                    &&& ctx_with_answer(
                        peer_in(old_peers, to_peer_id).context(),
                        peer_in(new_peers, to_peer_id).context(),
                        sdp_answer@,
                    )
                    &&& to.0@ == peer_in(old_peers, to_peer_id).context().member_id@
                    &&& to.1 matches Event::SdpAnswerMade { peer_id, sdp_answer: ans } && {
                        &&& peer_id == to_peer_id
                        &&& ans@ == sdp_answer@
                    }
                }),
                Err(_) => *final(self) == *old(self),
            },
            ({
                let old_peers = old(self).peers.peers@;
                let to_peer_id = peer_in(old_peers, from_peer_id).context().partner_peer;
                (has_peer_id(old_peers, from_peer_id) && peer_in(old_peers, from_peer_id) is WaitLocalHaveRemote
                    && has_peer_id(old_peers, to_peer_id) && peer_in(old_peers, to_peer_id) is WaitRemoteSdp
                    && to_peer_id != from_peer_id && peer_in(old_peers, to_peer_id).context().partner_peer
                    == from_peer_id) ==> r is Ok
            }),
    {
        let ghost old_peers = self.peers.peers@;
        let (from_kind, to_peer_id) = match self.peers.get_peer(from_peer_id) {
            Ok(p) => {
                proof {
                    lemma_peer_in(old_peers, *p, from_peer_id);
                }
                (p.kind(), p.partner_peer_id())
            }
            Err(e) => {
                return Err(e);
            }
        };
        if !matches!(from_kind, PeerStateKind::WaitLocalHaveRemote) {
            return Err(
                RoomError::PeerStateError(
                    PeerStateError::WrongState {
                        peer_id: from_peer_id,
                        expected: PeerStateKind::WaitLocalHaveRemote,
                        actual: from_kind,
                    },
                ),
            );
        }
        if to_peer_id.0 == from_peer_id.0 {
            return Err(RoomError::PeerNotFound(to_peer_id));
        }
        let (to_kind, to_partner) = match self.peers.get_peer(to_peer_id) {
            Ok(p) => {
                proof {
                    lemma_peer_in(old_peers, *p, to_peer_id);
                }
                (p.kind(), p.partner_peer_id())
            }
            Err(e) => {
                return Err(e);
            }
        };
        if !matches!(to_kind, PeerStateKind::WaitRemoteSdp) {
            return Err(
                RoomError::PeerStateError(
                    PeerStateError::WrongState {
                        peer_id: to_peer_id,
                        expected: PeerStateKind::WaitRemoteSdp,
                        actual: to_kind,
                    },
                ),
            );
        }
        if to_partner.0 != from_peer_id.0 {
            return Err(RoomError::PeerNotFound(to_peer_id));
        }

        let from_machine = match self.peers.take_peer(from_peer_id) {
            Ok(p) => p,
            Err(_) => {
                proof {
                    assert(false);
                }
                return Err(RoomError::PeerNotFound(from_peer_id));
            }
        };
        let ghost i1 = choose|i: int|
            0 <= i < old_peers.len() && old_peers[i] == from_machine && self.peers.peers@ == old_peers.remove(i);
        proof {
            lemma_unique_id_value(old_peers, from_machine, peer_in(old_peers, from_peer_id));
            lemma_remove_contains(old_peers, i1);
            let xb = peer_in(old_peers, to_peer_id);
            assert(old_peers.contains(xb));
            assert(xb != from_machine);
            assert(self.peers.peers@.contains(xb));
            let bi = choose|bi: int| 0 <= bi < self.peers.peers@.len() && self.peers.peers@[bi] == xb;
            assert(has_peer_id(self.peers.peers@, to_peer_id));
        }
        let ghost mid1 = self.peers.peers@;
        let to_machine = match self.peers.take_peer(to_peer_id) {
            Ok(p) => p,
            Err(_) => {
                proof {
                    assert(false);
                }
                return Err(RoomError::PeerNotFound(to_peer_id));
            }
        };
        let ghost i2 = choose|i: int|
            0 <= i < mid1.len() && mid1[i] == to_machine && self.peers.peers@ == mid1.remove(i);
        proof {
            lemma_remove_contains(mid1, i2);
            assert(old_peers.contains(to_machine));
            lemma_unique_id_value(old_peers, to_machine, peer_in(old_peers, to_peer_id));
        }

        let from_peer = match from_machine {
            PeerStateMachine::WaitLocalHaveRemote(p) => p,
            _ => {
                proof {
                    assert(false);
                }
                return Err(RoomError::PeerNotFound(from_peer_id));
            }
        };
        let to_peer = match to_machine {
            PeerStateMachine::WaitRemoteSdp(p) => p,
            _ => {
                proof {
                    assert(false);
                }
                return Err(RoomError::PeerNotFound(to_peer_id));
            }
        };

        let from_peer = from_peer.set_local_sdp(sdp_answer.clone());
        let to_peer = to_peer.set_remote_sdp(sdp_answer.clone());
        let to_member = to_peer.member_id();

        let ya = PeerStateMachine::Stable(from_peer);
        let yb = PeerStateMachine::Stable(to_peer);
        let ghost gya = ya;
        let ghost gyb = yb;
        self.peers.add_peer(ya);
        self.peers.add_peer(yb);
        proof {
            lemma_swap_pair(old_peers, i1, i2, gya, gyb);
            lemma_peer_in(self.peers.peers@, gya, from_peer_id);
            lemma_peer_in(self.peers.peers@, gyb, to_peer_id);
        }
        Ok((to_member, Event::SdpAnswerMade { peer_id: to_peer_id, sdp_answer }))
    }

    /// Relays an ICE candidate to the partner peer's member and buffers it
    /// on the partner peer.  Legal only once both peers have left `New`.
    /// Fails, leaving the room unchanged, if a peer is missing or still
    /// `New`.
    pub fn handle_set_ice_candidate(&mut self, from_peer_id: PeerId, candidate: IceCandidate) -> (r: Result<
        (MemberId, Event),
        RoomError,
    >)
        requires
            old(self).wf(),
        ensures
            final(self).wf(),
            final(self).id@ == old(self).id@,
            final(self).participants == old(self).participants,
            match r {
                Ok(to) => ({
                    let old_peers = old(self).peers.peers@;
                    let new_peers = final(self).peers.peers@;
                    let to_peer_id = peer_in(old_peers, from_peer_id).context().partner_peer;
                    &&& has_peer_id(old_peers, from_peer_id) && has_peer_id(old_peers, to_peer_id)
                    &&& !(peer_in(old_peers, from_peer_id) is New)
                    &&& !(peer_in(old_peers, to_peer_id) is New)
                    &&& same_peers_except2(old_peers, new_peers, from_peer_id, to_peer_id)
                    &&& has_peer_id(new_peers, from_peer_id) && has_peer_id(new_peers, to_peer_id)
                    &&& peer_in(new_peers, from_peer_id) == peer_in(old_peers, from_peer_id)
                    &&& peer_in(new_peers, to_peer_id).spec_kind() == peer_in(old_peers, to_peer_id).spec_kind()
                    &&& peer_in(new_peers, to_peer_id).context() == (PeerContext {
                        ice_candidates: peer_in(new_peers, to_peer_id).context().ice_candidates,
                        ..peer_in(old_peers, to_peer_id).context()
                    })
                    &&& peer_in(new_peers, to_peer_id).context().ice_candidates@ == peer_in(
                        old_peers,
                        to_peer_id,
                    ).context().ice_candidates@.push(candidate)
                    &&& to.0@ == peer_in(old_peers, to_peer_id).context().member_id@
                    &&& to.1 matches Event::IceCandidateDiscovered { peer_id, candidate: c } && {
                        &&& peer_id == to_peer_id
                        &&& crate::protocol::ice_eq(candidate, c)
                    }
                }),
                Err(_) => *final(self) == *old(self),
            },
            ({
                let old_peers = old(self).peers.peers@;
                let to_peer_id = peer_in(old_peers, from_peer_id).context().partner_peer;
                (has_peer_id(old_peers, from_peer_id) && !(peer_in(old_peers, from_peer_id) is New) && has_peer_id(
                    old_peers,
                    to_peer_id,
                ) && !(peer_in(old_peers, to_peer_id) is New) && to_peer_id != from_peer_id && peer_in(
                    old_peers,
                    to_peer_id,
                ).context().partner_peer == from_peer_id) ==> r is Ok
            }),
    {
        let ghost old_peers = self.peers.peers@;
        let (from_kind, to_peer_id) = match self.peers.get_peer(from_peer_id) {
            Ok(p) => {
                proof {
                    lemma_peer_in(old_peers, *p, from_peer_id);
                }
                (p.kind(), p.partner_peer_id())
            }
            Err(e) => {
                return Err(e);
            }
        };
        if matches!(from_kind, PeerStateKind::New) {
            return Err(RoomError::PeerStateError(PeerStateError::NotStarted { peer_id: from_peer_id }));
        }
        if to_peer_id.0 == from_peer_id.0 {
            return Err(RoomError::PeerNotFound(to_peer_id));
        }
        let (to_kind, to_partner) = match self.peers.get_peer(to_peer_id) {
            Ok(p) => {
                proof {
                    lemma_peer_in(old_peers, *p, to_peer_id);
                }
                (p.kind(), p.partner_peer_id())
            }
            Err(e) => {
                return Err(e);
            }
        };
        if matches!(to_kind, PeerStateKind::New) {
            return Err(RoomError::PeerStateError(PeerStateError::NotStarted { peer_id: to_peer_id }));
        }
        if to_partner.0 != from_peer_id.0 {
            return Err(RoomError::PeerNotFound(to_peer_id));
        }

        let from_machine = match self.peers.take_peer(from_peer_id) {
            Ok(p) => p,
            Err(_) => {
                proof {
                    assert(false);
                }
                return Err(RoomError::PeerNotFound(from_peer_id));
            }
        };
        let ghost i1 = choose|i: int|
            0 <= i < old_peers.len() && old_peers[i] == from_machine && self.peers.peers@ == old_peers.remove(i);
        proof {
            lemma_unique_id_value(old_peers, from_machine, peer_in(old_peers, from_peer_id));
            lemma_remove_contains(old_peers, i1);
            let xb = peer_in(old_peers, to_peer_id);
            assert(old_peers.contains(xb));
            assert(xb != from_machine);
            assert(self.peers.peers@.contains(xb));
            let bi = choose|bi: int| 0 <= bi < self.peers.peers@.len() && self.peers.peers@[bi] == xb;
            assert(has_peer_id(self.peers.peers@, to_peer_id));
        }
        let ghost mid1 = self.peers.peers@;
        let mut to_machine = match self.peers.take_peer(to_peer_id) {
            Ok(p) => p,
            Err(_) => {
                proof {
                    assert(false);
                }
                return Err(RoomError::PeerNotFound(to_peer_id));
            }
        };
        let ghost i2 = choose|i: int|
            0 <= i < mid1.len() && mid1[i] == to_machine && self.peers.peers@ == mid1.remove(i);
        proof {
            lemma_remove_contains(mid1, i2);
            assert(old_peers.contains(to_machine));
            lemma_unique_id_value(old_peers, to_machine, peer_in(old_peers, to_peer_id));
        }

        let to_member = to_machine.member_id();
        let event_candidate = candidate.clone();
        to_machine.add_ice_candidate(candidate);

        let ghost gya = from_machine;
        let ghost gyb = to_machine;
        self.peers.add_peer(from_machine);
        self.peers.add_peer(to_machine);
        proof {
            lemma_swap_pair(old_peers, i1, i2, gya, gyb);
            lemma_peer_in(self.peers.peers@, gya, from_peer_id);
            lemma_peer_in(self.peers.peers@, gyb, to_peer_id);
        }
        Ok((to_member, Event::IceCandidateDiscovered { peer_id: to_peer_id, candidate: event_candidate }))
    }

    /// Dispatches a command coming from `member_id`'s connection.  A
    /// command is accepted only when the peer it names exists and belongs
    /// to that member; a command for another member's peer is rejected as
    /// if the peer did not exist.
    pub fn handle_command(&mut self, member_id: &MemberId, command: Command) -> (r: Result<
        (MemberId, Event),
        RoomError,
    >)
        requires
            old(self).wf(),
        ensures
            final(self).wf(),
            final(self).id@ == old(self).id@,
            final(self).participants == old(self).participants,
            r is Ok ==> has_peer_id(old(self).peers.peers@, command.peer_id()) && member_of(
                peer_in(old(self).peers.peers@, command.peer_id()),
            ) == member_id@,
            has_peer_id(old(self).peers.peers@, command.peer_id()) && member_of(
                peer_in(old(self).peers.peers@, command.peer_id()),
            ) != member_id@ ==> r is Err && *final(self) == *old(self),
            r is Err ==> *final(self) == *old(self),
            r matches Ok(to) ==> ({
                let old_peers = old(self).peers.peers@;
                let new_peers = final(self).peers.peers@;
                &&& (command matches Command::MakeSdpOffer { peer_id: from_peer_id, sdp_offer } ==> ({
                    let to_peer_id = peer_in(old_peers, from_peer_id).context().partner_peer;
                    &&& peer_in(old_peers, from_peer_id) is WaitLocalSdp
                    &&& peer_in(old_peers, to_peer_id) is New
                    &&& same_peers_except2(old_peers, new_peers, from_peer_id, to_peer_id)
                    &&& peer_in(new_peers, from_peer_id) is WaitRemoteSdp
                    &&& peer_in(new_peers, to_peer_id) is WaitLocalHaveRemote
                    &&& ctx_with_offer(
                        peer_in(old_peers, from_peer_id).context(),
                        peer_in(new_peers, from_peer_id).context(),
                        sdp_offer@,
                    )
                    &&& ctx_with_offer(
                        peer_in(old_peers, to_peer_id).context(),
                        peer_in(new_peers, to_peer_id).context(),
                        sdp_offer@,
                    )
                    &&& to.0@ == peer_in(old_peers, to_peer_id).context().member_id@
                    &&& (to.1 matches Event::PeerCreated { peer_id, sdp_offer: off, tracks } && {
                        &&& peer_id == to_peer_id
                        &&& off matches Some(o) && o@ == sdp_offer@
                        &&& tracks@ == peer_in(old_peers, to_peer_id).context().tracks@
                    })
                }))
                &&& (command matches Command::MakeSdpAnswer { peer_id: from_peer_id, sdp_answer } ==> ({
                    let to_peer_id = peer_in(old_peers, from_peer_id).context().partner_peer;
                    &&& peer_in(old_peers, from_peer_id) is WaitLocalHaveRemote
                    &&& peer_in(old_peers, to_peer_id) is WaitRemoteSdp
                    &&& same_peers_except2(old_peers, new_peers, from_peer_id, to_peer_id)
                    &&& peer_in(new_peers, from_peer_id) is Stable
                    &&& peer_in(new_peers, to_peer_id) is Stable
                    &&& ctx_with_answer(
                        peer_in(old_peers, from_peer_id).context(),
                        peer_in(new_peers, from_peer_id).context(),
                        sdp_answer@,
                    )
                    &&& ctx_with_answer(
                        peer_in(old_peers, to_peer_id).context(),
                        peer_in(new_peers, to_peer_id).context(),
                        sdp_answer@,
                    )
                    &&& to.0@ == peer_in(old_peers, to_peer_id).context().member_id@
                    &&& (to.1 matches Event::SdpAnswerMade { peer_id, sdp_answer: ans } && {
                        &&& peer_id == to_peer_id
                        &&& ans@ == sdp_answer@
                    })
                }))
                &&& (command matches Command::SetIceCandidate { peer_id: from_peer_id, candidate } ==> ({
                    let to_peer_id = peer_in(old_peers, from_peer_id).context().partner_peer;
                    &&& !(peer_in(old_peers, from_peer_id) is New)
                    &&& !(peer_in(old_peers, to_peer_id) is New)
                    &&& same_peers_except2(old_peers, new_peers, from_peer_id, to_peer_id)
                    &&& peer_in(new_peers, from_peer_id) == peer_in(old_peers, from_peer_id)
                    &&& peer_in(new_peers, to_peer_id).spec_kind() == peer_in(old_peers, to_peer_id).spec_kind()
                    &&& peer_in(new_peers, to_peer_id).context().ice_candidates@ == peer_in(
                        old_peers,
                        to_peer_id,
                    ).context().ice_candidates@.push(candidate)
                    &&& to.0@ == peer_in(old_peers, to_peer_id).context().member_id@
                    &&& (to.1 matches Event::IceCandidateDiscovered { peer_id, candidate: c } && {
                        &&& peer_id == to_peer_id
                        &&& crate::protocol::ice_eq(candidate, c)
                    })
                }))
            }),
            ({
                let old_peers = old(self).peers.peers@;
                let from_peer_id = command.peer_id();
                let to_peer_id = peer_in(old_peers, from_peer_id).context().partner_peer;
                (has_peer_id(old_peers, from_peer_id) && member_of(peer_in(old_peers, from_peer_id)) == member_id@
                    && has_peer_id(old_peers, to_peer_id) && to_peer_id != from_peer_id && peer_in(
                    old_peers,
                    to_peer_id,
                ).context().partner_peer == from_peer_id && (match command {
                    Command::MakeSdpOffer { .. } => peer_in(old_peers, from_peer_id) is WaitLocalSdp && peer_in(
                        old_peers,
                        to_peer_id,
                    ) is New,
                    Command::MakeSdpAnswer { .. } => peer_in(old_peers, from_peer_id) is WaitLocalHaveRemote
                        && peer_in(old_peers, to_peer_id) is WaitRemoteSdp,
                    Command::SetIceCandidate { .. } => !(peer_in(old_peers, from_peer_id) is New) && !(peer_in(
                        old_peers,
                        to_peer_id,
                    ) is New),
                })) ==> r is Ok
            }),
    {
        let peer_id = match &command {
            Command::MakeSdpOffer { peer_id, .. } => *peer_id,
            Command::MakeSdpAnswer { peer_id, .. } => *peer_id,
            Command::SetIceCandidate { peer_id, .. } => *peer_id,
        };
        match self.peers.get_peer(peer_id) {
            Ok(p) => {
                proof {
                    lemma_peer_in(self.peers.peers@, *p, peer_id);
                }
                let owner = p.member_id();
                if !(owner == *member_id) {
                    return Err(RoomError::PeerNotFound(peer_id));
                }
            }
            Err(e) => {
                return Err(e);
            }
        }
        match command {
            Command::MakeSdpOffer { peer_id, sdp_offer } => self.handle_make_sdp_offer(peer_id, sdp_offer),
            Command::MakeSdpAnswer { peer_id, sdp_answer } => self.handle_make_sdp_answer(peer_id, sdp_answer),
            Command::SetIceCandidate { peer_id, candidate } => self.handle_set_ice_candidate(peer_id, candidate),
        }
    }

    /// Builds a room from its description: every described member enters
    /// the roster, disconnected, and the room starts with no peers.
    /// Rejected descriptions leave no room behind.
    pub fn new(room_spec: &RoomSpec, reconnect_timeout: u64) -> (r: Result<Room, RoomError>)
        ensures
            r is Ok <==> room_spec.valid(),
            r matches Ok(room) ==> {
                &&& room.wf()
                &&& room.id@ == room_spec.id@
                &&& room.peers.peers@.len() == 0
                &&& room.participants.reconnect_timeout == reconnect_timeout
                &&& room.participants.members@.len() == room_spec.pipeline@.len()
                &&& no_connections(room.participants.members@)
                &&& forall|i: int|
                    0 <= i < room_spec.pipeline@.len() ==> (#[trigger] room.participants.members@[i]).id@
                        == room_spec.pipeline@[i].0@ && room.participants.members@[i].reconnect_deadline is None
                        && crate::member::member_spec_like(
                        member_spec_of(room_spec.pipeline@[i].1),
                        room.participants.members@[i].spec,
                    )
            },
    {
        if let Err(e) = room_spec.validate() {
            return Err(e);
        }
        let mut members: Vec<Member> = Vec::new();
        let mut i: usize = 0;
        while i < room_spec.pipeline.len()
            invariant
                0 <= i <= room_spec.pipeline@.len(),
                members@.len() == i,
                room_spec.valid(),
                forall|j: int|
                    0 <= j < i ==> (#[trigger] members@[j]).id@ == room_spec.pipeline@[j].0@ && members@[j].connection
                        is None && members@[j].reconnect_deadline is None && crate::member::member_spec_like(
                        member_spec_of(room_spec.pipeline@[j].1),
                        members@[j].spec,
                    ),
            decreases room_spec.pipeline@.len() - i,
        {
            let RoomElement::Member { spec } = &room_spec.pipeline[i].1;
            members.push(
                Member {
                    id: room_spec.pipeline[i].0.clone(),
                    spec: spec.clone(),
                    connection: None,
                    reconnect_deadline: None,
                },
            );
            i = i + 1;
        }
        proof {
            assert forall|a: int, b: int|
                0 <= a < b < members@.len() implies (#[trigger] members@[a]).id@ != (#[trigger] members@[b]).id@ by {
                assert(room_spec.pipeline@[a].0@ != room_spec.pipeline@[b].0@);
            }
            reveal(paired);
            reveal(distinct_sides);
        }
        Ok(
            Room {
                id: room_spec.id().clone(),
                participants: ParticipantService::new(members, reconnect_timeout),
                peers: PeerRepository::new(),
            },
        )
    }

    /// Checks a member's credential: who the member is and whether the
    /// presented secret verifies.
    pub fn handle_authorize(&self, member_id: &MemberId, credentials: &str) -> (r: Result<
        (),
        crate::protocol::AuthorizationError,
    >)
        requires
            self.wf(),
        ensures
            match r {
                Ok(()) => has_member_id(self.participants.members@, member_id@)
                    && self.participants.members@[member_index(
                    self.participants.members@,
                    member_id@,
                )].spec.credentials.spec_verify(credentials@),
                Err(e) => match e {
                    crate::protocol::AuthorizationError::MemberNotExists => !has_member_id(
                        self.participants.members@,
                        member_id@,
                    ),
                    crate::protocol::AuthorizationError::InvalidCredentials => has_member_id(
                        self.participants.members@,
                        member_id@,
                    ) && !self.participants.members@[member_index(
                        self.participants.members@,
                        member_id@,
                    )].spec.credentials.spec_verify(credentials@),
                },
            },
    {
        self.participants.authorize(member_id, credentials)
    }

    /// Appends `2 * n_out` outbound then `2 * n_in` inbound tracks (an
    /// audio and a video track each time), numbered by the track counter.
    fn build_tracks(&mut self, n_out: usize, n_in: usize) -> (r: Vec<MediaTrack>)
        requires
            old(self).peers.wf(),
            old(self).peers.tracks_count.count + 2 * (n_out + n_in) <= u32::MAX,
        ensures
            final(self).peers.wf(),
            final(self).peers.peers@ == old(self).peers.peers@,
            final(self).peers.peers_count == old(self).peers.peers_count,
            final(self).participants == old(self).participants,
            final(self).id == old(self).id,
            old(self).peers.tracks_count.count <= final(self).peers.tracks_count.count,
            r@.len() == 2 * (n_out + n_in),
            forall|j: int| 0 <= j < 2 * n_out ==> (#[trigger] r@[j]).direction == Direction::Send,
            forall|j: int| 2 * n_out <= j < r@.len() ==> (#[trigger] r@[j]).direction == Direction::Recv,
    {
        let mut out: Vec<MediaTrack> = Vec::new();
        let mut k: usize = 0;
        while k < n_out
            invariant
                0 <= k <= n_out,
                out@.len() == 2 * k,
                self.peers.wf(),
                self.peers.peers@ == old(self).peers.peers@,
                self.peers.peers_count == old(self).peers.peers_count,
                self.participants == old(self).participants,
                self.id == old(self).id,
                old(self).peers.tracks_count.count <= self.peers.tracks_count.count,
                self.peers.tracks_count.count <= old(self).peers.tracks_count.count + 2 * k,
                old(self).peers.tracks_count.count + 2 * (n_out + n_in) <= u32::MAX,
                forall|j: int| 0 <= j < out@.len() ==> (#[trigger] out@[j]).direction == Direction::Send,
            decreases n_out - k,
        {
            let a = self.peers.next_track_id();
            let v = self.peers.next_track_id();
            out.push(MediaTrack { id: a, direction: Direction::Send, media_type: MediaType::Audio });
            out.push(MediaTrack { id: v, direction: Direction::Send, media_type: MediaType::Video });
            k = k + 1;
        }
        let mut k: usize = 0;
        while k < n_in
            invariant
                0 <= k <= n_in,
                out@.len() == 2 * n_out + 2 * k,
                self.peers.wf(),
                self.peers.peers@ == old(self).peers.peers@,
                self.peers.peers_count == old(self).peers.peers_count,
                self.participants == old(self).participants,
                self.id == old(self).id,
                old(self).peers.tracks_count.count <= self.peers.tracks_count.count,
                self.peers.tracks_count.count <= old(self).peers.tracks_count.count + 2 * n_out + 2 * k,
                old(self).peers.tracks_count.count + 2 * (n_out + n_in) <= u32::MAX,
                forall|j: int| 0 <= j < 2 * n_out ==> (#[trigger] out@[j]).direction == Direction::Send,
                forall|j: int| 2 * n_out <= j < out@.len() ==> (#[trigger] out@[j]).direction == Direction::Recv,
            decreases n_in - k,
        {
            let a = self.peers.next_track_id();
            let v = self.peers.next_track_id();
            out.push(MediaTrack { id: a, direction: Direction::Recv, media_type: MediaType::Audio });
            out.push(MediaTrack { id: v, direction: Direction::Recv, media_type: MediaType::Video });
            k = k + 1;
        }
        out
    }

    /// Counts the play endpoints of `spec` that are sourced at member
    /// `src_member` of room `room` and whose named publish endpoint
    /// `src_spec` still declares.
    fn count_plays_from(
        spec: &crate::member::MemberSpec,
        src_member: &MemberId,
        src_spec: &crate::member::MemberSpec,
        room: &RoomId,
    ) -> (r: usize)
        ensures
            r <= spec.pipeline@.len(),
            r == resolved_plays_count(spec.pipeline@, src_member@, src_spec.pipeline@, room@),
    {
        let mut n: usize = 0;
        let mut e: usize = 0;
        while e < spec.pipeline.len()
            invariant
                0 <= e <= spec.pipeline@.len(),
                n <= e,
                n == resolved_plays_count(
                    spec.pipeline@.subrange(0, e as int),
                    src_member@,
                    src_spec.pipeline@,
                    room@,
                ),
            decreases spec.pipeline@.len() - e,
        {
            let ghost prefix = spec.pipeline@.subrange(0, e as int);
            let ghost extended = spec.pipeline@.subrange(0, e + 1);
            let mut hit = false;
            if let crate::member::MemberElement::WebRtcPlayEndpoint { spec: play } = &spec.pipeline[e].1 {
                if play.src.member_id.0 == src_member.0 && play.src.room_id.0 == room.0 {
                    let mut f: usize = 0;
                    let mut declared = false;
                    while f < src_spec.pipeline.len()
                        invariant
                            0 <= f <= src_spec.pipeline@.len(),
                            declared == exists|g: int|
                                0 <= g < f && (#[trigger] src_spec.pipeline@[g]).0@ == play.src.endpoint_id@
                                    && src_spec.pipeline@[g].1 is WebRtcPublishEndpoint,
                        decreases src_spec.pipeline@.len() - f,
                    {
                        if src_spec.pipeline[f].0.0 == play.src.endpoint_id.0 && matches!(
                            src_spec.pipeline[f].1,
                            crate::member::MemberElement::WebRtcPublishEndpoint { .. },
                        ) {
                            declared = true;
                            proof {
                                assert(0 <= f < src_spec.pipeline@.len() && src_spec.pipeline@[f as int].0@
                                    == play.src.endpoint_id@ && src_spec.pipeline@[f as int].1
                                    is WebRtcPublishEndpoint);
                            }
                        }
                        f = f + 1;
                    }
                    if declared {
                        n = n + 1;
                        hit = true;
                    }
                    proof {
                        assert(declared == crate::room_spec::publish_key_in(
                            src_spec.pipeline@,
                            play.src@.endpoint,
                        ));
                    }
                }
            }
            proof {
                assert(extended.drop_last() =~= prefix);
                assert(extended[e as int] == spec.pipeline@[e as int]);
                assert(resolved_play_at(extended, e as int, src_member@, src_spec.pipeline@, room@)
                    == resolved_play_at(spec.pipeline@, e as int, src_member@, src_spec.pipeline@, room@));
                assert(hit == resolved_play_at(spec.pipeline@, e as int, src_member@, src_spec.pipeline@, room@));
            }
            e = e + 1;
        }
        proof {
            assert(spec.pipeline@.subrange(0, spec.pipeline@.len() as int) =~= spec.pipeline@);
        }
        n
    }

    /// Joins `<room>/<member>` into a full identifier for callbacks.
    fn make_fid(&self, member_id: &MemberId) -> (r: String)
        ensures
            r@ == self.id@ + seq!['/'] + member_id@,
    {
        proof {
            reveal_strlit("/");
        }
        let mut out = self.id.0.clone();
        out.append("/");
        out.append(member_id.0.as_str());
        proof {
            assert(r"/"@ =~= seq!['/']) by {
                reveal_strlit("/");
            }
        }
        out
    }

    /// Binds a member's fresh connection, closing any replaced one, fires
    /// its `on_join` callback, and interconnects the member with every
    /// connected partner it shares a resolved endpoint relation with and
    /// has no peer pair with yet: each such pair is created mirrored and
    /// its offerer asked for an offer.  Fails only for an unknown member.
    pub fn handle_rpc_connection_established(&mut self, member_id: &MemberId, connection: RpcConnection) -> (r: Result<
        Vec<Action>,
        RoomError,
    >)
        requires
            old(self).wf(),
        ensures
            final(self).wf(),
            final(self).id@ == old(self).id@,
            final(self).participants.reconnect_timeout == old(self).participants.reconnect_timeout,
            match r {
                Ok(actions) => {
                    &&& has_member_id(old(self).participants.members@, member_id@)
                    &&& ({
                        let ms = old(self).participants.members@;
                        let i = member_index(ms, member_id@);
                        &&& final(self).participants.members@ == ms.update(
                            i,
                            Member { connection: Some(connection), reconnect_deadline: None, ..ms[i] },
                        )
                        &&& (ms[i].connection matches Some(c) ==> actions@.contains(
                            Action::CloseConnection { connection: c.handle, reason: CloseReason::Replaced },
                        ))
                        &&& (ms[i].connection is None ==> forall|k: int|
                            0 <= k < actions@.len() ==> !((#[trigger] actions@[k]) is CloseConnection))
                        &&& (ms[i].spec.on_join is Some ==> exists|k: int|
                            0 <= k < actions@.len() && ((#[trigger] actions@[k]) matches Action::OnJoin { fid }
                                && fid@ == old(self).id@ + seq!['/'] + member_id@))
                    })
                    &&& forall|x: PeerStateMachine|
                        #[trigger] old(self).peers.peers@.contains(x) ==> final(self).peers.peers@.contains(x)
                    &&& forall|j: int|
                        #![trigger old(self).participants.members@[j]]
                        needs_pair(
                            old(self).participants.members@,
                            old(self).peers.peers@,
                            old(self).id@,
                            member_id@,
                            j,
                        ) ==> ({
                            let ms = old(self).participants.members@;
                            let mi = member_index(ms, member_id@);
                            let n1 = resolved_plays_count(
                                ms[j].spec.pipeline@,
                                member_id@,
                                ms[mi].spec.pipeline@,
                                old(self).id@,
                            );
                            let n2 = resolved_plays_count(
                                ms[mi].spec.pipeline@,
                                ms[j].id@,
                                ms[j].spec.pipeline@,
                                old(self).id@,
                            );
                            ||| (pair_between(final(self).peers.peers@, ms[j].id@, member_id@)
                                && peer_created_event_for(actions@, member_id@, ms[j].id@))
                            ||| final(self).peers.tracks_count.count + 2 * (n1 + n2) > u32::MAX
                            ||| final(self).peers.peers_count.count + 2 > u32::MAX
                        })
                },
                Err(e) => {
                    &&& *final(self) == *old(self)
                    &&& e is MemberNotFound
                    &&& !has_member_id(old(self).participants.members@, member_id@)
                },
            },
    {
        let ghost old_members = self.participants.members@;
        let ghost old_peers_list = self.peers.peers@;
        // Read-only phase: find the partners to interconnect with.
        let me = match self.participants.get_member_by_id(member_id) {
            Some(m) => m,
            None => {
                return Err(RoomError::MemberNotFound(member_id.clone()));
            }
        };
        let ghost mi = member_index(old(self).participants.members@, member_id@);
        proof {
            let i = choose|i: int|
                0 <= i < old_members.len() && #[trigger] old_members[i] == *me && me.id@ == member_id@;
            if i != mi {
                crate::participants::lemma_member_ids_distinct(old_members, i, mi);
            }
        }
        let my_on_join = match me.spec.on_join() {
            Some(u) => Some(u.clone()),
            None => None,
        };
        let mut eligible: Vec<(MemberId, usize, usize)> = Vec::new();
        let mut b: usize = 0;
        while b < self.participants.members.len()
            invariant
                0 <= b <= self.participants.members@.len(),
                self.wf(),
                *self == *old(self),
                old_members == old(self).participants.members@,
                old_peers_list == old(self).peers.peers@,
                has_member_id(old_members, member_id@),
                mi == member_index(old_members, member_id@),
                forall|k: int|
                    0 <= k < eligible@.len() ==> (#[trigger] eligible@[k]).0@ != member_id@ && eligible@[k].1
                        + eligible@[k].2 > 0,
                forall|j: int|
                    0 <= j < b && needs_pair(old_members, old_peers_list, old(self).id@, member_id@, j)
                        ==> eligible_listed(
                        eligible@,
                        (#[trigger] old_members[j]).id@,
                        resolved_plays_count(
                            old_members[j].spec.pipeline@,
                            member_id@,
                            old_members[mi].spec.pipeline@,
                            old(self).id@,
                        ),
                        resolved_plays_count(
                            old_members[mi].spec.pipeline@,
                            old_members[j].id@,
                            old_members[j].spec.pipeline@,
                            old(self).id@,
                        ),
                    ),
            decreases self.participants.members@.len() - b,
        {
            let ghost prev_eligible = eligible@;
            let other = &self.participants.members[b];
            if !(other.id.0 == member_id.0) && other.connection.is_some() {
                if self.peers.get_peer_by_members_ids(member_id, &other.id).is_none() {
                    let me2 = match self.participants.get_member_by_id(member_id) {
                        Some(m) => m,
                        None => {
                            proof {
                                assert(false);
                            }
                            return Err(RoomError::MemberNotFound(member_id.clone()));
                        }
                    };
                    proof {
                        let i = choose|i: int|
                            0 <= i < old_members.len() && #[trigger] old_members[i] == *me2 && me2.id@ == member_id@;
                        if i != mi {
                            crate::participants::lemma_member_ids_distinct(old_members, i, mi);
                        }
                        assert(*me2 == old_members[mi]);
                    }
                    let n_out = Self::count_plays_from(&other.spec, member_id, &me2.spec, &self.id);
                    let n_in = Self::count_plays_from(&me2.spec, &other.id, &other.spec, &self.id);
                    if n_out > 0 || n_in > 0 {
                        eligible.push((self.participants.members[b].id.clone(), n_out, n_in));
                        proof {
                            assert(eligible@[prev_eligible.len() as int].0@ == old_members[b as int].id@);
                        }
                    }
                }
            }
            proof {
                assert forall|j: int|
                    0 <= j < b + 1 && needs_pair(old_members, old_peers_list, old(self).id@, member_id@, j)
                        implies eligible_listed(
                        eligible@,
                        (#[trigger] old_members[j]).id@,
                        resolved_plays_count(
                            old_members[j].spec.pipeline@,
                            member_id@,
                            old_members[mi].spec.pipeline@,
                            old(self).id@,
                        ),
                        resolved_plays_count(
                            old_members[mi].spec.pipeline@,
                            old_members[j].id@,
                            old_members[j].spec.pipeline@,
                            old(self).id@,
                        ),
                    ) by {
                    if j < b {
                        let q = old_members[j].id@;
                        let n1 = resolved_plays_count(
                            old_members[j].spec.pipeline@,
                            member_id@,
                            old_members[mi].spec.pipeline@,
                            old(self).id@,
                        );
                        let n2 = resolved_plays_count(
                            old_members[mi].spec.pipeline@,
                            old_members[j].id@,
                            old_members[j].spec.pipeline@,
                            old(self).id@,
                        );
                        assert(eligible_listed(prev_eligible, q, n1, n2));
                        let k = choose|k: int|
                            0 <= k < prev_eligible.len() && (#[trigger] prev_eligible[k]).0@ == q
                                && prev_eligible[k].1 == n1 && prev_eligible[k].2 == n2;
                        assert(eligible@[k] == prev_eligible[k]);
                    }
                }
            }
            b = b + 1;
        }
        let ghost eligible_list = eligible@;

        // Mutation phase: bind the connection, then build each pair.
        let mut actions: Vec<Action> = Vec::new();
        let replaced = match self.participants.connection_established(member_id, connection) {
            Ok(rep) => rep,
            Err(_) => {
                proof {
                    assert(false);
                }
                return Err(RoomError::MemberNotFound(member_id.clone()));
            }
        };
        if let Some(c) = replaced {
            actions.push(Action::CloseConnection { connection: c.handle, reason: CloseReason::Replaced });
            proof {
                assert(actions@[0] == Action::CloseConnection {
                    connection: old_members[mi].connection->0.handle,
                    reason: CloseReason::Replaced,
                });
                assert(actions@.contains(
                    Action::CloseConnection {
                        connection: old_members[mi].connection->0.handle,
                        reason: CloseReason::Replaced,
                    },
                ));
            }
        }
        if my_on_join.is_some() {
            let ghost pre_actions = actions@;
            actions.push(Action::OnJoin { fid: self.make_fid(member_id) });
            proof {
                assert(actions@[pre_actions.len() as int] matches Action::OnJoin { fid }
                    && fid@ == old(self).id@ + seq!['/'] + member_id@);
                if old_members[mi].connection is Some {
                    let act = Action::CloseConnection {
                        connection: old_members[mi].connection->0.handle,
                        reason: CloseReason::Replaced,
                    };
                    let k = choose|k: int| 0 <= k < pre_actions.len() && pre_actions[k] == act;
                    assert(actions@[k] == act);
                    assert(actions@.contains(act));
                }
                if old_members[mi].connection is None {
                    assert forall|k: int| 0 <= k < actions@.len() implies !((#[trigger] actions@[k])
                        is CloseConnection) by {
                        if k < pre_actions.len() {
                            assert(actions@[k] == pre_actions[k]);
                        }
                    }
                }
            }
        }
        let ghost bound_members = self.participants.members@;

        let mut e: usize = 0;
        while e < eligible.len()
            invariant
                0 <= e <= eligible@.len(),
                old(self).wf(),
                old_members == old(self).participants.members@,
                old_peers_list == old(self).peers.peers@,
                has_member_id(old_members, member_id@),
                mi == member_index(old_members, member_id@),
                eligible@ == eligible_list,
                self.participants.wf(),
                self.peers.wf(),
                paired(self.peers.peers@),
                distinct_sides(self.peers.peers@),
                self.participants.members@ == bound_members,
                self.participants.reconnect_timeout == old(self).participants.reconnect_timeout,
                self.id@ == old(self).id@,
                old(self).peers.peers_count.count <= self.peers.peers_count.count,
                old(self).peers.tracks_count.count <= self.peers.tracks_count.count,
                forall|x: PeerStateMachine|
                    #[trigger] old(self).peers.peers@.contains(x) ==> self.peers.peers@.contains(x),
                forall|k: int|
                    0 <= k < eligible@.len() ==> (#[trigger] eligible@[k]).0@ != member_id@ && eligible@[k].1
                        + eligible@[k].2 > 0,
                old_members[mi].connection matches Some(c) ==> actions@.contains(
                    Action::CloseConnection { connection: c.handle, reason: CloseReason::Replaced },
                ),
                old_members[mi].connection is None ==> forall|k: int|
                    0 <= k < actions@.len() ==> !((#[trigger] actions@[k]) is CloseConnection),
                old_members[mi].spec.on_join is Some ==> exists|k: int|
                    0 <= k < actions@.len() && ((#[trigger] actions@[k]) matches Action::OnJoin { fid } && fid@
                        == old(self).id@ + seq!['/'] + member_id@),
                forall|k: int|
                    0 <= k < e ==> pair_done(
                        #[trigger] eligible@[k],
                        self.peers.peers@,
                        self.peers.tracks_count.count,
                        self.peers.peers_count.count,
                        actions@,
                        member_id@,
                    ),
            decreases eligible@.len() - e,
        {
            let ghost entry = eligible@[e as int];
            let ghost pre_state_peers = self.peers.peers@;
            let ghost pre_state_tracks = self.peers.tracks_count.count;
            let ghost pre_state_pc = self.peers.peers_count.count;
            let ghost pre_state_actions = actions@;
            let n_out = eligible[e].1;
            let n_in = eligible[e].2;
            let tracks_room = n_out <= 0x7FFF_FFFFusize && n_in <= 0x7FFF_FFFFusize
                && (self.peers.tracks_count.count as u64) + 2 * ((n_out as u64) + (n_in as u64))
                <= (u32::MAX as u64);
            let peers_room = self.peers.peers_count.count <= u32::MAX - 2;
            if tracks_room && peers_room {
                // The partner's outbound tracks are the ones this member
                // plays from it, and vice versa.
                let partner_tracks = self.build_tracks(n_in, n_out);
                let ghost pre_pairs = self.peers.peers@;
                let partner_id = eligible[e].0.clone();
                let (p1, p2) = self.peers.create_peers(&partner_id, member_id, partner_tracks);
                proof {
                    let s2 = self.peers.peers@;
                    assert(s2.len() == pre_pairs.len() + 2);
                    let m1 = s2[pre_pairs.len() as int];
                    let m2 = s2[pre_pairs.len() as int + 1];
                    assert(m1.context().id == p1 && m2.context().id == p2);
                    assert forall|j: int| 0 <= j < s2.len() implies ctx_linked(s2, (#[trigger] s2[j]).context()) by {
                        reveal(ctx_linked);
                        if j < pre_pairs.len() {
                            assert(s2[j] == pre_pairs[j]);
                            reveal(paired);
                            assert(ctx_linked(pre_pairs, pre_pairs[j].context()));
                            let k = choose|k: int|
                                0 <= k < pre_pairs.len() && partner_ctx_ok(
                                    pre_pairs[j].context(),
                                    (#[trigger] pre_pairs[k]).context(),
                                );
                            assert(s2[k] == pre_pairs[k]);
                        } else if j == pre_pairs.len() {
                            assert(partner_ctx_ok(m1.context(), m2.context())) by {
                                reveal(crate::peer::tracks_mirrored);
                            }
                        } else {
                            assert(partner_ctx_ok(m2.context(), m1.context())) by {
                                reveal(crate::peer::tracks_mirrored);
                                crate::peer::lemma_tracks_mirrored_symmetric(
                                    m1.context().tracks@,
                                    m2.context().tracks@,
                                );
                            }
                        }
                    }
                    assert(paired(s2)) by {
                        reveal(paired);
                    }
                    assert forall|j: int|
                        0 <= j < s2.len() implies member_of(#[trigger] s2[j]) != partner_member_of(s2[j]) by {
                        reveal(distinct_sides);
                        if j < pre_pairs.len() {
                            assert(s2[j] == pre_pairs[j]);
                        } else {
                            assert(member_of(s2[j]) == partner_id@ || member_of(s2[j]) == member_id@);
                            assert(!(partner_id@ == member_id@));
                        }
                    }
                    assert(distinct_sides(s2)) by {
                        reveal(distinct_sides);
                    }
                    lemma_push_contains(pre_pairs, m1);
                    lemma_push_contains(pre_pairs.push(m1), m2);
                    assert(s2 =~= pre_pairs.push(m1).push(m2));
                }
                let ghost s2 = self.peers.peers@;
                let ghost pre_actions = actions@;
                match self.connect_peers(p1, p2) {
                    Ok((to, ev)) => {
                        let ghost gto = to;
                        let ghost gev = ev;
                        actions.push(Action::SendEvent { member_id: to, event: ev });
                        proof {
                            let m1 = s2[pre_pairs.len() as int];
                            let m2 = s2[pre_pairs.len() as int + 1];
                            assert forall|x: PeerStateMachine|
                                #[trigger] old(self).peers.peers@.contains(x) implies self.peers.peers@.contains(
                                x,
                            ) by {
                                assert(pre_pairs.contains(x));
                                assert(s2.contains(x));
                                assert(x.context().id.0 < old(self).peers.peers_count.count);
                                assert(x.context().id != p1 && x.context().id != p2);
                            }
                            assert(actions@ == pre_actions.push(
                                Action::SendEvent { member_id: gto, event: gev },
                            ));
                            // The fresh pair stands and its event is queued.
                            lemma_peer_in(s2, m1, p1);
                            lemma_peer_in(s2, m2, p2);
                            let new_peers = self.peers.peers@;
                            assert(has_peer_id(new_peers, p1));
                            let w1 = choose|w: int|
                                0 <= w < new_peers.len() && (#[trigger] new_peers[w]).context().id == p1;
                            assert(new_peers[w1] == peer_in(new_peers, p1));
                            match gev {
                                Event::PeerCreated { peer_id: offerer, sdp_offer, .. } => {
                                    assert(sdp_offer is None);
                                    if offerer == p1 {
                                        assert(peer_in(new_peers, p1).context() == m1.context());
                                        assert(gto@ == peer_in(s2, p1).context().member_id@);
                                        assert(gto@ == entry.0@);
                                    } else {
                                        assert(offerer == p2);
                                        assert(peer_in(new_peers, p1) == peer_in(s2, p1));
                                        assert(gto@ == peer_in(s2, p2).context().member_id@);
                                        assert(gto@ == member_id@);
                                    }
                                }
                                _ => {
                                    assert(false);
                                }
                            }
                            assert(member_of(new_peers[w1]) == entry.0@ && partner_member_of(new_peers[w1])
                                == member_id@);
                            assert(pair_between(new_peers, entry.0@, member_id@));
                            assert((actions@[pre_actions.len() as int] matches Action::SendEvent {
                                member_id: to2,
                                event: ev2,
                            } && (ev2 matches Event::PeerCreated { sdp_offer, .. } && sdp_offer is None) && (to2@
                                == member_id@ || to2@ == entry.0@)));
                            assert(peer_created_event_for(actions@, member_id@, entry.0@));
                            assert(pair_done(
                                eligible@[e as int],
                                self.peers.peers@,
                                self.peers.tracks_count.count,
                                self.peers.peers_count.count,
                                actions@,
                                member_id@,
                            ));
                            if old_members[mi].connection is Some {
                                let c = old_members[mi].connection->0;
                                let act = Action::CloseConnection {
                                    connection: c.handle,
                                    reason: CloseReason::Replaced,
                                };
                                let k = choose|k: int| 0 <= k < pre_actions.len() && pre_actions[k] == act;
                                assert(actions@[k] == act);
                            }
                            assert forall|k: int|
                                0 <= k < actions@.len() && old_members[mi].connection is None implies !((
                            #[trigger] actions@[k]) is CloseConnection) by {
                                if k < pre_actions.len() {
                                    assert(actions@[k] == pre_actions[k]);
                                }
                            }
                            if old_members[mi].spec.on_join is Some {
                                let k = choose|k: int|
                                    0 <= k < pre_actions.len() && ((#[trigger] pre_actions[k]) matches
                                        Action::OnJoin { fid } && fid@ == old(self).id@ + seq!['/'] + member_id@);
                                assert(actions@[k] == pre_actions[k]);
                            }
                            // Earlier entries stay discharged: their pairs
                            // and events survive this iteration.
                            assert forall|k: int|
                                0 <= k < e implies pair_done(
                                #[trigger] eligible@[k],
                                self.peers.peers@,
                                self.peers.tracks_count.count,
                                self.peers.peers_count.count,
                                actions@,
                                member_id@,
                            ) by {
                                assert(pair_done(
                                    eligible@[k],
                                    pre_state_peers,
                                    pre_state_tracks,
                                    pre_state_pc,
                                    pre_state_actions,
                                    member_id@,
                                ));
                                if pair_between(pre_state_peers, eligible@[k].0@, member_id@)
                                    && peer_created_event_for(pre_state_actions, member_id@, eligible@[k].0@) {
                                    let i = choose|i: int|
                                        0 <= i < pre_state_peers.len() && member_of(
                                            #[trigger] pre_state_peers[i],
                                        ) == eligible@[k].0@ && partner_member_of(pre_state_peers[i])
                                            == member_id@;
                                    let x = pre_state_peers[i];
                                    assert(pre_state_peers.contains(x));
                                    assert(pre_pairs.contains(x));
                                    assert(s2.contains(x));
                                    assert(x.context().id.0 < pre_state_pc);
                                    assert(x.context().id != p1 && x.context().id != p2);
                                    assert(self.peers.peers@.contains(x));
                                    let i2 = choose|i2: int|
                                        0 <= i2 < self.peers.peers@.len() && self.peers.peers@[i2] == x;
                                    assert(pair_between(self.peers.peers@, eligible@[k].0@, member_id@));
                                    let a = choose|a: int|
                                        0 <= a < pre_state_actions.len() && ((
                                        #[trigger] pre_state_actions[a]) matches Action::SendEvent {
                                            member_id: to3,
                                            event: ev3,
                                        } && (ev3 matches Event::PeerCreated { sdp_offer, .. } && sdp_offer
                                            is None) && (to3@ == member_id@ || to3@ == eligible@[k].0@));
                                    assert(actions@[a] == pre_state_actions[a]);
                                    assert(peer_created_event_for(actions@, member_id@, eligible@[k].0@));
                                }
                            }
                        }
                    }
                    Err(_) => {
                        proof {
                            // Unreachable: the fresh pair meets every
                            // condition under which `connect_peers`
                            // guarantees success.
                            let m1 = s2[pre_pairs.len() as int];
                            let m2 = s2[pre_pairs.len() as int + 1];
                            lemma_peer_in(s2, m1, p1);
                            lemma_peer_in(s2, m2, p2);
                            assert(m1.context().tracks@ == partner_tracks@);
                            if n_in > 0 {
                                assert(m1.context().tracks@[0].direction == Direction::Send);
                                assert(crate::peer::ctx_sends(m1.context()));
                            } else {
                                assert(n_out > 0);
                                assert(m1.context().tracks@[0].direction == Direction::Recv);
                                assert(m2.context().tracks@.len() == m1.context().tracks@.len()
                                    && m2.context().tracks@[0] == m1.context().tracks@[0].spec_mirrored()) by {
                                    reveal(crate::peer::tracks_mirrored);
                                }
                                assert(m2.context().tracks@[0].direction == Direction::Send);
                                assert(crate::peer::ctx_sends(m2.context())) by {
                                    assert(0 < m2.context().tracks@.len() && m2.context().tracks@[0].direction
                                        == Direction::Send);
                                }
                            }
                            assert(false);
                        }
                    }
                }
            } else {
                proof {
                    if n_out > 0x7FFF_FFFFusize || n_in > 0x7FFF_FFFFusize {
                        assert(2 * (entry.1 + entry.2) > u32::MAX);
                    }
                    assert(pair_done(
                        eligible@[e as int],
                        self.peers.peers@,
                        self.peers.tracks_count.count,
                        self.peers.peers_count.count,
                        actions@,
                        member_id@,
                    ));
                }
            }
            e = e + 1;
        }
        proof {
            assert forall|j: int|
                needs_pair(old_members, old_peers_list, old(self).id@, member_id@, j) implies ({
                    let n1 = resolved_plays_count(
                        (#[trigger] old_members[j]).spec.pipeline@,
                        member_id@,
                        old_members[mi].spec.pipeline@,
                        old(self).id@,
                    );
                    let n2 = resolved_plays_count(
                        old_members[mi].spec.pipeline@,
                        old_members[j].id@,
                        old_members[j].spec.pipeline@,
                        old(self).id@,
                    );
                    ||| (pair_between(self.peers.peers@, old_members[j].id@, member_id@)
                        && peer_created_event_for(actions@, member_id@, old_members[j].id@))
                    ||| self.peers.tracks_count.count + 2 * (n1 + n2) > u32::MAX
                    ||| self.peers.peers_count.count + 2 > u32::MAX
                }) by {
                let n1 = resolved_plays_count(
                    old_members[j].spec.pipeline@,
                    member_id@,
                    old_members[mi].spec.pipeline@,
                    old(self).id@,
                );
                let n2 = resolved_plays_count(
                    old_members[mi].spec.pipeline@,
                    old_members[j].id@,
                    old_members[j].spec.pipeline@,
                    old(self).id@,
                );
                assert(eligible_listed(eligible_list, old_members[j].id@, n1, n2));
                let k = choose|k: int|
                    0 <= k < eligible_list.len() && (#[trigger] eligible_list[k]).0@ == old_members[j].id@
                        && eligible_list[k].1 == n1 && eligible_list[k].2 == n2;
                assert(pair_done(
                    eligible_list[k],
                    self.peers.peers@,
                    self.peers.tracks_count.count,
                    self.peers.peers_count.count,
                    actions@,
                    member_id@,
                ));
            }
        }
        Ok(actions)
    }

    /// Handles a member's connection going away.  `Disconnect` and `Idle`
    /// keep the member's peers and start its reconnect grace; a final
    /// `Closed` tears down all its peers and their partners, telling each
    /// affected partner which of its own peers are gone, and fires the
    /// member's `on_leave` callback.
    pub fn handle_rpc_connection_closed(&mut self, member_id: &MemberId, reason: ClosedReason, now: u64) -> (actions:
        Vec<Action>)
        requires
            old(self).wf(),
        ensures
            final(self).wf(),
            final(self).id@ == old(self).id@,
            final(self).participants.reconnect_timeout == old(self).participants.reconnect_timeout,
            !has_member_id(old(self).participants.members@, member_id@) ==> *final(self) == *old(self)
                && actions@.len() == 0,
            has_member_id(old(self).participants.members@, member_id@) ==> ({
                let i = member_index(old(self).participants.members@, member_id@);
                let deadline = if now <= u64::MAX - old(self).participants.spec_reconnect_timeout_of(i) {
                    (now + old(self).participants.spec_reconnect_timeout_of(i)) as u64
                } else {
                    u64::MAX
                };
                final(self).participants.members@ == old(self).participants.members@.update(
                    i,
                    Member {
                        connection: None,
                        reconnect_deadline: if reason is Closed {
                            None
                        } else {
                            Some(deadline)
                        },
                        ..old(self).participants.members@[i]
                    },
                )
            }),
            !(reason is Closed) ==> final(self).peers == old(self).peers,
            reason is Closed && has_member_id(old(self).participants.members@, member_id@) ==> ({
                &&& forall|j: int|
                    0 <= j < final(self).peers.peers@.len() ==> !crate::peers::involves(
                        #[trigger] final(self).peers.peers@[j],
                        member_id@,
                    ) && old(self).peers.peers@.contains(final(self).peers.peers@[j])
                &&& forall|x: PeerStateMachine|
                    old(self).peers.peers@.contains(x) && !crate::peers::involves(x, member_id@) ==> final(self).peers.peers@.contains(x)
            }),
            forall|k: int|
                0 <= k < actions@.len() ==> (#[trigger] actions@[k]) is SendEvent || actions@[k] is OnLeave,
            forall|k: int|
                0 <= k < actions@.len() ==> ((#[trigger] actions@[k]) matches Action::SendEvent { event, .. }
                    ==> event is PeersRemoved),
            reason is Closed && has_member_id(old(self).participants.members@, member_id@)
                ==> partner_removal_notified(actions@, old(self).peers.peers@, member_id@),
    {
        let mut actions: Vec<Action> = Vec::new();
        let present = match self.participants.get_member_by_id(member_id) {
            Some(_) => true,
            None => false,
        };
        if !present {
            return actions;
        }
        let on_leave = match self.participants.get_member_by_id(member_id) {
            Some(m) => m.spec.on_leave().is_some(),
            None => false,
        };
        let _ = self.participants.connection_closed(member_id, reason, now);
        if matches!(reason, ClosedReason::Closed) {
            let ghost old_p = self.peers.peers@;
            let groups = self.peers.connection_closed(member_id);
            proof {
                let new_p = self.peers.peers@;
                assert forall|j: int|
                    0 <= j < new_p.len() implies ctx_linked(new_p, (#[trigger] new_p[j]).context()) by {
                    reveal(ctx_linked);
                    reveal(paired);
                    let x = new_p[j];
                    assert(old_p.contains(x));
                    let i = choose|i: int| 0 <= i < old_p.len() && old_p[i] == x;
                    assert(ctx_linked(old_p, old_p[i].context()));
                    let k = choose|k: int|
                        0 <= k < old_p.len() && partner_ctx_ok(x.context(), (#[trigger] old_p[k]).context());
                    let y = old_p[k];
                    assert(crate::peers::member_of(y) == crate::peers::partner_member_of(x));
                    assert(crate::peers::partner_member_of(y) == crate::peers::member_of(x));
                    assert(!crate::peers::involves(y, member_id@));
                    assert(new_p.contains(y));
                    let l = choose|l: int| 0 <= l < new_p.len() && new_p[l] == y;
                    assert(partner_ctx_ok(x.context(), new_p[l].context()));
                }
                assert(paired(self.peers.peers@)) by {
                    reveal(paired);
                }
                assert forall|j: int|
                    0 <= j < self.peers.peers@.len() implies member_of(#[trigger] self.peers.peers@[j])
                        != partner_member_of(self.peers.peers@[j]) by {
                    reveal(distinct_sides);
                    let x = self.peers.peers@[j];
                    assert(old_p.contains(x));
                    let i = choose|i: int| 0 <= i < old_p.len() && old_p[i] == x;
                    assert(member_of(old_p[i]) != partner_member_of(old_p[i]));
                }
                assert(distinct_sides(self.peers.peers@)) by {
                    reveal(distinct_sides);
                }
            }
            let mut g: usize = 0;
            while g < groups.len()
                invariant
                    0 <= g <= groups@.len(),
                    actions@.len() == g,
                    forall|k: int|
                        0 <= k < actions@.len() ==> ((#[trigger] actions@[k]) matches Action::SendEvent {
                            event,
                            ..
                        } && event is PeersRemoved),
                    forall|k: int|
                        0 <= k < g ==> ((#[trigger] actions@[k]) matches Action::SendEvent {
                            member_id: to,
                            event,
                        } && to@ == groups@[k].0@ && (event matches Event::PeersRemoved { peer_ids } && peer_ids@
                            == groups@[k].1@)),
                decreases groups@.len() - g,
            {
                let ghost prev_actions = actions@;
                let (mem, ids) = &groups[g];
                let mut peer_ids: Vec<PeerId> = Vec::new();
                let mut t: usize = 0;
                while t < ids.len()
                    invariant
                        0 <= t <= ids@.len(),
                        peer_ids@ == ids@.subrange(0, t as int),
                    decreases ids@.len() - t,
                {
                    peer_ids.push(ids[t]);
                    proof {
                        assert(peer_ids@ =~= ids@.subrange(0, t + 1));
                    }
                    t = t + 1;
                }
                proof {
                    assert(peer_ids@ =~= ids@);
                }
                actions.push(
                    Action::SendEvent {
                        member_id: mem.clone(),
                        event: Event::PeersRemoved { peer_ids },
                    },
                );
                proof {
                    assert forall|k: int|
                        0 <= k < g + 1 implies ((#[trigger] actions@[k]) matches Action::SendEvent {
                            member_id: to,
                            event,
                        } && to@ == groups@[k].0@ && (event matches Event::PeersRemoved { peer_ids } && peer_ids@
                            == groups@[k].1@)) by {
                        if k < g {
                            assert(actions@[k] == prev_actions[k]);
                        }
                    }
                }
                g = g + 1;
            }
            let ghost pre_leave_actions = actions@;
            if on_leave {
                actions.push(
                    Action::OnLeave { fid: self.make_fid(member_id), reason: OnLeaveReason::LostConnection },
                );
            }
            proof {
                assert forall|x: PeerStateMachine|
                    old_p.contains(x) && crate::peers::partner_member_of(x) == member_id@ && crate::peers::member_of(
                        x,
                    ) != member_id@ implies peers_removed_event_for(
                    actions@,
                    crate::peers::member_of(x),
                    x.context().id,
                ) by {
                    assert(crate::peers::grouped(groups@, x));
                    let gi = choose|gi: int|
                        0 <= gi < groups@.len() && (#[trigger] groups@[gi]).0@ == crate::peers::member_of(x)
                            && groups@[gi].1@.contains(x.context().id);
                    assert(pre_leave_actions[gi] matches Action::SendEvent { member_id: to, event } && to@
                        == groups@[gi].0@ && (event matches Event::PeersRemoved { peer_ids } && peer_ids@
                        == groups@[gi].1@));
                    assert(actions@[gi] == pre_leave_actions[gi]);
                }
                assert(partner_removal_notified(actions@, old_p, member_id@));
            }
        }
        actions
    }

    /// Fires when a member's reconnect grace may have elapsed: if it has,
    /// the member is finally closed and its peers are torn down; otherwise
    /// nothing changes.
    pub fn handle_reconnect_timeout(&mut self, member_id: &MemberId, now: u64) -> (actions: Vec<Action>)
        requires
            old(self).wf(),
        ensures
            final(self).wf(),
            final(self).id@ == old(self).id@,
            ({
                let ms = old(self).participants.members@;
                !(has_member_id(ms, member_id@) && (ms[member_index(ms, member_id@)].reconnect_deadline matches Some(
                    d,
                ) && now >= d)) ==> *final(self) == *old(self) && actions@.len() == 0
            }),
            ({
                let ms = old(self).participants.members@;
                (has_member_id(ms, member_id@) && (ms[member_index(ms, member_id@)].reconnect_deadline matches Some(
                    dd,
                ) && now >= dd)) ==> partner_removal_notified(actions@, old(self).peers.peers@, member_id@)
            }),
            ({
                let ms = old(self).participants.members@;
                (has_member_id(ms, member_id@) && (ms[member_index(ms, member_id@)].reconnect_deadline matches Some(
                    d,
                ) && now >= d)) ==> ({
                    &&& forall|j: int|
                        0 <= j < final(self).peers.peers@.len() ==> !crate::peers::involves(
                            #[trigger] final(self).peers.peers@[j],
                            member_id@,
                        )
                    &&& final(self).participants.members@[member_index(ms, member_id@)].reconnect_deadline is None
                    &&& final(self).participants.members@[member_index(ms, member_id@)].connection is None
                })
            }),
    {
        let expired = match self.participants.get_member_by_id(member_id) {
            Some(m) => match m.reconnect_deadline {
                Some(d) => now >= d,
                None => false,
            },
            None => false,
        };
        if expired {
            let acts = self.handle_rpc_connection_closed(member_id, ClosedReason::Closed, now);
            proof {
                let ms = old(self).participants.members@;
                let i = member_index(ms, member_id@);
                assert(final(self).participants.members@[i] == (Member {
                    connection: None,
                    reconnect_deadline: None,
                    ..ms[i]
                }));
            }
            acts
        } else {
            Vec::new()
        }
    }

    /// Closes the room: every live connection is closed normally, and every
    /// peer is dropped.
    pub fn handle_close_room(&mut self) -> (actions: Vec<Action>)
        requires
            old(self).wf(),
        ensures
            final(self).wf(),
            final(self).id@ == old(self).id@,
            final(self).peers.peers@.len() == 0,
            no_connections(final(self).participants.members@),
            forall|k: int|
                0 <= k < actions@.len() ==> ((#[trigger] actions@[k]) matches Action::CloseConnection {
                    reason,
                    ..
                } && reason == CloseReason::Normal),
            forall|i: int|
                0 <= i < old(self).participants.members@.len() && (#[trigger] old(
                    self,
                ).participants.members@[i]).connection is Some ==> exists|k: int|
                    0 <= k < actions@.len() && (#[trigger] actions@[k]) == (Action::CloseConnection {
                        connection: old(self).participants.members@[i].connection->0.handle,
                        reason: CloseReason::Normal,
                    }),
    {
        let conns = self.participants.drop_connections();
        let mut actions: Vec<Action> = Vec::new();
        let mut i: usize = 0;
        while i < conns.len()
            invariant
                0 <= i <= conns@.len(),
                actions@.len() == i,
                forall|k: int|
                    0 <= k < i ==> (#[trigger] actions@[k]) == (Action::CloseConnection {
                        connection: conns@[k].handle,
                        reason: CloseReason::Normal,
                    }),
            decreases conns@.len() - i,
        {
            actions.push(Action::CloseConnection { connection: conns[i].handle, reason: CloseReason::Normal });
            i = i + 1;
        }
        self.peers.peers = Vec::new();
        proof {
            reveal(paired);
            reveal(distinct_sides);
            assert forall|i2: int|
                0 <= i2 < old(self).participants.members@.len() && (#[trigger] old(
                    self,
                ).participants.members@[i2]).connection is Some implies exists|k: int|
                    0 <= k < actions@.len() && (#[trigger] actions@[k]) == (Action::CloseConnection {
                        connection: old(self).participants.members@[i2].connection->0.handle,
                        reason: CloseReason::Normal,
                    }) by {
                let c = old(self).participants.members@[i2].connection->0;
                assert(conns@.contains(c));
                let k = choose|k: int| 0 <= k < conns@.len() && conns@[k] == c;
                assert(actions@[k] == (Action::CloseConnection {
                    connection: c.handle,
                    reason: CloseReason::Normal,
                }));
            }
        }
        actions
    }

    /// Adds a member to the room's roster; the member starts disconnected.
    /// Fails for a malformed description or a taken identifier.
    pub fn create_member(&mut self, member_id: MemberId, spec: crate::member::MemberSpec) -> (r: Result<
        (),
        RoomError,
    >)
        requires
            old(self).wf(),
        ensures
            final(self).wf(),
            final(self).id@ == old(self).id@,
            final(self).peers == old(self).peers,
            r is Err ==> *final(self) == *old(self),
            r is Ok <==> spec.wf() && !crate::participants::has_member_id(
                old(self).participants.members@,
                member_id@,
            ),
            r is Ok ==> final(self).participants.members@ == old(self).participants.members@.push(
                Member { id: member_id, spec, connection: None, reconnect_deadline: None },
            ),
            !spec.wf() ==> (r matches Err(e) && e is BadRoomSpec),
            spec.wf() && crate::participants::has_member_id(old(self).participants.members@, member_id@) ==> (r
                matches Err(e) && (e matches RoomError::MemberAlreadyExists(x) && x@ == member_id@)),
    {
        if !crate::room_spec::member_spec_wf_check(&spec) {
            return Err(RoomError::BadRoomSpec(String::new()));
        }
        let member = Member { id: member_id, spec, connection: None, reconnect_deadline: None };
        match self.participants.insert_member(member) {
            Ok(()) => Ok(()),
            Err(e) => Err(e),
        }
    }

    /// Deletes a member: its connection is closed, all its peers and their
    /// partners are removed, each affected partner learns which of its own
    /// peers are gone, and the roster forgets the member.  Deleting an
    /// absent member is a no-op.
    pub fn delete_member(&mut self, member_id: &MemberId, now: u64) -> (actions: Vec<Action>)
        requires
            old(self).wf(),
        ensures
            final(self).wf(),
            final(self).id@ == old(self).id@,
            !has_member_id(old(self).participants.members@, member_id@) ==> *final(self) == *old(self)
                && actions@.len() == 0,
            !has_member_id(final(self).participants.members@, member_id@),
            has_member_id(old(self).participants.members@, member_id@) ==> ({
                &&& forall|j: int|
                    0 <= j < final(self).peers.peers@.len() ==> !crate::peers::involves(
                        #[trigger] final(self).peers.peers@[j],
                        member_id@,
                    )
                &&& forall|x: PeerStateMachine|
                    old(self).peers.peers@.contains(x) && !crate::peers::involves(x, member_id@)
                        ==> final(self).peers.peers@.contains(x)
                &&& partner_removal_notified(actions@, old(self).peers.peers@, member_id@)
                &&& final(self).participants.members@ == old(self).participants.members@.remove(
                    member_index(old(self).participants.members@, member_id@),
                )
                &&& (old(self).participants.members@[member_index(
                    old(self).participants.members@,
                    member_id@,
                )].connection matches Some(c) ==> actions@.contains(
                    Action::CloseConnection { connection: c.handle, reason: CloseReason::Normal },
                ))
            }),
    {
        let ghost old_members = self.participants.members@;
        let ghost mi = member_index(old_members, member_id@);
        let live = match self.participants.get_member_by_id(member_id) {
            Some(m) => {
                proof {
                    let i = choose|i: int|
                        0 <= i < old_members.len() && #[trigger] old_members[i] == *m && m.id@ == member_id@;
                    if i != mi {
                        crate::participants::lemma_member_ids_distinct(old_members, i, mi);
                    }
                }
                match m.connection() {
                    Some(c) => Some(*c),
                    None => None,
                }
            }
            None => None,
        };
        let teardown = self.handle_rpc_connection_closed(member_id, ClosedReason::Closed, now);
        let mut actions = teardown;
        let ghost pre_actions = actions@;
        if let Some(c) = live {
            actions.push(Action::CloseConnection { connection: c.handle, reason: CloseReason::Normal });
            proof {
                assert(actions@[pre_actions.len() as int] == Action::CloseConnection {
                    connection: c.handle,
                    reason: CloseReason::Normal,
                });
                assert forall|x: PeerStateMachine|
                    old(self).peers.peers@.contains(x) && crate::peers::partner_member_of(x) == member_id@
                        && crate::peers::member_of(x) != member_id@ implies peers_removed_event_for(
                    actions@,
                    crate::peers::member_of(x),
                    x.context().id,
                ) by {
                    assert(peers_removed_event_for(pre_actions, crate::peers::member_of(x), x.context().id));
                    let k = choose|k: int|
                        0 <= k < pre_actions.len() && ((#[trigger] pre_actions[k]) matches Action::SendEvent {
                            member_id: to,
                            event,
                        } && (event matches Event::PeersRemoved { peer_ids } && peer_ids@.contains(x.context().id))
                            && to@ == crate::peers::member_of(x));
                    assert(actions@[k] == pre_actions[k]);
                }
            }
        }
        let ghost mid_members = self.participants.members@;
        match self.participants.remove_member(member_id) {
            Some(m) => {
                proof {
                    if has_member_id(old_members, member_id@) {
                        let i = choose|i: int|
                            0 <= i < mid_members.len() && mid_members[i] == m
                                && final(self).participants.members@ == mid_members.remove(i);
                        assert(mid_members == old_members.update(mi, Member {
                            connection: None,
                            reconnect_deadline: None,
                            ..old_members[mi]
                        }));
                        assert(mid_members[i].id@ == member_id@);
                        assert(mid_members[mi].id@ == member_id@);
                        if i != mi {
                            assert(mid_members[i].id@ == old_members[i].id@);
                            crate::participants::lemma_member_ids_distinct(old_members, i, mi);
                        }
                        assert(i == mi);
                        mid_members.remove_ensures(mi);
                        old_members.remove_ensures(mi);
                        assert(final(self).participants.members@ =~= old_members.remove(mi));
                    }
                }
            }
            None => {}
        }
        actions
    }

    /// Adds an endpoint to a member.  Fails for an unknown member or a
    /// taken endpoint identifier.  Peers are interconnected when members
    /// connect, so adding an endpoint never creates peers by itself.
    pub fn create_endpoint(
        &mut self,
        member_id: &MemberId,
        endpoint_id: crate::ids::EndpointId,
        endpoint: crate::endpoints::Endpoint,
    ) -> (r: Result<(), RoomError>)
        requires
            old(self).wf(),
        ensures
            final(self).wf(),
            final(self).id@ == old(self).id@,
            final(self).peers == old(self).peers,
            final(self).participants.reconnect_timeout == old(self).participants.reconnect_timeout,
            r is Err ==> *final(self) == *old(self),
            !has_member_id(old(self).participants.members@, member_id@) ==> (r matches Err(e) && e
                is MemberNotFound),
            r is Ok ==> has_member_id(old(self).participants.members@, member_id@) && ({
                let ms = old(self).participants.members@;
                let i = member_index(ms, member_id@);
                let np = final(self).participants.members@[i].spec.pipeline@;
                &&& (forall|e2: int| 0 <= e2 < ms[i].spec.pipeline@.len() ==> (
                #[trigger] ms[i].spec.pipeline@[e2]).0@ != endpoint_id@)
                &&& final(self).participants.members@ == ms.update(
                    i,
                    Member {
                        spec: crate::member::MemberSpec {
                            pipeline: final(self).participants.members@[i].spec.pipeline,
                            ..ms[i].spec
                        },
                        ..ms[i]
                    },
                )
                &&& np.len() == ms[i].spec.pipeline@.len() + 1
                &&& np.last().0@ == endpoint_id@
                &&& (endpoint matches crate::endpoints::Endpoint::WebRtcPublish(p) ==> np.last().1 == (
                crate::member::MemberElement::WebRtcPublishEndpoint { spec: p }))
                &&& (endpoint matches crate::endpoints::Endpoint::WebRtcPlay(p) ==> np.last().1 == (
                crate::member::MemberElement::WebRtcPlayEndpoint { spec: p }))
            }),
    {
        match self.participants.add_endpoint(member_id, endpoint_id, endpoint.into_element()) {
            Ok(()) => Ok(()),
            Err(e) => Err(e),
        }
    }

    /// Deletes an endpoint from a member: the endpoint leaves the member's
    /// pipeline, every peer pair between that member and a partner that
    /// lost its last resolved endpoint relation is torn down, and both
    /// sides learn which of their own peers are gone.  Deleting an absent
    /// endpoint or from an absent member is a no-op.
    pub fn delete_endpoint(&mut self, member_id: &MemberId, endpoint_id: &crate::ids::EndpointId) -> (actions: Vec<
        Action,
    >)
        requires
            old(self).wf(),
        ensures
            final(self).wf(),
            final(self).id@ == old(self).id@,
            final(self).participants.reconnect_timeout == old(self).participants.reconnect_timeout,
            !has_member_id(old(self).participants.members@, member_id@) ==> *final(self) == *old(self)
                && actions@.len() == 0,
            has_member_id(old(self).participants.members@, member_id@) && !(exists|e2: int|
                0 <= e2 < old(self).participants.members@[member_index(
                    old(self).participants.members@,
                    member_id@,
                )].spec.pipeline@.len() && (#[trigger] old(self).participants.members@[member_index(
                    old(self).participants.members@,
                    member_id@,
                )].spec.pipeline@[e2]).0@ == endpoint_id@) ==> *final(self) == *old(self) && actions@.len() == 0,
            has_member_id(old(self).participants.members@, member_id@) && (exists|e2: int|
                0 <= e2 < old(self).participants.members@[member_index(
                    old(self).participants.members@,
                    member_id@,
                )].spec.pipeline@.len() && (#[trigger] old(self).participants.members@[member_index(
                    old(self).participants.members@,
                    member_id@,
                )].spec.pipeline@[e2]).0@ == endpoint_id@) ==> ({
                let ms = old(self).participants.members@;
                let mi = member_index(ms, member_id@);
                let m = ms[mi];
                &&& final(self).participants.members@ == ms.update(
                    mi,
                    Member {
                        spec: crate::member::MemberSpec {
                            pipeline: final(self).participants.members@[mi].spec.pipeline,
                            ..m.spec
                        },
                        ..m
                    },
                )
                &&& exists|e2: int|
                    0 <= e2 < m.spec.pipeline@.len() && (#[trigger] m.spec.pipeline@[e2]).0@ == endpoint_id@
                        && final(self).participants.members@[mi].spec.pipeline@ == m.spec.pipeline@.remove(e2)
                &&& forall|x: PeerStateMachine|
                    old(self).peers.peers@.contains(x) && member_of(x) != member_id@ && partner_member_of(x)
                        != member_id@ ==> final(self).peers.peers@.contains(x)
                &&& forall|x: PeerStateMachine|
                    #[trigger] final(self).peers.peers@.contains(x) ==> old(self).peers.peers@.contains(x)
                &&& forall|x: PeerStateMachine|
                    old(self).peers.peers@.contains(x) && !final(self).peers.peers@.contains(x)
                        ==> peers_removed_event_for(actions@, member_of(x), x.context().id)
                &&& forall|i: int|
                    0 <= i < final(self).peers.peers@.len() && member_of(#[trigger] final(self).peers.peers@[i])
                        == member_id@ ==> peer_relation_alive(
                        final(self).participants.members@,
                        old(self).id@,
                        final(self).peers.peers@[i],
                    )
            }),
    {
        let ghost old_members = self.participants.members@;
        let ghost old_p = self.peers.peers@;
        let removed = self.participants.remove_endpoint(member_id, endpoint_id);
        let mut actions: Vec<Action> = Vec::new();
        if !removed {
            return actions;
        }
        let ghost roster_now = self.participants.members@;
        // Tear down pairs of this member that lost their last relation.
        let mut progress = true;
        while progress
            invariant
                self.wf(),
                self.id@ == old(self).id@,
                self.participants.members@ == roster_now,
                self.participants.reconnect_timeout == old(self).participants.reconnect_timeout,
                forall|x: PeerStateMachine|
                    old_p.contains(x) && member_of(x) != member_id@ && partner_member_of(x) != member_id@
                        ==> self.peers.peers@.contains(x),
                forall|x: PeerStateMachine|
                    #[trigger] self.peers.peers@.contains(x) ==> old_p.contains(x),
                forall|x: PeerStateMachine|
                    old_p.contains(x) && !self.peers.peers@.contains(x) ==> peers_removed_event_for(
                        actions@,
                        member_of(x),
                        x.context().id,
                    ),
                !progress ==> forall|i: int|
                    0 <= i < self.peers.peers@.len() && member_of(#[trigger] self.peers.peers@[i]) == member_id@
                        ==> peer_relation_alive(roster_now, old(self).id@, self.peers.peers@[i]),
            decreases self.peers.peers@.len() + (if progress { 1int } else { 0int }),
        {
            progress = false;
            let ghost scan_peers = self.peers.peers@;
            let my_peers = self.peers.get_peers_by_member_id(member_id);
            let mut k: usize = 0;
            let mut to_remove: Option<PeerId> = None;
            while k < my_peers.len()
                invariant
                    0 <= k <= my_peers@.len(),
                    self.wf(),
                    self.id@ == old(self).id@,
                    self.peers.peers@ == scan_peers,
                    self.participants.members@ == roster_now,
                    crate::peers::ids_sound(scan_peers, my_peers@, member_id@),
                    crate::peers::ids_complete(scan_peers, my_peers@, member_id@),
                    to_remove matches Some(pid) ==> has_peer_id(scan_peers, pid) && member_of(
                        peer_in(scan_peers, pid),
                    ) == member_id@ && peer_in(scan_peers, pid).context().partner_peer != pid,
                    to_remove is None ==> forall|kk: int|
                        0 <= kk < k && has_peer_id(scan_peers, #[trigger] my_peers@[kk]) ==> peer_relation_alive(
                            roster_now,
                            old(self).id@,
                            peer_in(scan_peers, my_peers@[kk]),
                        ),
                decreases my_peers@.len() - k,
            {
                if to_remove.is_none() {
                    let pid = my_peers[k];
                    match self.peers.get_peer(pid) {
                        Ok(p) => {
                            proof {
                                lemma_peer_in(scan_peers, *p, pid);
                            }
                            let partner_member = p.partner_member_id();
                            let me_opt = self.participants.get_member_by_id(member_id);
                            let other_opt = self.participants.get_member_by_id(&partner_member);
                            match (me_opt, other_opt) {
                                (Some(me), Some(other)) => {
                                    proof {
                                        let i1 = choose|i1: int|
                                            0 <= i1 < roster_now.len() && #[trigger] roster_now[i1] == *me
                                                && me.id@ == member_id@;
                                        let w1 = member_index(roster_now, member_id@);
                                        if i1 != w1 {
                                            crate::participants::lemma_member_ids_distinct(roster_now, i1, w1);
                                        }
                                        let i2 = choose|i2: int|
                                            0 <= i2 < roster_now.len() && #[trigger] roster_now[i2] == *other
                                                && other.id@ == partner_member@;
                                        let w2 = member_index(roster_now, partner_member@);
                                        if i2 != w2 {
                                            crate::participants::lemma_member_ids_distinct(roster_now, i2, w2);
                                        }
                                    }
                                    let n1 = Self::count_plays_from(&me.spec, &partner_member, &other.spec, &self.id);
                                    let n2 = Self::count_plays_from(&other.spec, member_id, &me.spec, &self.id);
                                    if n1 == 0 && n2 == 0 {
                                        to_remove = Some(pid);
                                        proof {
                                            lemma_scan_pick_ok(scan_peers, my_peers@, member_id@, k as int);
                                        }
                                    } else {
                                        proof {
                                            assert(peer_relation_alive(
                                                roster_now,
                                                old(self).id@,
                                                peer_in(scan_peers, pid),
                                            ));
                                        }
                                    }
                                }
                                _ => {
                                    to_remove = Some(pid);
                                    proof {
                                        lemma_scan_pick_ok(scan_peers, my_peers@, member_id@, k as int);
                                    }
                                }
                            }
                        }
                        Err(_) => {}
                    }
                }
                k = k + 1;
            }
            proof {
                if to_remove is None {
                    assert forall|i: int|
                        0 <= i < self.peers.peers@.len() && member_of(#[trigger] self.peers.peers@[i])
                            == member_id@ implies peer_relation_alive(
                        roster_now,
                        old(self).id@,
                        self.peers.peers@[i],
                    ) by {
                        let x = self.peers.peers@[i];
                        assert(my_peers@.contains(x.context().id));
                        let kk = choose|kk: int| 0 <= kk < my_peers@.len() && my_peers@[kk] == x.context().id;
                        assert(has_peer_id(scan_peers, my_peers@[kk]));
                        assert(peer_relation_alive(roster_now, old(self).id@, peer_in(scan_peers, my_peers@[kk])));
                        lemma_peer_in(scan_peers, x, x.context().id);
                    }
                }
            }
            match to_remove {
                Some(pid) => {
                    let ghost pre_iter_peers = self.peers.peers@;
                    let ghost pre_iter_actions = actions@;
                    match self.remove_pair(pid) {
                        Ok((own_id, own_member, partner_id, partner_member)) => {
                            let ghost gout = (own_id, own_member@, partner_id, partner_member@);
                            let mut own_ids: Vec<PeerId> = Vec::new();
                            own_ids.push(own_id);
                            let mut partner_ids: Vec<PeerId> = Vec::new();
                            partner_ids.push(partner_id);
                            proof {
                                assert(own_ids@ =~= seq![own_id]);
                                assert(own_ids@[0] == own_id);
                                assert(own_ids@.contains(own_id));
                                assert(partner_ids@ =~= seq![partner_id]);
                                assert(partner_ids@[0] == partner_id);
                                assert(partner_ids@.contains(partner_id));
                            }
                            let ghost gv1 = Action::SendEvent {
                                member_id: own_member,
                                event: Event::PeersRemoved { peer_ids: own_ids },
                            };
                            let ghost gv2 = Action::SendEvent {
                                member_id: partner_member,
                                event: Event::PeersRemoved { peer_ids: partner_ids },
                            };
                            actions.push(
                                Action::SendEvent {
                                    member_id: own_member,
                                    event: Event::PeersRemoved { peer_ids: own_ids },
                                },
                            );
                            actions.push(
                                Action::SendEvent {
                                    member_id: partner_member,
                                    event: Event::PeersRemoved { peer_ids: partner_ids },
                                },
                            );
                            progress = true;
                            proof {
                                assert(actions@ == pre_iter_actions.push(gv1).push(gv2));
                                let a1 = actions@[pre_iter_actions.len() as int];
                                let a2 = actions@[pre_iter_actions.len() as int + 1];
                                assert(a1 == gv1 && a2 == gv2);
                                assert(a1 matches Action::SendEvent { member_id: to, event } && to@ == gout.1 && (
                                event matches Event::PeersRemoved { peer_ids } && peer_ids@.contains(own_id)));
                                assert(a2 matches Action::SendEvent { member_id: to, event } && to@ == gout.3 && (
                                event matches Event::PeersRemoved { peer_ids } && peer_ids@.contains(partner_id)));
                                let x1 = peer_in(pre_iter_peers, own_id);
                                let x2 = peer_in(pre_iter_peers, partner_id);
                                let w1 = choose|w: int|
                                    0 <= w < pre_iter_peers.len() && (#[trigger] pre_iter_peers[w]).context().id
                                        == own_id;
                                let w2 = choose|w: int|
                                    0 <= w < pre_iter_peers.len() && (#[trigger] pre_iter_peers[w]).context().id
                                        == partner_id;
                                assert(pre_iter_peers.contains(x1) && pre_iter_peers.contains(x2));
                                lemma_partner_value(pre_iter_peers, x1, x2);
                                assert(member_of(x1) == gout.1 && member_of(x2) == gout.3);
                                assert forall|x: PeerStateMachine|
                                    old_p.contains(x) && !self.peers.peers@.contains(x)
                                        implies peers_removed_event_for(
                                    actions@,
                                    member_of(x),
                                    x.context().id,
                                ) by {
                                    if pre_iter_peers.contains(x) {
                                        if x.context().id != own_id && x.context().id != partner_id {
                                            assert(self.peers.peers@.contains(x));
                                            assert(false);
                                        }
                                        if x.context().id == own_id {
                                            lemma_unique_id_value(pre_iter_peers, x, x1);
                                            assert(a1 matches Action::SendEvent { member_id: to, event } && (
                                            event matches Event::PeersRemoved { peer_ids } && peer_ids@.contains(
                                                x.context().id,
                                            )) && to@ == member_of(x));
                                            assert(peers_removed_event_for(
                                                actions@,
                                                member_of(x),
                                                x.context().id,
                                            ));
                                        } else {
                                            lemma_unique_id_value(pre_iter_peers, x, x2);
                                            assert(a2 matches Action::SendEvent { member_id: to, event } && (
                                            event matches Event::PeersRemoved { peer_ids } && peer_ids@.contains(
                                                x.context().id,
                                            )) && to@ == member_of(x));
                                            assert(peers_removed_event_for(
                                                actions@,
                                                member_of(x),
                                                x.context().id,
                                            ));
                                        }
                                    } else {
                                        assert(peers_removed_event_for(
                                            pre_iter_actions,
                                            member_of(x),
                                            x.context().id,
                                        ));
                                        let kk = choose|kk: int|
                                            0 <= kk < pre_iter_actions.len() && ((
                                            #[trigger] pre_iter_actions[kk]) matches Action::SendEvent {
                                                member_id: to,
                                                event,
                                            } && (event matches Event::PeersRemoved { peer_ids }
                                                && peer_ids@.contains(x.context().id)) && to@ == member_of(x));
                                        assert(actions@[kk] == pre_iter_actions[kk]);
                                    }
                                }
                                assert forall|x: PeerStateMachine|
                                    old_p.contains(x) && member_of(x) != member_id@ && partner_member_of(x)
                                        != member_id@ implies self.peers.peers@.contains(x) by {
                                    assert(pre_iter_peers.contains(x));
                                    assert(member_of(x1) == member_id@);
                                    if x.context().id == own_id {
                                        lemma_unique_id_value(pre_iter_peers, x, x1);
                                        assert(false);
                                    }
                                    if x.context().id == partner_id {
                                        lemma_unique_id_value(pre_iter_peers, x, x2);
                                        assert(partner_member_of(x2) == member_of(x1));
                                        assert(false);
                                    }
                                }
                            }
                        }
                        Err(_) => {
                            proof {
                                assert(false);
                            }
                        }
                    }
                }
                None => {}
            }
        }
        actions
    }

    /// Removes one peer and its partner atomically; returns both
    /// identifiers with their owning members.  Fails, leaving the room
    /// unchanged, if the peer or its partner is missing.
    #[verifier::rlimit(100)]
    pub fn remove_pair(&mut self, peer_id: PeerId) -> (r: Result<(PeerId, MemberId, PeerId, MemberId), RoomError>)
        requires
            old(self).wf(),
        ensures
            final(self).wf(),
            final(self).id@ == old(self).id@,
            final(self).participants == old(self).participants,
            match r {
                Ok(out) => {
                    &&& out.0 == peer_id
                    &&& has_peer_id(old(self).peers.peers@, out.0)
                    &&& has_peer_id(old(self).peers.peers@, out.2)
                    &&& final(self).peers.peers@.len() + 2 == old(self).peers.peers@.len()
                    &&& !has_peer_id(final(self).peers.peers@, out.0)
                    &&& !has_peer_id(final(self).peers.peers@, out.2)
                    &&& forall|x: PeerStateMachine|
                        old(self).peers.peers@.contains(x) && x.context().id != out.0 && x.context().id != out.2
                            ==> final(self).peers.peers@.contains(x)
                    &&& forall|x: PeerStateMachine|
                        #[trigger] final(self).peers.peers@.contains(x) ==> old(self).peers.peers@.contains(x)
                    &&& out.1@ == peer_in(old(self).peers.peers@, out.0).context().member_id@
                    &&& out.2 == peer_in(old(self).peers.peers@, out.0).context().partner_peer
                    &&& out.3@ == peer_in(old(self).peers.peers@, out.0).context().partner_member@
                },
                Err(_) => *final(self) == *old(self),
            },
            has_peer_id(old(self).peers.peers@, peer_id) && peer_in(
                old(self).peers.peers@,
                peer_id,
            ).context().partner_peer != peer_id ==> r is Ok,
    {
        let ghost old_peers = self.peers.peers@;
        let (own_member, partner_id) = match self.peers.get_peer(peer_id) {
            Ok(p) => {
                proof {
                    lemma_peer_in(old_peers, *p, peer_id);
                }
                (p.member_id(), p.partner_peer_id())
            }
            Err(e) => {
                return Err(e);
            }
        };
        if partner_id.0 == peer_id.0 {
            return Err(RoomError::PeerNotFound(partner_id));
        }
        let (partner_member, partner_partner) = match self.peers.get_peer(partner_id) {
            Ok(p) => {
                proof {
                    lemma_peer_in(old_peers, *p, partner_id);
                }
                (p.member_id(), p.partner_peer_id())
            }
            Err(e) => {
                proof {
                    // Under the pairing invariant the partner is present.
                    let x1 = peer_in(old_peers, peer_id);
                    assert(old_peers.contains(x1)) by {
                        let w = choose|w: int|
                            0 <= w < old_peers.len() && (#[trigger] old_peers[w]).context().id == peer_id;
                        lemma_unique_id_value(old_peers, old_peers[w], x1);
                    }
                    reveal(paired);
                    reveal(ctx_linked);
                    let i = choose|i: int| 0 <= i < old_peers.len() && old_peers[i] == x1;
                    assert(ctx_linked(old_peers, old_peers[i].context()));
                    let k = choose|k: int|
                        0 <= k < old_peers.len() && partner_ctx_ok(x1.context(), (#[trigger] old_peers[k]).context());
                    assert(old_peers[k].context().id == partner_id);
                    assert(has_peer_id(old_peers, partner_id));
                }
                return Err(e);
            }
        };
        if partner_partner.0 != peer_id.0 {
            proof {
                let x1 = peer_in(old_peers, peer_id);
                assert(old_peers.contains(x1)) by {
                    let w = choose|w: int|
                        0 <= w < old_peers.len() && (#[trigger] old_peers[w]).context().id == peer_id;
                    lemma_unique_id_value(old_peers, old_peers[w], x1);
                }
                let x2 = peer_in(old_peers, partner_id);
                assert(old_peers.contains(x2)) by {
                    let w = choose|w: int|
                        0 <= w < old_peers.len() && (#[trigger] old_peers[w]).context().id == partner_id;
                    lemma_unique_id_value(old_peers, old_peers[w], x2);
                }
                lemma_partner_value(old_peers, x1, x2);
            }
            return Err(RoomError::PeerNotFound(partner_id));
        }

        let first_machine = match self.peers.take_peer(peer_id) {
            Ok(p) => p,
            Err(_) => {
                proof {
                    assert(false);
                }
                return Err(RoomError::PeerNotFound(peer_id));
            }
        };
        let ghost i1 = choose|i: int|
            0 <= i < old_peers.len() && old_peers[i] == first_machine && self.peers.peers@ == old_peers.remove(i);
        proof {
            lemma_unique_id_value(old_peers, first_machine, peer_in(old_peers, peer_id));
            lemma_remove_contains(old_peers, i1);
            let xb = peer_in(old_peers, partner_id);
            assert(old_peers.contains(xb));
            assert(xb != first_machine);
            assert(self.peers.peers@.contains(xb));
            let bi = choose|bi: int| 0 <= bi < self.peers.peers@.len() && self.peers.peers@[bi] == xb;
            assert(has_peer_id(self.peers.peers@, partner_id));
        }
        let ghost mid1 = self.peers.peers@;
        let second_machine = match self.peers.take_peer(partner_id) {
            Ok(p) => p,
            Err(_) => {
                proof {
                    assert(false);
                }
                return Err(RoomError::PeerNotFound(partner_id));
            }
        };
        let ghost i2 = choose|i: int|
            0 <= i < mid1.len() && mid1[i] == second_machine && self.peers.peers@ == mid1.remove(i);
        proof {
            lemma_remove_contains(mid1, i2);
            assert(old_peers.contains(second_machine));
            lemma_unique_id_value(old_peers, second_machine, peer_in(old_peers, partner_id));
            lemma_partner_value(old_peers, first_machine, second_machine);
            let xa = first_machine;
            let xb = second_machine;
            let new_p = self.peers.peers@;
            assert forall|j: int| 0 <= j < new_p.len() implies ctx_linked(new_p, (#[trigger] new_p[j]).context()) by {
                reveal(ctx_linked);
                reveal(paired);
                let x = new_p[j];
                assert(mid1.remove(i2).contains(x));
                assert(mid1.contains(x));
                assert(old_peers.contains(x));
                let i = choose|i: int| 0 <= i < old_peers.len() && old_peers[i] == x;
                assert(ctx_linked(old_peers, old_peers[i].context()));
                let k = choose|k: int|
                    0 <= k < old_peers.len() && partner_ctx_ok(x.context(), (#[trigger] old_peers[k]).context());
                let y = old_peers[k];
                if y.context().id == peer_id {
                    lemma_unique_id_value(old_peers, y, xa);
                    assert(x.context().id == xa.context().partner_peer);
                    lemma_unique_id_value(old_peers, x, xb);
                    assert(false);
                }
                if y.context().id == partner_id {
                    lemma_unique_id_value(old_peers, y, xb);
                    assert(x.context().id == xb.context().partner_peer);
                    lemma_unique_id_value(old_peers, x, xa);
                    assert(false);
                }
                assert(y != xa && y != xb);
                assert(mid1.contains(y));
                assert(mid1.remove(i2).contains(y));
                let l = choose|l: int| 0 <= l < new_p.len() && new_p[l] == y;
                assert(partner_ctx_ok(x.context(), new_p[l].context()));
            }
            assert(paired(self.peers.peers@)) by {
                reveal(paired);
            }
            assert forall|j: int|
                0 <= j < self.peers.peers@.len() implies member_of(#[trigger] self.peers.peers@[j])
                    != partner_member_of(self.peers.peers@[j]) by {
                reveal(distinct_sides);
                let x = self.peers.peers@[j];
                assert(mid1.remove(i2).contains(x));
                assert(mid1.contains(x));
                assert(old_peers.contains(x));
                let i = choose|i: int| 0 <= i < old_peers.len() && old_peers[i] == x;
                assert(member_of(old_peers[i]) != partner_member_of(old_peers[i]));
            }
            assert(distinct_sides(self.peers.peers@)) by {
                reveal(distinct_sides);
            }
            assert(!has_peer_id(self.peers.peers@, peer_id)) by {
                if has_peer_id(self.peers.peers@, peer_id) {
                    let j = choose|j: int|
                        0 <= j < self.peers.peers@.len() && (#[trigger] self.peers.peers@[j]).context().id == peer_id;
                    let x = self.peers.peers@[j];
                    assert(self.peers.peers@.contains(x));
                    assert(mid1.contains(x));
                    let jj = choose|jj: int| 0 <= jj < mid1.len() && mid1[jj] == x;
                    assert(has_peer_id(mid1, peer_id));
                }
            }
            assert forall|x: PeerStateMachine|
                old_peers.contains(x) && x.context().id != peer_id && x.context().id != partner_id
                    implies self.peers.peers@.contains(x) by {
                assert(x != first_machine && x != second_machine);
                assert(mid1.contains(x));
                assert(mid1.remove(i2).contains(x));
            }
            assert forall|x: PeerStateMachine|
                #[trigger] self.peers.peers@.contains(x) implies old_peers.contains(x) by {
                assert(mid1.contains(x));
            }
        }
        let _ = second_machine;
        let _ = first_machine;
        Ok((peer_id, own_member, partner_id, partner_member))
    }

    /// Serializes the room's current description: its identifier and, in
    /// roster order, each member's description.
    pub fn serialize_room(&self) -> (r: RoomSpec)
        ensures
            r.id@ == self.id@,
            r.pipeline@.len() == self.participants.members@.len(),
            forall|i: int|
                0 <= i < r.pipeline@.len() ==> (#[trigger] r.pipeline@[i]).0@ == self.participants.members@[i].id@
                    && crate::member::member_spec_like(
                    self.participants.members@[i].spec,
                    member_spec_of(r.pipeline@[i].1),
                ),
    {
        let mut pipeline: Vec<(MemberId, RoomElement)> = Vec::new();
        let mut i: usize = 0;
        while i < self.participants.members.len()
            invariant
                0 <= i <= self.participants.members@.len(),
                pipeline@.len() == i,
                forall|j: int|
                    0 <= j < i ==> (#[trigger] pipeline@[j]).0@ == self.participants.members@[j].id@
                        && crate::member::member_spec_like(
                        self.participants.members@[j].spec,
                        member_spec_of(pipeline@[j].1),
                    ),
            decreases self.participants.members@.len() - i,
        {
            let m = &self.participants.members[i];
            pipeline.push((m.id.clone(), RoomElement::Member { spec: m.spec.clone() }));
            i = i + 1;
        }
        RoomSpec { id: self.id.clone(), pipeline }
    }

    /// Serializes one member's description, if the member exists.
    pub fn serialize_member(&self, member_id: &MemberId) -> (r: Result<crate::member::MemberSpec, RoomError>)
        requires
            self.participants.wf(),
        ensures
            match r {
                Ok(spec) => has_member_id(self.participants.members@, member_id@) && crate::member::member_spec_like(
                    self.participants.members@[member_index(self.participants.members@, member_id@)].spec,
                    spec,
                ),
                Err(e) => !has_member_id(self.participants.members@, member_id@) && e is MemberNotFound,
            },
    {
        match self.participants.get_member_by_id(member_id) {
            Some(m) => {
                proof {
                    let i = choose|i: int|
                        0 <= i < self.participants.members@.len() && #[trigger] self.participants.members@[i] == *m
                            && m.id@ == member_id@;
                    let w = member_index(self.participants.members@, member_id@);
                    if w != i {
                        crate::participants::lemma_member_ids_distinct(self.participants.members@, i, w);
                    }
                }
                Ok(m.spec.clone())
            }
            None => Err(RoomError::MemberNotFound(member_id.clone())),
        }
    }
}

/// Room descriptions `a` and `b` describe the same tree: same room, same
/// members under the same keys in order, same endpoints and settings.
pub open spec fn room_tree_like(a: RoomSpec, b: RoomSpec) -> bool {
    &&& a.id@ == b.id@
    &&& a.pipeline@.len() == b.pipeline@.len()
    &&& forall|i: int|
        0 <= i < a.pipeline@.len() ==> (#[trigger] a.pipeline@[i]).0@ == b.pipeline@[i].0@
            && crate::member::member_spec_like(
            member_spec_of(a.pipeline@[i].1),
            member_spec_of(b.pipeline@[i].1),
        )
}

/// In a well-formed room every live peer has exactly the partner it names:
/// a peer whose identifier and member mirror its own, with mirrored
/// tracks.
pub proof fn lemma_peer_partner_alive(room: Room, i: int)
    requires
        room.wf(),
        0 <= i < room.peers.peers@.len(),
    ensures
        exists|j: int|
            0 <= j < room.peers.peers@.len() && partner_ctx_ok(
                room.peers.peers@[i].context(),
                (#[trigger] room.peers.peers@[j]).context(),
            ),
{
    reveal(paired);
    reveal(ctx_linked);
    assert(ctx_linked(room.peers.peers@, room.peers.peers@[i].context()));
}

/// Starting a room from a description and serializing it back yields the
/// same tree: the hypotheses are exactly what `Room::new` and
/// `Room::serialize_room` ensure.
pub proof fn lemma_room_round_trip(spec: RoomSpec, room: Room, tree: RoomSpec)
    requires
        room.id@ == spec.id@,
        room.participants.members@.len() == spec.pipeline@.len(),
        forall|i: int|
            0 <= i < spec.pipeline@.len() ==> (#[trigger] room.participants.members@[i]).id@
                == spec.pipeline@[i].0@ && crate::member::member_spec_like(
                member_spec_of(spec.pipeline@[i].1),
                room.participants.members@[i].spec,
            ),
        tree.id@ == room.id@,
        tree.pipeline@.len() == room.participants.members@.len(),
        forall|i: int|
            0 <= i < tree.pipeline@.len() ==> (#[trigger] tree.pipeline@[i]).0@ == room.participants.members@[i].id@
                && crate::member::member_spec_like(
                room.participants.members@[i].spec,
                member_spec_of(tree.pipeline@[i].1),
            ),
    ensures
        room_tree_like(spec, tree),
{
    assert forall|i: int|
        0 <= i < spec.pipeline@.len() implies (#[trigger] spec.pipeline@[i]).0@ == tree.pipeline@[i].0@
            && crate::member::member_spec_like(
            member_spec_of(spec.pipeline@[i].1),
            member_spec_of(tree.pipeline@[i].1),
        ) by {
        assert(room.participants.members@[i].id@ == spec.pipeline@[i].0@);
        crate::member::lemma_member_spec_like_trans(
            member_spec_of(spec.pipeline@[i].1),
            room.participants.members@[i].spec,
            member_spec_of(tree.pipeline@[i].1),
        );
    }
}

} // verus!
