//! Repository owning every peer of a room, together with the monotonic
//! counters that hand out peer and track identifiers.

use vstd::prelude::*;

use crate::errors::RoomError;
use crate::ids::{MemberId, PeerId, TrackId};
use crate::peer::{tracks_mirrored, Peer, PeerContext, PeerStateMachine};
use crate::protocol::MediaTrack;

verus! {

/// Monotonic identifier counter.  Identifiers start at 1 and are never
/// reused within a room.
#[derive(Debug)]
pub struct Counter {
    pub count: u32,
}

impl Counter {
    /// Returns the current value and advances the counter.
    pub fn next_id(&mut self) -> (id: u32)
        requires
            old(self).count < u32::MAX,
        ensures
            id == old(self).count,
            final(self).count == old(self).count + 1,
    {
        let id = self.count;
        self.count = self.count + 1;
        id
    }
}

impl Default for Counter {
    /// A fresh counter hands out identifiers starting from 1.
    fn default() -> (c: Counter)
        ensures
            c.count == 1,
    {
        Counter { count: 1 }
    }
}

/// The member a peer belongs to, as a character sequence.
pub open spec fn member_of(p: PeerStateMachine) -> Seq<char> {
    p.context().member_id@
}

/// The member the peer's partner belongs to, as a character sequence.
pub open spec fn partner_member_of(p: PeerStateMachine) -> Seq<char> {
    p.context().partner_member@
}

/// Whether the peer belongs to member `m` or is partnered with a peer of
/// member `m`.
pub open spec fn involves(p: PeerStateMachine, m: Seq<char>) -> bool {
    member_of(p) == m || partner_member_of(p) == m
}

/// All peer identifiers in `s` are distinct.
pub open spec fn ids_unique(s: Seq<PeerStateMachine>) -> bool {
    forall|i: int, j: int|
        0 <= i < j < s.len() ==> (#[trigger] s[i]).context().id != (#[trigger] s[j]).context().id
}

/// Some peer in `s` carries identifier `id`.
pub open spec fn has_peer_id(s: Seq<PeerStateMachine>, id: PeerId) -> bool {
    exists|i: int| 0 <= i < s.len() && (#[trigger] s[i]).context().id == id
}

/// Every identifier in `ids` names a peer of member `m` present in `peers`.
pub open spec fn ids_sound(peers: Seq<PeerStateMachine>, ids: Seq<PeerId>, m: Seq<char>) -> bool {
    forall|k: int|
        0 <= k < ids.len() ==> exists|i: int|
            0 <= i < peers.len() && (#[trigger] peers[i]).context().id == #[trigger] ids[k] && member_of(peers[i]) == m
}

/// Every peer of member `m` in `peers` has its identifier in `ids`.
pub open spec fn ids_complete(peers: Seq<PeerStateMachine>, ids: Seq<PeerId>, m: Seq<char>) -> bool {
    forall|i: int|
        0 <= i < peers.len() && member_of(#[trigger] peers[i]) == m ==> ids.contains(peers[i].context().id)
}

/// Every peer in `s` (and the partner it names) has an identifier below
/// `bound`: identifiers from `bound` on are fresh.
pub open spec fn ids_below(s: Seq<PeerStateMachine>, bound: u32) -> bool {
    forall|i: int|
        0 <= i < s.len() ==> (#[trigger] s[i]).context().id.0 < bound && s[i].context().partner_peer.0 < bound
}

/// `s` holds a peer with identifier `id`, owned by member `key`, whose
/// partner belongs to member `m`.
pub open spec fn id_from_partner_peer(
    s: Seq<PeerStateMachine>,
    id: PeerId,
    key: Seq<char>,
    m: Seq<char>,
) -> bool {
    exists|i: int|
        {
            &&& 0 <= i < s.len()
            &&& (#[trigger] s[i]).context().id == id
            &&& member_of(s[i]) == key
            &&& partner_member_of(s[i]) == m
        }
}

/// Every peer identifier under an entry of `groups` belongs, in `s`, to a
/// peer of the entry's member whose partner belongs to `m`.
pub open spec fn groups_sound(
    s: Seq<PeerStateMachine>,
    groups: Seq<(MemberId, Vec<PeerId>)>,
    m: Seq<char>,
) -> bool {
    forall|g: int, k: int|
        #![trigger groups[g].1@[k]]
        0 <= g < groups.len() && 0 <= k < groups[g].1@.len() ==> id_from_partner_peer(
            s,
            groups[g].1@[k],
            groups[g].0@,
            m,
        )
}

/// No entry of `groups` is keyed by member `m` itself.
pub open spec fn group_keys_not(groups: Seq<(MemberId, Vec<PeerId>)>, m: Seq<char>) -> bool {
    forall|g: int| 0 <= g < groups.len() ==> (#[trigger] groups[g]).0@ != m
}

/// Entry keys of `groups` are pairwise distinct members.
pub open spec fn group_keys_unique(groups: Seq<(MemberId, Vec<PeerId>)>) -> bool {
    forall|g1: int, g2: int| 0 <= g1 < g2 < groups.len() ==> (#[trigger] groups[g1]).0@ != (#[trigger] groups[g2]).0@
}

/// The peer `p` (a peer of a member other than `m`, partnered with `m`) is
/// listed in `groups` under its member.
pub open spec fn grouped(groups: Seq<(MemberId, Vec<PeerId>)>, p: PeerStateMachine) -> bool {
    exists|g: int|
        0 <= g < groups.len() && (#[trigger] groups[g]).0@ == member_of(p) && groups[g].1@.contains(p.context().id)
}

/// Two distinct positions of a sequence with unique peer identifiers hold
/// peers with distinct identifiers.
pub proof fn lemma_ids_unique_distinct(s: Seq<PeerStateMachine>, a: int, b: int)
    requires
        ids_unique(s),
        0 <= a < s.len(),
        0 <= b < s.len(),
        a != b,
    ensures
        s[a].context().id != s[b].context().id,
{
    if a < b {
        assert(s[a].context().id != s[b].context().id);
    } else {
        assert(s[b].context().id != s[a].context().id);
    }
}

/// Repository of all peers of one room.
#[derive(Debug)]
pub struct PeerRepository {
    /// The peers, with pairwise distinct identifiers.
    pub peers: Vec<PeerStateMachine>,
    /// Source of fresh peer identifiers.
    pub peers_count: Counter,
    /// Source of fresh track identifiers.
    pub tracks_count: Counter,
}

impl PeerRepository {
    /// Identifiers are unique and stay below the peer counter, so freshly
    /// counted identifiers never collide.
    pub open spec fn wf(self) -> bool {
        &&& ids_unique(self.peers@)
        &&& ids_below(self.peers@, self.peers_count.count)
        &&& self.peers_count.count >= 1
        &&& self.tracks_count.count >= 1
    }

    /// Creates an empty repository.
    pub fn new() -> (r: PeerRepository)
        ensures
            r.wf(),
            r.peers@.len() == 0,
            r.peers_count.count == 1,
            r.tracks_count.count == 1,
    {
        PeerRepository { peers: Vec::new(), peers_count: Counter::default(), tracks_count: Counter::default() }
    }

    /// Stores a peer whose identifier is not yet present.
    pub fn add_peer(&mut self, peer: PeerStateMachine)
        requires
            old(self).wf(),
            !has_peer_id(old(self).peers@, peer.context().id),
            peer.context().id.0 < old(self).peers_count.count,
            peer.context().partner_peer.0 < old(self).peers_count.count,
        ensures
            final(self).peers@ == old(self).peers@.push(peer),
            final(self).peers_count == old(self).peers_count,
            final(self).tracks_count == old(self).tracks_count,
            final(self).wf(),
    {
        self.peers.push(peer);
    }

    /// Returns a borrow of the peer with the given identifier.
    pub fn get_peer(&self, peer_id: PeerId) -> (r: Result<&PeerStateMachine, RoomError>)
        ensures
            match r {
                Ok(p) => p.context().id == peer_id && self.peers@.contains(*p),
                Err(e) => !has_peer_id(self.peers@, peer_id) && e is PeerNotFound,
            },
    {
        let mut i: usize = 0;
        while i < self.peers.len()
            invariant
                0 <= i <= self.peers@.len(),
                forall|j: int| 0 <= j < i ==> (#[trigger] self.peers@[j]).context().id != peer_id,
            decreases self.peers@.len() - i,
        {
            if self.peers[i].id() == peer_id {
                return Ok(&self.peers[i]);
            }
            i = i + 1;
        }
        Err(RoomError::PeerNotFound(peer_id))
    }

    /// Removes and returns the peer with the given identifier.
    pub fn take_peer(&mut self, peer_id: PeerId) -> (r: Result<PeerStateMachine, RoomError>)
        requires
            old(self).wf(),
        ensures
            final(self).peers_count == old(self).peers_count,
            final(self).tracks_count == old(self).tracks_count,
            final(self).wf(),
            match r {
                Ok(p) => {
                    &&& p.context().id == peer_id
                    &&& exists|i: int|
                        0 <= i < old(self).peers@.len() && old(self).peers@[i] == p
                            && final(self).peers@ == old(self).peers@.remove(i)
                    &&& !has_peer_id(final(self).peers@, peer_id)
                },
                Err(e) => {
                    &&& *final(self) == *old(self)
                    &&& !has_peer_id(old(self).peers@, peer_id)
                    &&& e is PeerNotFound
                },
            },
    {
        let mut i: usize = 0;
        while i < self.peers.len()
            invariant
                0 <= i <= self.peers@.len(),
                forall|j: int| 0 <= j < i ==> (#[trigger] self.peers@[j]).context().id != peer_id,
                *self == *old(self),
                old(self).wf(),
            decreases self.peers@.len() - i,
        {
            if self.peers[i].id() == peer_id {
                let p = self.peers.remove(i);
                proof {
                    old(self).peers@.remove_ensures(i as int);
                    assert(self.peers@ == old(self).peers@.remove(i as int));
                    assert(old(self).peers@[i as int].context().id == peer_id);
                    assert(old(self).peers@[i as int] == p);
                    assert forall|j: int|
                        0 <= j < self.peers@.len() implies (#[trigger] self.peers@[j]).context().id != peer_id by {
                        if j < i {
                            assert(self.peers@[j] == old(self).peers@[j]);
                            assert(old(self).peers@[j].context().id != peer_id);
                        } else {
                            assert(self.peers@[j] == old(self).peers@[j + 1]);
                            lemma_ids_unique_distinct(old(self).peers@, i as int, j + 1);
                        }
                    }
                    assert forall|a: int, b: int|
                        0 <= a < b < self.peers@.len() implies (#[trigger] self.peers@[a]).context().id != (
                    #[trigger] self.peers@[b]).context().id by {
                        let a0 = if a < i { a } else { a + 1 };
                        let b0 = if b < i { b } else { b + 1 };
                        assert(self.peers@[a] == old(self).peers@[a0]);
                        assert(self.peers@[b] == old(self).peers@[b0]);
                        lemma_ids_unique_distinct(old(self).peers@, a0, b0);
                    }
                    assert forall|j: int| 0 <= j < self.peers@.len() implies (#[trigger] self.peers@[j]).context().id.0
                        < self.peers_count.count && self.peers@[j].context().partner_peer.0
                        < self.peers_count.count by {
                        let j0 = if j < i { j } else { j + 1 };
                        assert(self.peers@[j] == old(self).peers@[j0]);
                        assert(old(self).peers@[j0].context().id.0 < old(self).peers_count.count);
                    }
                }
                return Ok(p);
            }
            i = i + 1;
        }
        Err(RoomError::PeerNotFound(peer_id))
    }

    /// Looks up the peer of `member_id` partnered with `partner_member_id`;
    /// returns its identifier and its partner's.
    pub fn get_peer_by_members_ids(&self, member_id: &MemberId, partner_member_id: &MemberId) -> (r: Option<
        (PeerId, PeerId),
    >)
        ensures
            match r {
                Some(pair) => exists|i: int|
                    {
                        &&& 0 <= i < self.peers@.len()
                        &&& member_of(#[trigger] self.peers@[i]) == member_id@
                        &&& partner_member_of(self.peers@[i]) == partner_member_id@
                        &&& self.peers@[i].context().id == pair.0
                        &&& self.peers@[i].context().partner_peer == pair.1
                    },
                None => forall|i: int|
                    0 <= i < self.peers@.len() ==> !(member_of(#[trigger] self.peers@[i]) == member_id@
                        && partner_member_of(self.peers@[i]) == partner_member_id@),
            },
    {
        let mut i: usize = 0;
        while i < self.peers.len()
            invariant
                0 <= i <= self.peers@.len(),
                forall|j: int|
                    0 <= j < i ==> !(member_of(#[trigger] self.peers@[j]) == member_id@ && partner_member_of(
                        self.peers@[j],
                    ) == partner_member_id@),
            decreases self.peers@.len() - i,
        {
            let p = &self.peers[i];
            if p.member_id() == *member_id && p.partner_member_id() == *partner_member_id {
                return Some((p.id(), p.partner_peer_id()));
            }
            i = i + 1;
        }
        None
    }

    /// Identifiers of all peers belonging to `member_id`, in store order.
    pub fn get_peers_by_member_id(&self, member_id: &MemberId) -> (r: Vec<PeerId>)
        ensures
            ids_sound(self.peers@, r@, member_id@),
            ids_complete(self.peers@, r@, member_id@),
    {
        let mut out: Vec<PeerId> = Vec::new();
        let mut i: usize = 0;
        while i < self.peers.len()
            invariant
                0 <= i <= self.peers@.len(),
                ids_sound(self.peers@, out@, member_id@),
                forall|j: int|
                    0 <= j < i && member_of(#[trigger] self.peers@[j]) == member_id@ ==> out@.contains(
                        self.peers@[j].context().id,
                    ),
            decreases self.peers@.len() - i,
        {
            let p = &self.peers[i];
            if p.member_id() == *member_id {
                let ghost prev = out@;
                out.push(p.id());
                proof {
                    assert(out@ == prev.push(self.peers@[i as int].context().id));
                    assert forall|k: int|
                        0 <= k < out@.len() implies exists|j: int|
                            0 <= j < self.peers@.len() && (#[trigger] self.peers@[j]).context().id == #[trigger] out@[k]
                                && member_of(self.peers@[j]) == member_id@ by {
                        if k < prev.len() {
                            assert(out@[k] == prev[k]);
                            assert(ids_sound(self.peers@, prev, member_id@));
                        } else {
                            assert(out@[k] == self.peers@[i as int].context().id);
                            assert(0 <= i < self.peers@.len() && self.peers@[i as int].context().id == out@[k]
                                && member_of(self.peers@[i as int]) == member_id@);
                        }
                    }
                    assert(ids_sound(self.peers@, out@, member_id@));
                    assert forall|j: int|
                        0 <= j < i + 1 && member_of(#[trigger] self.peers@[j]) == member_id@ implies out@.contains(
                            self.peers@[j].context().id,
                        ) by {
                        if j < i {
                            let k = choose|k: int| 0 <= k < prev.len() && prev[k] == self.peers@[j].context().id;
                            assert(out@[k] == self.peers@[j].context().id);
                        } else {
                            assert(out@[prev.len() as int] == self.peers@[j].context().id);
                        }
                    }
                }
            }
            i = i + 1;
        }
        out
    }

    /// Creates an interconnected pair of peers for the two members: the
    /// first with the given tracks, the second with their mirrors.  Returns
    /// the identifiers of the two new peers, in order of creation.
    pub fn create_peers(
        &mut self,
        first_member: &MemberId,
        second_member: &MemberId,
        first_tracks: Vec<MediaTrack>,
    ) -> (r: (PeerId, PeerId))
        requires
            old(self).wf(),
            old(self).peers_count.count + 2 <= u32::MAX,
        ensures
            final(self).wf(),
            final(self).tracks_count == old(self).tracks_count,
            final(self).peers_count.count == old(self).peers_count.count + 2,
            r.0.0 == old(self).peers_count.count,
            r.1.0 == old(self).peers_count.count + 1,
            final(self).peers@.len() == old(self).peers@.len() + 2,
            final(self).peers@.subrange(0, old(self).peers@.len() as int) == old(self).peers@,
            ({
                let p1 = final(self).peers@[old(self).peers@.len() as int];
                let p2 = final(self).peers@[old(self).peers@.len() as int + 1];
                &&& p1 is New && p2 is New
                &&& p1.context().id == r.0 && p2.context().id == r.1
                &&& p1.context().partner_peer == r.1 && p2.context().partner_peer == r.0
                &&& p1.context().member_id@ == first_member@
                &&& p1.context().partner_member@ == second_member@
                &&& p2.context().member_id@ == second_member@
                &&& p2.context().partner_member@ == first_member@
                &&& p1.context().tracks@ == first_tracks@
                &&& tracks_mirrored(first_tracks@, p2.context().tracks@)
                &&& p1.context().sdp_offer is None && p1.context().sdp_answer is None
                &&& p2.context().sdp_offer is None && p2.context().sdp_answer is None
                &&& p1.context().ice_candidates@.len() == 0
                &&& p2.context().ice_candidates@.len() == 0
            }),
    {
        let first_peer_id = PeerId(self.peers_count.next_id());
        let second_peer_id = PeerId(self.peers_count.next_id());

        let mut second_tracks: Vec<MediaTrack> = Vec::new();
        let mut i: usize = 0;
        while i < first_tracks.len()
            invariant
                0 <= i <= first_tracks@.len(),
                second_tracks@.len() == i,
                forall|j: int|
                    0 <= j < i ==> second_tracks@[j] == (#[trigger] first_tracks@[j]).spec_mirrored(),
            decreases first_tracks@.len() - i,
        {
            second_tracks.push(first_tracks[i].mirrored());
            i = i + 1;
        }

        let first_peer = Peer::new(
            first_peer_id,
            first_member.clone(),
            second_peer_id,
            second_member.clone(),
            first_tracks,
        );
        let second_peer = Peer::new(
            second_peer_id,
            second_member.clone(),
            first_peer_id,
            first_member.clone(),
            second_tracks,
        );

        self.peers.push(PeerStateMachine::New(first_peer));
        self.peers.push(PeerStateMachine::New(second_peer));
        proof {
            reveal(crate::peer::tracks_mirrored);
            assert(final(self).peers@.subrange(0, old(self).peers@.len() as int) =~= old(self).peers@);
        }
        (first_peer_id, second_peer_id)
    }

    /// Removes every peer of `member_id` and, with it, its partner peer,
    /// atomically.  Returns, grouped by partner member, the identifiers of
    /// the removed peers each of those members owned, so the controller can
    /// tell each affected member which of its own peers are gone.
    pub fn connection_closed(&mut self, member_id: &MemberId) -> (groups: Vec<(MemberId, Vec<PeerId>)>)
        requires
            old(self).wf(),
        ensures
            final(self).wf(),
            final(self).peers_count == old(self).peers_count,
            final(self).tracks_count == old(self).tracks_count,
            forall|j: int|
                0 <= j < final(self).peers@.len() ==> !involves(#[trigger] final(self).peers@[j], member_id@)
                    && old(self).peers@.contains(final(self).peers@[j]),
            forall|x: PeerStateMachine|
                old(self).peers@.contains(x) && !involves(x, member_id@) ==> final(self).peers@.contains(x),
            groups_sound(old(self).peers@, groups@, member_id@),
            group_keys_not(groups@, member_id@),
            group_keys_unique(groups@),
            forall|x: PeerStateMachine|
                old(self).peers@.contains(x) && partner_member_of(x) == member_id@ && member_of(x) != member_id@
                    ==> grouped(groups@, x),
    {
        let ghost s0 = old(self).peers@;
        let ghost m = member_id@;
        let mut groups: Vec<(MemberId, Vec<PeerId>)> = Vec::new();
        let mut i: usize = 0;
        while i < self.peers.len()
            invariant
                old(self).wf(),
                s0 == old(self).peers@,
                m == member_id@,
                0 <= i <= self.peers@.len(),
                ids_unique(self.peers@),
                ids_below(self.peers@, self.peers_count.count),
                self.peers_count == old(self).peers_count,
                self.tracks_count == old(self).tracks_count,
                forall|j: int| 0 <= j < i ==> !involves(#[trigger] self.peers@[j], m),
                forall|j: int| 0 <= j < self.peers@.len() ==> s0.contains(#[trigger] self.peers@[j]),
                forall|x: PeerStateMachine| s0.contains(x) && !involves(x, m) ==> self.peers@.contains(x),
                groups_sound(s0, groups@, m),
                group_keys_not(groups@, m),
                group_keys_unique(groups@),
                forall|x: PeerStateMachine|
                    s0.contains(x) && partner_member_of(x) == m && member_of(x) != m && !self.peers@.contains(x)
                        ==> grouped(groups@, x),
            decreases self.peers@.len() - i,
        {
            let is_own = self.peers[i].member_id() == *member_id;
            let is_partner = self.peers[i].partner_member_id() == *member_id;
            if is_own || is_partner {
                let pid = self.peers[i].id();
                let pmem = self.peers[i].member_id();
                let ghost cur = self.peers@;
                let ghost removed = self.peers@[i as int];
                let _ = self.peers.remove(i);
                proof {
                    cur.remove_ensures(i as int);
                    assert(self.peers@ == cur.remove(i as int));
                    assert forall|j: int| 0 <= j < self.peers@.len() implies s0.contains(
                        #[trigger] self.peers@[j],
                    ) && (j < i ==> !involves(self.peers@[j], m)) by {
                        if j < i {
                            assert(self.peers@[j] == cur[j]);
                        } else {
                            assert(self.peers@[j] == cur[j + 1]);
                        }
                    }
                    assert forall|a: int, b: int|
                        0 <= a < b < self.peers@.len() implies (#[trigger] self.peers@[a]).context().id != (
                    #[trigger] self.peers@[b]).context().id by {
                        let a0 = if a < i { a } else { a + 1 };
                        let b0 = if b < i { b } else { b + 1 };
                        assert(self.peers@[a] == cur[a0]);
                        assert(self.peers@[b] == cur[b0]);
                        lemma_ids_unique_distinct(cur, a0, b0);
                    }
                    assert forall|j: int| 0 <= j < self.peers@.len() implies (#[trigger] self.peers@[j]).context().id.0
                        < self.peers_count.count && self.peers@[j].context().partner_peer.0
                        < self.peers_count.count by {
                        let j0 = if j < i { j } else { j + 1 };
                        assert(self.peers@[j] == cur[j0]);
                        assert(cur[j0].context().id.0 < self.peers_count.count);
                    }
                    assert forall|x: PeerStateMachine| s0.contains(x) && !involves(x, m) implies self.peers@.contains(
                        x,
                    ) by {
                        assert(cur.contains(x));
                        let j = choose|j: int| 0 <= j < cur.len() && cur[j] == x;
                        assert(j != i);
                        if j < i {
                            assert(self.peers@[j] == x);
                        } else {
                            assert(self.peers@[j - 1] == x);
                        }
                    }
                }
                if !is_own {
                    let ghost groups0 = groups@;
                    push_group(&mut groups, pmem, pid);
                    proof {
                        assert(member_of(removed) == pmem@ && partner_member_of(removed) == m
                            && removed.context().id == pid);
                        assert(s0.contains(removed));
                        assert(pmem@ == member_of(removed));
                        assert(pmem@ != m);
                        let iw = choose|iw: int| 0 <= iw < s0.len() && s0[iw] == removed;
                        let existed = exists|g: int| 0 <= g < groups0.len() && (#[trigger] groups0[g]).0@ == pmem@;
                        let g0 = if existed {
                            choose|g0: int| 0 <= g0 < groups0.len() && (#[trigger] groups0[g0]).0@ == pmem@
                        } else {
                            0
                        };
                        assert(grouped(groups@, removed)) by {
                            if existed {
                                assert(groups@[g0].0@ == pmem@);
                                assert(groups@[g0].1@[groups0[g0].1@.len() as int] == pid);
                                assert(groups@[g0].1@.contains(pid));
                            } else {
                                assert(groups@.last().0@ == pmem@);
                                assert(groups@.last().1@ == seq![pid]);
                                assert(groups@[groups@.len() - 1].1@[0] == pid);
                                assert(groups@[groups@.len() - 1].1@.contains(pid));
                            }
                        }
                        assert forall|x: PeerStateMachine| grouped(groups0, x) implies grouped(groups@, x) by {
                            let g = choose|g: int|
                                0 <= g < groups0.len() && (#[trigger] groups0[g]).0@ == member_of(x)
                                    && groups0[g].1@.contains(x.context().id);
                            let k = choose|k: int| 0 <= k < groups0[g].1@.len() && groups0[g].1@[k] == x.context().id;
                            if existed && g == g0 {
                                assert(groups@[g].1@[k] == groups0[g].1@[k]);
                                assert(groups@[g].0@ == member_of(x) && groups@[g].1@.contains(x.context().id));
                            } else {
                                assert(groups@[g] == groups0[g]);
                                assert(groups@[g].0@ == member_of(x) && groups@[g].1@.contains(x.context().id));
                            }
                        }
                        assert forall|g: int, k: int|
                            #![trigger groups@[g].1@[k]]
                            0 <= g < groups@.len() && 0 <= k < groups@[g].1@.len() implies id_from_partner_peer(
                            s0,
                            groups@[g].1@[k],
                            groups@[g].0@,
                            m,
                        ) by {
                            let fresh = if existed { g == g0 && k == groups0[g0].1@.len() } else {
                                g == groups@.len() - 1
                            };
                            if fresh {
                                assert(groups@[g].0@ == pmem@);
                                assert(groups@[g].1@[k] == pid);
                                assert(0 <= iw < s0.len() && s0[iw].context().id == pid && member_of(s0[iw]) == pmem@
                                    && partner_member_of(s0[iw]) == m);
                                assert(id_from_partner_peer(s0, pid, pmem@, m));
                            } else {
                                if existed && g == g0 {
                                    assert(groups@[g].0@ == groups0[g].0@);
                                } else {
                                    assert(groups@[g] == groups0[g]);
                                }
                                assert(groups@[g].1@[k] == groups0[g].1@[k]);
                                assert(0 <= k < groups0[g].1@.len());
                                assert(id_from_partner_peer(s0, groups0[g].1@[k], groups0[g].0@, m));
                            }
                        }
                        assert(groups_sound(s0, groups@, m));
                        assert forall|g: int| 0 <= g < groups@.len() implies (#[trigger] groups@[g]).0@ != m by {
                            if existed {
                                if g == g0 {
                                    assert(groups@[g].0@ == groups0[g].0@);
                                } else {
                                    assert(groups@[g] == groups0[g]);
                                }
                            } else {
                                if g < groups0.len() {
                                    assert(groups@[g] == groups0[g]);
                                } else {
                                    assert(groups@[g].0@ == pmem@);
                                }
                            }
                        }
                        assert(group_keys_not(groups@, m));
                        assert forall|x: PeerStateMachine|
                            s0.contains(x) && partner_member_of(x) == m && member_of(x) != m
                                && !self.peers@.contains(x) implies grouped(groups@, x) by {
                            if cur.contains(x) && !self.peers@.contains(x) {
                                let j = choose|j: int| 0 <= j < cur.len() && cur[j] == x;
                                if j != i {
                                    if j < i {
                                        assert(self.peers@[j] == x);
                                    } else {
                                        assert(self.peers@[j - 1] == x);
                                    }
                                    assert(self.peers@.contains(x));
                                } else {
                                    assert(x == removed);
                                }
                            } else {
                                if !cur.contains(x) {
                                    assert(grouped(groups0, x));
                                    let g = choose|g: int|
                                        0 <= g < groups0.len() && (#[trigger] groups0[g]).0@ == member_of(x)
                                            && groups0[g].1@.contains(x.context().id);
                                    assert(groups@[g].0@ == member_of(x));
                                    let k = choose|k: int|
                                        0 <= k < groups0[g].1@.len() && groups0[g].1@[k] == x.context().id;
                                    assert(groups@[g].1@[k] == x.context().id);
                                    assert(groups@[g].1@.contains(x.context().id));
                                }
                            }
                        }
                    }
                } else {
                    proof {
                        assert forall|x: PeerStateMachine|
                            s0.contains(x) && partner_member_of(x) == m && member_of(x) != m
                                && !self.peers@.contains(x) implies grouped(groups@, x) by {
                            if cur.contains(x) {
                                let j = choose|j: int| 0 <= j < cur.len() && cur[j] == x;
                                if j == i {
                                    assert(member_of(x) == m);
                                } else {
                                    if j < i {
                                        assert(self.peers@[j] == x);
                                    } else {
                                        assert(self.peers@[j - 1] == x);
                                    }
                                }
                            }
                        }
                    }
                }
            } else {
                i = i + 1;
            }
        }
        groups
    }

    /// Hands out a fresh track identifier.
    pub fn next_track_id(&mut self) -> (r: TrackId)
        requires
            old(self).wf(),
            old(self).tracks_count.count < u32::MAX,
        ensures
            final(self).wf(),
            final(self).peers@ == old(self).peers@,
            final(self).peers_count == old(self).peers_count,
            r.0 == old(self).tracks_count.count,
            final(self).tracks_count.count == old(self).tracks_count.count + 1,
    {
        TrackId(self.tracks_count.next_id())
    }
}

/// Appends `id` under `key` in `groups`: to the existing entry of `key` if
/// one exists, else as a new entry.  Keys stay unique.
fn push_group(groups: &mut Vec<(MemberId, Vec<PeerId>)>, key: MemberId, id: PeerId)
    requires
        group_keys_unique(old(groups)@),
    ensures
        group_keys_unique(final(groups)@),
        ({
            if exists|g: int| 0 <= g < old(groups)@.len() && (#[trigger] old(groups)@[g]).0@ == key@ {
                let g0 = choose|g0: int| 0 <= g0 < old(groups)@.len() && (#[trigger] old(groups)@[g0]).0@ == key@;
                &&& final(groups)@.len() == old(groups)@.len()
                &&& forall|g: int|
                    0 <= g < old(groups)@.len() && g != g0 ==> #[trigger] final(groups)@[g] == old(groups)@[g]
                &&& final(groups)@[g0].0 == old(groups)@[g0].0
                &&& final(groups)@[g0].1@ == old(groups)@[g0].1@.push(id)
            } else {
                &&& final(groups)@.len() == old(groups)@.len() + 1
                &&& forall|g: int|
                    0 <= g < old(groups)@.len() ==> #[trigger] final(groups)@[g] == old(groups)@[g]
                &&& final(groups)@.last().0@ == key@
                &&& final(groups)@.last().1@ == seq![id]
            }
        }),
{
    let mut g: usize = 0;
    while g < groups.len()
        invariant
            group_keys_unique(groups@),
            *groups == *old(groups),
            0 <= g <= groups@.len(),
            forall|h: int| 0 <= h < g ==> (#[trigger] groups@[h]).0@ != key@,
        decreases groups@.len() - g,
    {
        if groups[g].0 == key {
            let entry = &mut groups[g];
            entry.1.push(id);
            proof {
                let g0 = choose|g0: int| 0 <= g0 < old(groups)@.len() && (#[trigger] old(groups)@[g0]).0@ == key@;
                assert(g0 == g) by {
                    if g0 != g {
                        lemma_group_keys_distinct(old(groups)@, g0, g as int);
                    }
                }
            }
            return;
        }
        g = g + 1;
    }
    let mut ids: Vec<PeerId> = Vec::new();
    ids.push(id);
    groups.push((key, ids));
    proof {
        assert(final(groups)@.last().1@ =~= seq![id]);
    }
}

/// Two distinct entries of a group list with unique keys carry distinct
/// keys.
proof fn lemma_group_keys_distinct(groups: Seq<(MemberId, Vec<PeerId>)>, a: int, b: int)
    requires
        group_keys_unique(groups),
        0 <= a < groups.len(),
        0 <= b < groups.len(),
        a != b,
    ensures
        groups[a].0@ != groups[b].0@,
{
    if a < b {
        assert(groups[a].0@ != groups[b].0@);
    } else {
        assert(groups[b].0@ != groups[a].0@);
    }
}

} // verus!
