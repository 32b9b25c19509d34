//! Control-plane service over all rooms: creation, deletion, inspection,
//! and forwarding of member and endpoint operations.

use vstd::prelude::*;

use crate::errors::RoomError;
use crate::ids::{EndpointId, MemberId, RoomId};
use crate::member::MemberSpec;
use crate::protocol::Action;
use crate::room::Room;
use crate::room_spec::RoomSpec;

verus! {

/// An error of the control-plane service.
#[derive(Debug)]
pub enum RoomServiceError {
    /// No room with this identifier exists.
    RoomNotFound(String),
    /// A room with this identifier already exists.
    RoomAlreadyExists(String),
    /// The room refused the operation.
    RoomError(RoomError),
    /// Anything else.
    Unknown,
}

/// Signal to create a room from a description.
#[derive(Debug)]
pub struct StartRoom(pub RoomId, pub RoomSpec);

/// Signal to close and forget a room.
#[derive(Debug)]
pub struct DeleteRoom(pub RoomId);

/// Signal to delete a member from a room.
#[derive(Debug)]
pub struct DeleteMemberFromRoom {
    pub member_id: MemberId,
    pub room_id: RoomId,
}

/// Signal to delete an endpoint from a member.
#[derive(Debug)]
pub struct DeleteEndpointFromMember {
    pub room_id: RoomId,
    pub member_id: MemberId,
    pub endpoint_id: String,
}

/// Request for the serialized tree of each named room.
#[derive(Debug)]
pub struct GetRoom(pub Vec<RoomId>);

/// Request for the serialized description of each named member.
#[derive(Debug)]
pub struct GetMember(pub Vec<(RoomId, MemberId)>);

/// Request for the serialized description of each named endpoint.
#[derive(Debug)]
pub struct GetEndpoint(pub Vec<(RoomId, MemberId, String)>);

/// Signal to create a member in a room.
#[derive(Debug)]
pub struct CreateMemberInRoom {
    pub room_id: RoomId,
    pub member_id: MemberId,
    pub spec: MemberSpec,
}

/// Signal to create an endpoint on a member.
#[derive(Debug)]
pub struct CreateEndpointInRoom {
    pub room_id: RoomId,
    pub member_id: MemberId,
    pub endpoint_id: String,
    pub spec: crate::endpoints::Endpoint,
}

/// Room identifiers in `s` are pairwise distinct.
pub open spec fn room_ids_unique(s: Seq<(RoomId, Room)>) -> bool {
    forall|i: int, j: int| 0 <= i < j < s.len() ==> (#[trigger] s[i]).0@ != (#[trigger] s[j]).0@
}

/// Some room in `s` carries identifier `id`.
pub open spec fn has_room_id(s: Seq<(RoomId, Room)>, id: Seq<char>) -> bool {
    exists|i: int| 0 <= i < s.len() && (#[trigger] s[i]).0@ == id
}

/// Every room in `s` is well formed.
pub open spec fn rooms_wf(s: Seq<(RoomId, Room)>) -> bool {
    forall|i: int| 0 <= i < s.len() ==> (#[trigger] s[i]).1.wf()
}

/// Process-wide registry of rooms.
#[derive(Debug)]
pub struct RoomsRepository {
    /// The rooms, keyed by identifier; keys unique.
    pub rooms: Vec<(RoomId, Room)>,
}

impl RoomsRepository {
    /// Keys unique, every room well formed.
    pub open spec fn wf(self) -> bool {
        &&& room_ids_unique(self.rooms@)
        &&& rooms_wf(self.rooms@)
    }

    /// Creates an empty registry.
    pub fn new() -> (r: RoomsRepository)
        ensures
            r.wf(),
            r.rooms@.len() == 0,
    {
        RoomsRepository { rooms: Vec::new() }
    }

    /// Index of the room with the given identifier, if present.
    pub(crate) fn index_of(&self, room_id: &RoomId) -> (r: Option<usize>)
        ensures
            match r {
                Some(i) => 0 <= i < self.rooms@.len() && self.rooms@[i as int].0@ == room_id@,
                None => !has_room_id(self.rooms@, room_id@),
            },
    {
        let mut i: usize = 0;
        while i < self.rooms.len()
            invariant
                0 <= i <= self.rooms@.len(),
                forall|j: int| 0 <= j < i ==> (#[trigger] self.rooms@[j]).0@ != room_id@,
            decreases self.rooms@.len() - i,
        {
            if self.rooms[i].0.0 == room_id.0 {
                return Some(i);
            }
            i = i + 1;
        }
        None
    }
}

/// `tree` is the serialized description of `room`: same identifier and,
/// in roster order, each member's description.
pub open spec fn tree_matches_room(tree: RoomSpec, room: Room) -> bool {
    &&& tree.id@ == room.id@
    &&& tree.pipeline@.len() == room.participants.members@.len()
    &&& forall|k: int|
        0 <= k < tree.pipeline@.len() ==> (#[trigger] tree.pipeline@[k]).0@ == room.participants.members@[k].id@
            && crate::member::member_spec_like(
            room.participants.members@[k].spec,
            crate::room_spec::member_spec_of(tree.pipeline@[k].1),
        )
}

/// The first `n` requested trees each serialize the room registered under
/// the matching identifier.
pub open spec fn trees_match(
    repo: Seq<(RoomId, Room)>,
    ids: Seq<RoomId>,
    trees: Seq<RoomSpec>,
    n: int,
) -> bool {
    forall|kk: int|
        0 <= kk < n ==> exists|i: int|
            0 <= i < repo.len() && (#[trigger] repo[i]).0@ == (#[trigger] ids[kk])@ && tree_matches_room(
                trees[kk],
                repo[i].1,
            )
}

/// The control-plane front end over the room registry.
#[derive(Debug)]
pub struct RoomService {
    /// The rooms this service controls.
    pub room_repo: RoomsRepository,
}

impl RoomService {
    /// The registry is well formed.
    pub open spec fn wf(self) -> bool {
        self.room_repo.wf()
    }

    /// Creates the service over a registry.
    pub fn new(room_repo: RoomsRepository) -> (r: RoomService)
        ensures
            r.room_repo == room_repo,
    {
        RoomService { room_repo }
    }

    /// Starts a room from its description.  Fails with `RoomAlreadyExists`
    /// exactly when a room under that identifier is already live, and with
    /// the room's own error when the description is invalid.
    pub fn start_room(&mut self, room_id: RoomId, spec: &RoomSpec, reconnect_timeout: u64) -> (r: Result<
        (),
        RoomServiceError,
    >)
        requires
            old(self).wf(),
        ensures
            final(self).wf(),
            match r {
                Ok(()) => {
                    &&& !has_room_id(old(self).room_repo.rooms@, room_id@)
                    &&& spec.valid()
                    &&& final(self).room_repo.rooms@.len() == old(self).room_repo.rooms@.len() + 1
                    &&& forall|j: int|
                        0 <= j < old(self).room_repo.rooms@.len() ==> #[trigger] final(self).room_repo.rooms@[j]
                            == old(self).room_repo.rooms@[j]
                    &&& final(self).room_repo.rooms@.last().0@ == room_id@
                    &&& ({
                        let room = final(self).room_repo.rooms@.last().1;
                        &&& room.id@ == spec.id@
                        &&& room.peers.peers@.len() == 0
                        &&& room.participants.reconnect_timeout == reconnect_timeout
                        &&& room.participants.members@.len() == spec.pipeline@.len()
                        &&& crate::participants::no_connections(room.participants.members@)
                        &&& forall|i: int|
                            0 <= i < spec.pipeline@.len() ==> (#[trigger] room.participants.members@[i]).id@
                                == spec.pipeline@[i].0@ && room.participants.members@[i].reconnect_deadline
                                is None && crate::member::member_spec_like(
                                crate::room_spec::member_spec_of(spec.pipeline@[i].1),
                                room.participants.members@[i].spec,
                            )
                    })
                    &&& has_room_id(final(self).room_repo.rooms@, room_id@)
                },
                Err(e) => {
                    &&& *final(self) == *old(self)
                    &&& (e is RoomAlreadyExists <==> has_room_id(old(self).room_repo.rooms@, room_id@))
                    &&& (e matches RoomServiceError::RoomAlreadyExists(x) ==> x@ == room_id@)
                    &&& (!has_room_id(old(self).room_repo.rooms@, room_id@) ==> !spec.valid())
                },
            },
    {
        match self.room_repo.index_of(&room_id) {
            Some(_) => Err(RoomServiceError::RoomAlreadyExists(room_id.0)),
            None => {
                match Room::new(spec, reconnect_timeout) {
                    Ok(room) => {
                        self.room_repo.rooms.push((room_id, room));
                        proof {
                            assert forall|a: int, b: int|
                                0 <= a < b < final(self).room_repo.rooms@.len() implies (#[trigger] final(self).room_repo.rooms@[a]).0@ != (#[trigger] final(self).room_repo.rooms@[b]).0@ by {
                                if b < old(self).room_repo.rooms@.len() {
                                    assert(final(self).room_repo.rooms@[a] == old(self).room_repo.rooms@[a]);
                                    assert(final(self).room_repo.rooms@[b] == old(self).room_repo.rooms@[b]);
                                } else {
                                    assert(final(self).room_repo.rooms@[a] == old(self).room_repo.rooms@[a]);
                                }
                            }
                            assert forall|i: int|
                                0 <= i < final(self).room_repo.rooms@.len() implies (#[trigger] final(self).room_repo.rooms@[i]).1.wf() by {
                                if i < old(self).room_repo.rooms@.len() {
                                    assert(final(self).room_repo.rooms@[i] == old(self).room_repo.rooms@[i]);
                                }
                            }
                            assert(final(self).room_repo.rooms@[old(self).room_repo.rooms@.len() as int].0@
                                == room_id@);
                        }
                        Ok(())
                    }
                    Err(e) => Err(RoomServiceError::RoomError(e)),
                }
            }
        }
    }

    /// Closes a room and forgets it; the returned actions close its
    /// connections.  Deleting an absent room changes nothing.
    pub fn delete_room(&mut self, room_id: &RoomId) -> (actions: Vec<Action>)
        requires
            old(self).wf(),
        ensures
            final(self).wf(),
            !has_room_id(final(self).room_repo.rooms@, room_id@),
            !has_room_id(old(self).room_repo.rooms@, room_id@) ==> *final(self) == *old(self) && actions@.len() == 0,
            forall|k: int|
                0 <= k < actions@.len() ==> ((#[trigger] actions@[k]) matches Action::CloseConnection {
                    reason,
                    ..
                } && reason == crate::protocol::CloseReason::Normal),
            forall|i: int|
                0 <= i < old(self).room_repo.rooms@.len() && (#[trigger] old(self).room_repo.rooms@[i]).0@
                    == room_id@ ==> ({
                    let members = old(self).room_repo.rooms@[i].1.participants.members@;
                    forall|mj: int|
                        0 <= mj < members.len() && (#[trigger] members[mj]).connection is Some ==> exists|k: int|
                            0 <= k < actions@.len() && (#[trigger] actions@[k]) == (Action::CloseConnection {
                                connection: members[mj].connection->0.handle,
                                reason: crate::protocol::CloseReason::Normal,
                            })
                }),
    {
        match self.room_repo.index_of(room_id) {
            Some(i) => {
                let ghost old_rooms = self.room_repo.rooms@;
                let entry = &mut self.room_repo.rooms[i];
                let actions = entry.1.handle_close_room();
                proof {
                    assert forall|i2: int|
                        0 <= i2 < old_rooms.len() && (#[trigger] old_rooms[i2]).0@ == room_id@ implies i2
                            == i as int by {
                        if i2 != i {
                            assert(old_rooms[i as int].0@ == room_id@);
                        }
                    }
                }
                let ghost mid = self.room_repo.rooms@;
                proof {
                    assert(mid.len() == old_rooms.len());
                    assert(forall|j: int| 0 <= j < mid.len() && j != i ==> #[trigger] mid[j] == old_rooms[j]);
                    assert(mid[i as int].0 == old_rooms[i as int].0);
                }
                let _ = self.room_repo.rooms.remove(i);
                proof {
                    mid.remove_ensures(i as int);
                    assert(self.room_repo.rooms@ == mid.remove(i as int));
                    assert forall|a: int, b: int|
                        0 <= a < b < self.room_repo.rooms@.len() implies (#[trigger] self.room_repo.rooms@[a]).0@ != (
                    #[trigger] self.room_repo.rooms@[b]).0@ by {
                        let a0 = if a < i { a } else { a + 1 };
                        let b0 = if b < i { b } else { b + 1 };
                        assert(self.room_repo.rooms@[a] == mid[a0]);
                        assert(self.room_repo.rooms@[b] == mid[b0]);
                        assert(mid[a0].0@ == old_rooms[a0].0@);
                        assert(mid[b0].0@ == old_rooms[b0].0@);
                    }
                    assert forall|j: int|
                        0 <= j < self.room_repo.rooms@.len() implies (#[trigger] self.room_repo.rooms@[j]).1.wf() by {
                        let j0 = if j < i { j } else { j + 1 };
                        assert(self.room_repo.rooms@[j] == mid[j0]);
                        if j0 != i {
                            assert(mid[j0] == old_rooms[j0]);
                        }
                    }
                    assert forall|j: int|
                        0 <= j < self.room_repo.rooms@.len() implies (#[trigger] self.room_repo.rooms@[j]).0@
                            != room_id@ by {
                        let j0 = if j < i { j } else { j + 1 };
                        assert(self.room_repo.rooms@[j] == mid[j0]);
                        assert(mid[j0].0@ == old_rooms[j0].0@);
                        if j0 != i {
                            if j0 < i {
                                assert(old_rooms[j0].0@ != old_rooms[i as int].0@);
                            } else {
                                assert(old_rooms[i as int].0@ != old_rooms[j0].0@);
                            }
                        }
                    }
                }
                actions
            }
            None => Vec::new(),
        }
    }

    /// Forwards a member deletion.  Fails with `RoomNotFound` exactly when
    /// the room is absent; deleting an absent member is a no-op.
    pub fn delete_member(&mut self, room_id: &RoomId, member_id: &MemberId, now: u64) -> (r: Result<
        Vec<Action>,
        RoomServiceError,
    >)
        requires
            old(self).wf(),
        ensures
            final(self).wf(),
            r is Err ==> *final(self) == *old(self),
            (r is Err <==> !has_room_id(old(self).room_repo.rooms@, room_id@)),
            r matches Err(e) ==> (e matches RoomServiceError::RoomNotFound(x) && x@ == room_id@),
            r is Ok ==> final(self).room_repo.rooms@.len() == old(self).room_repo.rooms@.len() && forall|j: int|
                0 <= j < old(self).room_repo.rooms@.len() && (#[trigger] old(self).room_repo.rooms@[j]).0@
                    != room_id@ ==> final(self).room_repo.rooms@[j] == old(self).room_repo.rooms@[j],
            r matches Ok(actions) ==> forall|i: int|
                0 <= i < old(self).room_repo.rooms@.len() && (#[trigger] old(self).room_repo.rooms@[i]).0@
                    == room_id@ ==> ({
                    let room_old = old(self).room_repo.rooms@[i].1;
                    let room_new = final(self).room_repo.rooms@[i].1;
                    &&& final(self).room_repo.rooms@[i].0@ == room_id@
                    &&& !crate::participants::has_member_id(room_new.participants.members@, member_id@)
                    &&& (!crate::participants::has_member_id(room_old.participants.members@, member_id@)
                        ==> room_new == room_old && actions@.len() == 0)
                    &&& (crate::participants::has_member_id(room_old.participants.members@, member_id@) ==> ({
                        &&& room_new.participants.members@ == room_old.participants.members@.remove(
                            crate::participants::member_index(room_old.participants.members@, member_id@),
                        )
                        &&& (forall|j: int|
                            0 <= j < room_new.peers.peers@.len() ==> !crate::peers::involves(
                                #[trigger] room_new.peers.peers@[j],
                                member_id@,
                            ))
                        &&& crate::room::partner_removal_notified(actions@, room_old.peers.peers@, member_id@)
                    }))
                }),
    {
        match self.room_repo.index_of(room_id) {
            Some(i) => {
                let ghost old_rooms = self.room_repo.rooms@;
                let entry = &mut self.room_repo.rooms[i];
                let actions = entry.1.delete_member(member_id, now);
                proof {
                    assert forall|i2: int|
                        0 <= i2 < old_rooms.len() && (#[trigger] old_rooms[i2]).0@ == room_id@ implies i2
                            == i as int by {
                        if i2 != i {
                            assert(old_rooms[i as int].0@ == room_id@);
                        }
                    }
                }
                proof {
                    assert forall|a: int, b: int|
                        0 <= a < b < self.room_repo.rooms@.len() implies (#[trigger] self.room_repo.rooms@[a]).0@ != (
                    #[trigger] self.room_repo.rooms@[b]).0@ by {
                        assert(self.room_repo.rooms@[a].0 == old_rooms[a].0);
                        assert(self.room_repo.rooms@[b].0 == old_rooms[b].0);
                    }
                    assert forall|j: int|
                        0 <= j < self.room_repo.rooms@.len() implies (#[trigger] self.room_repo.rooms@[j]).1.wf() by {
                        if j != i {
                            assert(self.room_repo.rooms@[j] == old_rooms[j]);
                        }
                    }
                }
                Ok(actions)
            }
            None => Err(RoomServiceError::RoomNotFound(room_id.0.clone())),
        }
    }

    /// Forwards an endpoint deletion; an absent room is a no-op, as is an
    /// absent member or endpoint.
    pub fn delete_endpoint(&mut self, room_id: &RoomId, member_id: &MemberId, endpoint_id: &EndpointId) -> (actions:
        Vec<Action>)
        requires
            old(self).wf(),
        ensures
            final(self).wf(),
            !has_room_id(old(self).room_repo.rooms@, room_id@) ==> *final(self) == *old(self) && actions@.len() == 0,
            final(self).room_repo.rooms@.len() == old(self).room_repo.rooms@.len(),
            forall|j: int|
                0 <= j < old(self).room_repo.rooms@.len() && (#[trigger] old(self).room_repo.rooms@[j]).0@
                    != room_id@ ==> final(self).room_repo.rooms@[j] == old(self).room_repo.rooms@[j],
            forall|i: int|
                0 <= i < old(self).room_repo.rooms@.len() && (#[trigger] old(self).room_repo.rooms@[i]).0@
                    == room_id@ ==> ({
                    let room_old = old(self).room_repo.rooms@[i].1;
                    let room_new = final(self).room_repo.rooms@[i].1;
                    let ms = room_old.participants.members@;
                    &&& final(self).room_repo.rooms@[i].0@ == room_id@
                    &&& (!crate::participants::has_member_id(ms, member_id@) ==> room_new == room_old
                        && actions@.len() == 0)
                    &&& (crate::participants::has_member_id(ms, member_id@) && (exists|e2: int|
                        0 <= e2 < ms[crate::participants::member_index(ms, member_id@)].spec.pipeline@.len() && (
                        #[trigger] ms[crate::participants::member_index(
                            ms,
                            member_id@,
                        )].spec.pipeline@[e2]).0@ == endpoint_id@) ==> ({
                        &&& (forall|x: crate::peer::PeerStateMachine|
                            room_old.peers.peers@.contains(x) && !room_new.peers.peers@.contains(x)
                                ==> crate::room::peers_removed_event_for(
                                actions@,
                                crate::peers::member_of(x),
                                x.context().id,
                            ))
                        &&& (forall|j: int|
                            0 <= j < room_new.peers.peers@.len() && crate::peers::member_of(
                                #[trigger] room_new.peers.peers@[j],
                            ) == member_id@ ==> crate::room::peer_relation_alive(
                                room_new.participants.members@,
                                room_old.id@,
                                room_new.peers.peers@[j],
                            ))
                        &&& exists|e2: int|
                            0 <= e2 < ms[crate::participants::member_index(
                                ms,
                                member_id@,
                            )].spec.pipeline@.len() && (#[trigger] ms[crate::participants::member_index(
                                ms,
                                member_id@,
                            )].spec.pipeline@[e2]).0@ == endpoint_id@
                                && room_new.participants.members@[crate::participants::member_index(
                                ms,
                                member_id@,
                            )].spec.pipeline@ == ms[crate::participants::member_index(
                                ms,
                                member_id@,
                            )].spec.pipeline@.remove(e2)
                    }))
                }),
    {
        match self.room_repo.index_of(room_id) {
            Some(i) => {
                let ghost old_rooms = self.room_repo.rooms@;
                let entry = &mut self.room_repo.rooms[i];
                let actions = entry.1.delete_endpoint(member_id, endpoint_id);
                proof {
                    assert forall|i2: int|
                        0 <= i2 < old_rooms.len() && (#[trigger] old_rooms[i2]).0@ == room_id@ implies i2
                            == i as int by {
                        if i2 != i {
                            assert(old_rooms[i as int].0@ == room_id@);
                        }
                    }
                }
                proof {
                    assert forall|a: int, b: int|
                        0 <= a < b < self.room_repo.rooms@.len() implies (#[trigger] self.room_repo.rooms@[a]).0@ != (
                    #[trigger] self.room_repo.rooms@[b]).0@ by {
                        assert(self.room_repo.rooms@[a].0 == old_rooms[a].0);
                        assert(self.room_repo.rooms@[b].0 == old_rooms[b].0);
                    }
                    assert forall|j: int|
                        0 <= j < self.room_repo.rooms@.len() implies (#[trigger] self.room_repo.rooms@[j]).1.wf() by {
                        if j != i {
                            assert(self.room_repo.rooms@[j] == old_rooms[j]);
                        }
                    }
                }
                actions
            }
            None => Vec::new(),
        }
    }

    /// Forwards a member creation.  Fails with `RoomNotFound` exactly when
    /// the room is absent, else with the room's own verdict.
    pub fn create_member(&mut self, room_id: &RoomId, member_id: MemberId, spec: MemberSpec) -> (r: Result<
        (),
        RoomServiceError,
    >)
        requires
            old(self).wf(),
        ensures
            final(self).wf(),
            !has_room_id(old(self).room_repo.rooms@, room_id@) ==> ((r matches Err(e) && (e matches
                RoomServiceError::RoomNotFound(x) && x@ == room_id@)) && *final(self) == *old(self)),
            final(self).room_repo.rooms@.len() == old(self).room_repo.rooms@.len(),
            forall|j: int|
                0 <= j < old(self).room_repo.rooms@.len() && (#[trigger] old(self).room_repo.rooms@[j]).0@
                    != room_id@ ==> final(self).room_repo.rooms@[j] == old(self).room_repo.rooms@[j],
            forall|i: int|
                0 <= i < old(self).room_repo.rooms@.len() && (#[trigger] old(self).room_repo.rooms@[i]).0@
                    == room_id@ ==> ({
                    let room_old = old(self).room_repo.rooms@[i].1;
                    let room_new = final(self).room_repo.rooms@[i].1;
                    &&& final(self).room_repo.rooms@[i].0@ == room_id@
                    &&& (r is Ok <==> spec.wf() && !crate::participants::has_member_id(
                        room_old.participants.members@,
                        member_id@,
                    ))
                    &&& (r is Ok ==> room_new.participants.members@ == room_old.participants.members@.push(
                        crate::participants::Member {
                            id: member_id,
                            spec,
                            connection: None,
                            reconnect_deadline: None,
                        },
                    ))
                    &&& (r is Err ==> room_new == room_old)
                }),
    {
        match self.room_repo.index_of(room_id) {
            Some(i) => {
                let ghost old_rooms = self.room_repo.rooms@;
                let entry = &mut self.room_repo.rooms[i];
                let out = match entry.1.create_member(member_id, spec) {
                    Ok(()) => Ok(()),
                    Err(e) => Err(RoomServiceError::RoomError(e)),
                };
                proof {
                    assert forall|i2: int|
                        0 <= i2 < old_rooms.len() && (#[trigger] old_rooms[i2]).0@ == room_id@ implies i2
                            == i as int by {
                        if i2 != i {
                            assert(old_rooms[i as int].0@ == room_id@);
                        }
                    }
                }
                proof {
                    assert forall|a: int, b: int|
                        0 <= a < b < self.room_repo.rooms@.len() implies (#[trigger] self.room_repo.rooms@[a]).0@ != (
                    #[trigger] self.room_repo.rooms@[b]).0@ by {
                        assert(self.room_repo.rooms@[a].0 == old_rooms[a].0);
                        assert(self.room_repo.rooms@[b].0 == old_rooms[b].0);
                    }
                    assert forall|j: int|
                        0 <= j < self.room_repo.rooms@.len() implies (#[trigger] self.room_repo.rooms@[j]).1.wf() by {
                        if j != i {
                            assert(self.room_repo.rooms@[j] == old_rooms[j]);
                        }
                    }
                }
                out
            }
            None => Err(RoomServiceError::RoomNotFound(room_id.0.clone())),
        }
    }

    /// Forwards an endpoint creation.  Fails with `RoomNotFound` exactly
    /// when the room is absent, else with the room's own verdict.
    pub fn create_endpoint(
        &mut self,
        room_id: &RoomId,
        member_id: &MemberId,
        endpoint_id: EndpointId,
        endpoint: crate::endpoints::Endpoint,
    ) -> (r: Result<(), RoomServiceError>)
        requires
            old(self).wf(),
        ensures
            final(self).wf(),
            !has_room_id(old(self).room_repo.rooms@, room_id@) ==> ((r matches Err(e) && (e matches
                RoomServiceError::RoomNotFound(x) && x@ == room_id@)) && *final(self) == *old(self)),
            final(self).room_repo.rooms@.len() == old(self).room_repo.rooms@.len(),
            forall|j: int|
                0 <= j < old(self).room_repo.rooms@.len() && (#[trigger] old(self).room_repo.rooms@[j]).0@
                    != room_id@ ==> final(self).room_repo.rooms@[j] == old(self).room_repo.rooms@[j],
            forall|i: int|
                0 <= i < old(self).room_repo.rooms@.len() && (#[trigger] old(self).room_repo.rooms@[i]).0@
                    == room_id@ ==> ({
                    let room_old = old(self).room_repo.rooms@[i].1;
                    let room_new = final(self).room_repo.rooms@[i].1;
                    let ms = room_old.participants.members@;
                    &&& final(self).room_repo.rooms@[i].0@ == room_id@
                    &&& (r is Err ==> room_new == room_old)
                    &&& (!crate::participants::has_member_id(ms, member_id@) ==> r is Err)
                    &&& (r is Ok ==> crate::participants::has_member_id(ms, member_id@) && ({
                        let mi = crate::participants::member_index(ms, member_id@);
                        let np = room_new.participants.members@[mi].spec.pipeline@;
                        &&& np.len() == ms[mi].spec.pipeline@.len() + 1
                        &&& np.last().0@ == endpoint_id@
                        &&& (endpoint matches crate::endpoints::Endpoint::WebRtcPublish(p) ==> np.last().1 == (
                        crate::member::MemberElement::WebRtcPublishEndpoint { spec: p }))
                        &&& (endpoint matches crate::endpoints::Endpoint::WebRtcPlay(p) ==> np.last().1 == (
                        crate::member::MemberElement::WebRtcPlayEndpoint { spec: p }))
                    }))
                }),
    {
        match self.room_repo.index_of(room_id) {
            Some(i) => {
                let ghost old_rooms = self.room_repo.rooms@;
                let entry = &mut self.room_repo.rooms[i];
                let out = match entry.1.create_endpoint(member_id, endpoint_id, endpoint) {
                    Ok(()) => Ok(()),
                    Err(e) => Err(RoomServiceError::RoomError(e)),
                };
                proof {
                    assert forall|i2: int|
                        0 <= i2 < old_rooms.len() && (#[trigger] old_rooms[i2]).0@ == room_id@ implies i2
                            == i as int by {
                        if i2 != i {
                            assert(old_rooms[i as int].0@ == room_id@);
                        }
                    }
                }
                proof {
                    assert forall|a: int, b: int|
                        0 <= a < b < self.room_repo.rooms@.len() implies (#[trigger] self.room_repo.rooms@[a]).0@ != (
                    #[trigger] self.room_repo.rooms@[b]).0@ by {
                        assert(self.room_repo.rooms@[a].0 == old_rooms[a].0);
                        assert(self.room_repo.rooms@[b].0 == old_rooms[b].0);
                    }
                    assert forall|j: int|
                        0 <= j < self.room_repo.rooms@.len() implies (#[trigger] self.room_repo.rooms@[j]).1.wf() by {
                        if j != i {
                            assert(self.room_repo.rooms@[j] == old_rooms[j]);
                        }
                    }
                }
                out
            }
            None => Err(RoomServiceError::RoomNotFound(room_id.0.clone())),
        }
    }

    /// Serializes one room's tree.  Fails with `RoomNotFound` exactly when
    /// the room is absent.
    pub fn get_room(&self, room_id: &RoomId) -> (r: Result<RoomSpec, RoomServiceError>)
        requires
            self.wf(),
        ensures
            match r {
                Ok(tree) => exists|i: int|
                    {
                        let room = (#[trigger] self.room_repo.rooms@[i]).1;
                        &&& 0 <= i < self.room_repo.rooms@.len()
                        &&& self.room_repo.rooms@[i].0@ == room_id@
                        &&& tree.id@ == room.id@
                        &&& tree.pipeline@.len() == room.participants.members@.len()
                        &&& forall|k: int|
                            0 <= k < tree.pipeline@.len() ==> (#[trigger] tree.pipeline@[k]).0@
                                == room.participants.members@[k].id@ && crate::member::member_spec_like(
                                room.participants.members@[k].spec,
                                crate::room_spec::member_spec_of(tree.pipeline@[k].1),
                            )
                    },
                Err(e) => !has_room_id(self.room_repo.rooms@, room_id@) && (e matches
                    RoomServiceError::RoomNotFound(x) && x@ == room_id@),
            },
            has_room_id(self.room_repo.rooms@, room_id@) <==> r is Ok,
    {
        match self.room_repo.index_of(room_id) {
            Some(i) => Ok(self.room_repo.rooms[i].1.serialize_room()),
            None => Err(RoomServiceError::RoomNotFound(room_id.0.clone())),
        }
    }

    /// Serializes the trees of all named rooms, in order.  One missing
    /// room fails the whole request with that room's identifier; the
    /// request succeeds exactly when every named room exists.
    pub fn get_rooms(&self, ids: &Vec<RoomId>) -> (r: Result<Vec<RoomSpec>, RoomServiceError>)
        requires
            self.wf(),
        ensures
            (forall|k: int| 0 <= k < ids@.len() ==> has_room_id(self.room_repo.rooms@, (#[trigger] ids@[k])@))
                <==> r is Ok,
            r matches Ok(trees) ==> trees@.len() == ids@.len() && trees_match(
                self.room_repo.rooms@,
                ids@,
                trees@,
                ids@.len() as int,
            ),
            r matches Err(e) ==> (e matches RoomServiceError::RoomNotFound(x) && exists|k: int|
                0 <= k < ids@.len() && (#[trigger] ids@[k])@ == x@ && !has_room_id(self.room_repo.rooms@, ids@[k]@)),
    {
        let mut out: Vec<RoomSpec> = Vec::new();
        let mut k: usize = 0;
        while k < ids.len()
            invariant
                0 <= k <= ids@.len(),
                self.wf(),
                out@.len() == k,
                forall|kk: int| 0 <= kk < k ==> has_room_id(self.room_repo.rooms@, (#[trigger] ids@[kk])@),
                trees_match(self.room_repo.rooms@, ids@, out@, k as int),
            decreases ids@.len() - k,
        {
            let ghost prev = out@;
            match self.get_room(&ids[k]) {
                Ok(tree) => {
                    let ghost gtree = tree;
                    out.push(tree);
                    proof {
                        let i = choose|i: int|
                            {
                                let room = (#[trigger] self.room_repo.rooms@[i]).1;
                                &&& 0 <= i < self.room_repo.rooms@.len()
                                &&& self.room_repo.rooms@[i].0@ == ids@[k as int]@
                                &&& gtree.id@ == room.id@
                                &&& gtree.pipeline@.len() == room.participants.members@.len()
                                &&& forall|kk: int|
                                    0 <= kk < gtree.pipeline@.len() ==> (#[trigger] gtree.pipeline@[kk]).0@
                                        == room.participants.members@[kk].id@ && crate::member::member_spec_like(
                                        room.participants.members@[kk].spec,
                                        crate::room_spec::member_spec_of(gtree.pipeline@[kk].1),
                                    )
                            };
                        assert(tree_matches_room(gtree, self.room_repo.rooms@[i].1));
                        assert(out@[k as int] == gtree);
                        assert forall|kk: int|
                            0 <= kk < k + 1 implies exists|i2: int|
                                0 <= i2 < self.room_repo.rooms@.len() && (#[trigger] self.room_repo.rooms@[i2]).0@
                                    == (#[trigger] ids@[kk])@ && tree_matches_room(
                                    out@[kk],
                                    self.room_repo.rooms@[i2].1,
                                ) by {
                            if kk < k {
                                assert(out@[kk] == prev[kk]);
                                assert(trees_match(self.room_repo.rooms@, ids@, prev, k as int));
                            }
                        }
                        assert(trees_match(self.room_repo.rooms@, ids@, out@, k + 1));
                    }
                }
                Err(e) => {
                    return Err(e);
                }
            }
            k = k + 1;
        }
        Ok(out)
    }

    /// Serializes one member's description.  Fails with `RoomNotFound`
    /// exactly when the room is absent, and with the room's verdict for an
    /// unknown member.
    pub fn get_member(&self, room_id: &RoomId, member_id: &MemberId) -> (r: Result<MemberSpec, RoomServiceError>)
        requires
            self.wf(),
        ensures
            !has_room_id(self.room_repo.rooms@, room_id@) ==> (r matches Err(e) && (e matches
                RoomServiceError::RoomNotFound(x) && x@ == room_id@)),
            forall|i: int|
                0 <= i < self.room_repo.rooms@.len() && (#[trigger] self.room_repo.rooms@[i]).0@ == room_id@
                    ==> ({
                    let members = self.room_repo.rooms@[i].1.participants.members@;
                    &&& (crate::participants::has_member_id(members, member_id@) <==> r is Ok)
                    &&& (r matches Ok(spec) ==> crate::member::member_spec_like(
                        members[crate::participants::member_index(members, member_id@)].spec,
                        spec,
                    ))
                    &&& (r matches Err(e) ==> (e matches RoomServiceError::RoomError(re) && re
                        is MemberNotFound))
                }),
    {
        match self.room_repo.index_of(room_id) {
            Some(i) => {
                proof {
                    assert forall|i2: int|
                        0 <= i2 < self.room_repo.rooms@.len() && (#[trigger] self.room_repo.rooms@[i2]).0@
                            == room_id@ implies i2 == i as int by {
                        if i2 != i {
                            assert(self.room_repo.rooms@[i as int].0@ == room_id@);
                        }
                    }
                }
                match self.room_repo.rooms[i].1.serialize_member(member_id) {
                    Ok(spec) => Ok(spec),
                    Err(e) => Err(RoomServiceError::RoomError(e)),
                }
            }
            None => Err(RoomServiceError::RoomNotFound(room_id.0.clone())),
        }
    }
}

} // verus!
