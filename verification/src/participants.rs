//! Per-room roster of members: their static descriptions, their live
//! connections, and their reconnect deadlines.

use vstd::prelude::*;

use crate::ids::MemberId;
use crate::member::MemberSpec;
use crate::protocol::{AuthorizationError, ClosedReason};

verus! {

/// Token standing for a live client transport.  The host maps it to the
/// real connection and performs sends and closes on it.
#[derive(Clone, Copy, Debug, PartialEq, Eq, Structural)]
pub struct RpcConnection {
    pub handle: u64,
}

/// A member of a room at run time: its description plus its live state.
#[derive(Debug)]
pub struct Member {
    /// Identifier of the member within its room.
    pub id: MemberId,
    /// Static description the member was created from.
    pub spec: MemberSpec,
    /// The live connection, if the member is connected.
    pub connection: Option<RpcConnection>,
    /// Instant (milliseconds) when the reconnect grace expires, if it runs.
    pub reconnect_deadline: Option<u64>,
}

impl Member {
    /// Borrow of the live connection, if any.
    pub fn connection(&self) -> (r: Option<&RpcConnection>)
        ensures
            match r {
                Some(c) => self.connection == Some(*c),
                None => self.connection is None,
            },
    {
        self.connection.as_ref()
    }

    /// Removes and returns the live connection.
    pub fn take_connection(&mut self) -> (r: Option<RpcConnection>)
        ensures
            r == old(self).connection,
            *final(self) == (Member { connection: None, ..*old(self) }),
    {
        self.connection.take()
    }

    /// Borrow of the member's identifier.
    pub fn id(&self) -> (r: &MemberId)
        ensures
            r == &self.id,
    {
        &self.id
    }
}

/// Member identifiers in `s` are pairwise distinct.
pub open spec fn member_ids_unique(s: Seq<Member>) -> bool {
    forall|i: int, j: int| 0 <= i < j < s.len() ==> (#[trigger] s[i]).id@ != (#[trigger] s[j]).id@
}

/// Some member in `s` carries identifier `m`.
pub open spec fn has_member_id(s: Seq<Member>, m: Seq<char>) -> bool {
    exists|i: int| 0 <= i < s.len() && (#[trigger] s[i]).id@ == m
}

/// The index of the member with identifier `m` in `s`.
pub open spec fn member_index(s: Seq<Member>, m: Seq<char>) -> int {
    choose|i: int| 0 <= i < s.len() && (#[trigger] s[i]).id@ == m
}

/// No member in `s` holds a live connection.
pub open spec fn no_connections(s: Seq<Member>) -> bool {
    forall|i: int| 0 <= i < s.len() ==> (#[trigger] s[i]).connection is None
}

/// Every connection in `r` was the live connection of some member of `ms`.
pub open spec fn conns_sound(ms: Seq<Member>, r: Seq<RpcConnection>) -> bool {
    forall|k: int|
        0 <= k < r.len() ==> exists|i: int|
            0 <= i < ms.len() && (#[trigger] ms[i]).connection == Some(#[trigger] r[k])
}

/// Every live connection of a member of `ms` is in `r`.
pub open spec fn conns_complete(ms: Seq<Member>, r: Seq<RpcConnection>) -> bool {
    forall|i: int| 0 <= i < ms.len() && (#[trigger] ms[i]).connection is Some ==> r.contains(ms[i].connection->0)
}

/// Service owning the roster of one room.
#[derive(Debug)]
pub struct ParticipantService {
    /// The members, with pairwise distinct identifiers.
    pub members: Vec<Member>,
    /// Reconnect grace in milliseconds for members without an override.
    pub reconnect_timeout: u64,
}

impl ParticipantService {
    /// Identifiers are pairwise distinct.
    pub open spec fn wf(self) -> bool {
        member_ids_unique(self.members@)
    }

    /// Creates a service over the given roster.
    pub fn new(members: Vec<Member>, reconnect_timeout: u64) -> (r: ParticipantService)
        requires
            member_ids_unique(members@),
        ensures
            r.members@ == members@,
            r.reconnect_timeout == reconnect_timeout,
            r.wf(),
    {
        ParticipantService { members, reconnect_timeout }
    }

    /// Index of the member with the given identifier, if present.
    fn index_of(&self, member_id: &MemberId) -> (r: Option<usize>)
        ensures
            match r {
                Some(i) => 0 <= i < self.members@.len() && self.members@[i as int].id@ == member_id@,
                None => !has_member_id(self.members@, member_id@),
            },
    {
        let mut i: usize = 0;
        while i < self.members.len()
            invariant
                0 <= i <= self.members@.len(),
                forall|j: int| 0 <= j < i ==> (#[trigger] self.members@[j]).id@ != member_id@,
            decreases self.members@.len() - i,
        {
            if self.members[i].id.0 == member_id.0 {
                return Some(i);
            }
            i = i + 1;
        }
        None
    }

    /// Borrow of the member with the given identifier.
    pub fn get_member_by_id(&self, member_id: &MemberId) -> (r: Option<&Member>)
        ensures
            match r {
                Some(m) => exists|i: int|
                    0 <= i < self.members@.len() && #[trigger] self.members@[i] == *m && m.id@ == member_id@,
                None => !has_member_id(self.members@, member_id@),
            },
    {
        match self.index_of(member_id) {
            Some(i) => {
                let m = &self.members[i];
                proof {
                    assert(self.members@[i as int] == *m);
                }
                Some(m)
            }
            None => None,
        }
    }

    /// Whether the member exists and holds a live connection.
    pub fn member_has_connection(&self, member_id: &MemberId) -> (r: bool)
        requires
            self.wf(),
        ensures
            r == exists|i: int|
                0 <= i < self.members@.len() && (#[trigger] self.members@[i]).id@ == member_id@
                    && self.members@[i].connection is Some,
    {
        match self.index_of(member_id) {
            Some(i) => {
                let has = self.members[i].connection.is_some();
                proof {
                    if has {
                        assert(0 <= i < self.members@.len() && self.members@[i as int].id@ == member_id@
                            && self.members@[i as int].connection is Some);
                    } else {
                        assert forall|j: int|
                            0 <= j < self.members@.len() && (#[trigger] self.members@[j]).id@ == member_id@
                                implies !(self.members@[j].connection is Some) by {
                            if j != i as int {
                                crate::participants::lemma_member_ids_distinct(self.members@, i as int, j);
                            }
                        }
                    }
                }
                has
            }
            None => false,
        }
    }

    /// Authorizes a presented credential for a member: `MemberNotExists` if
    /// the member is unknown, `InvalidCredentials` if the credential does
    /// not verify, `Ok` otherwise.
    pub fn authorize(&self, member_id: &MemberId, credentials: &str) -> (r: Result<(), AuthorizationError>)
        requires
            self.wf(),
        ensures
            match r {
                Ok(()) => has_member_id(self.members@, member_id@) && self.members@[member_index(
                    self.members@,
                    member_id@,
                )].spec.credentials.spec_verify(credentials@),
                Err(e) => match e {
                    AuthorizationError::MemberNotExists => !has_member_id(self.members@, member_id@),
                    AuthorizationError::InvalidCredentials => has_member_id(self.members@, member_id@)
                        && !self.members@[member_index(self.members@, member_id@)].spec.credentials.spec_verify(
                        credentials@,
                    ),
                },
            },
    {
        match self.index_of(member_id) {
            Some(i) => {
                let ok = self.members[i].spec.credentials().verify(credentials);
                proof {
                    let w = member_index(self.members@, member_id@);
                    if w != i as int {
                        lemma_member_ids_distinct(self.members@, i as int, w);
                    }
                }
                if ok {
                    Ok(())
                } else {
                    Err(AuthorizationError::InvalidCredentials)
                }
            }
            None => Err(AuthorizationError::MemberNotExists),
        }
    }

    /// Installs a new live connection for the member, cancelling its
    /// reconnect deadline.  Returns the connection this one replaces, if a
    /// previous one was live: the caller must close it with reason
    /// `Replaced` before using the new one.
    pub fn connection_established(&mut self, member_id: &MemberId, connection: RpcConnection) -> (r: Result<
        Option<RpcConnection>,
        crate::errors::RoomError,
    >)
        requires
            old(self).wf(),
        ensures
            final(self).wf(),
            final(self).reconnect_timeout == old(self).reconnect_timeout,
            match r {
                Ok(replaced) => {
                    &&& has_member_id(old(self).members@, member_id@)
                    &&& ({
                        let i = member_index(old(self).members@, member_id@);
                        &&& replaced == old(self).members@[i].connection
                        &&& final(self).members@ == old(self).members@.update(
                            i,
                            Member {
                                connection: Some(connection),
                                reconnect_deadline: None,
                                ..old(self).members@[i]
                            },
                        )
                    })
                },
                Err(e) => {
                    &&& *final(self) == *old(self)
                    &&& !has_member_id(old(self).members@, member_id@)
                    &&& e is MemberNotFound
                },
            },
    {
        match self.index_of(member_id) {
            Some(i) => {
                let replaced = self.members[i].connection.take();
                let entry = &mut self.members[i];
                entry.connection = Some(connection);
                entry.reconnect_deadline = None;
                proof {
                    let w = member_index(old(self).members@, member_id@);
                    if w != i as int {
                        lemma_member_ids_distinct(old(self).members@, i as int, w);
                    }
                    assert(final(self).members@ =~= old(self).members@.update(
                        i as int,
                        Member {
                            connection: Some(connection),
                            reconnect_deadline: None,
                            ..old(self).members@[i as int]
                        },
                    ));
                    assert forall|a: int, b: int|
                        0 <= a < b < final(self).members@.len() implies (#[trigger] final(self).members@[a]).id@ != (
                    #[trigger] final(self).members@[b]).id@ by {
                        assert(old(self).members@[a].id@ != old(self).members@[b].id@);
                    }
                }
                Ok(replaced)
            }
            None => Err(crate::errors::RoomError::MemberNotFound(member_id.clone())),
        }
    }

    /// The reconnect grace of the member at index `i`, in milliseconds: its
    /// own override or the room default.
    pub open spec fn spec_reconnect_timeout_of(self, i: int) -> u64 {
        match self.members@[i].spec.reconnect_timeout {
            Some(t) => t,
            None => self.reconnect_timeout,
        }
    }

    /// Drops the member's connection.  For `Disconnect` and `Idle` the
    /// member keeps its peers and a reconnect deadline starts; a final
    /// `Closed` clears the deadline, and the caller tears the peers down.
    /// Returns the dropped connection, if one was live.
    pub fn connection_closed(&mut self, member_id: &MemberId, reason: ClosedReason, now: u64) -> (r: Option<
        RpcConnection,
    >)
        requires
            old(self).wf(),
        ensures
            final(self).wf(),
            final(self).reconnect_timeout == old(self).reconnect_timeout,
            !has_member_id(old(self).members@, member_id@) ==> *final(self) == *old(self) && r is None,
            has_member_id(old(self).members@, member_id@) ==> ({
                let i = member_index(old(self).members@, member_id@);
                let deadline = if now <= u64::MAX - old(self).spec_reconnect_timeout_of(i) {
                    (now + old(self).spec_reconnect_timeout_of(i)) as u64
                } else {
                    u64::MAX
                };
                &&& r == old(self).members@[i].connection
                &&& final(self).members@ == old(self).members@.update(
                    i,
                    Member {
                        connection: None,
                        reconnect_deadline: if reason is Closed {
                            None
                        } else {
                            Some(deadline)
                        },
                        ..old(self).members@[i]
                    },
                )
            }),
    {
        match self.index_of(member_id) {
            Some(i) => {
                let dropped = self.members[i].connection.take();
                let t = match self.members[i].spec.reconnect_timeout() {
                    Some(t) => t,
                    None => self.reconnect_timeout,
                };
                let deadline = if now <= u64::MAX - t {
                    now + t
                } else {
                    u64::MAX
                };
                let entry = &mut self.members[i];
                entry.reconnect_deadline = match reason {
                    ClosedReason::Closed => None,
                    ClosedReason::Disconnect => Some(deadline),
                    ClosedReason::Idle => Some(deadline),
                };
                proof {
                    let w = member_index(old(self).members@, member_id@);
                    if w != i as int {
                        lemma_member_ids_distinct(old(self).members@, i as int, w);
                    }
                    assert(final(self).members@ =~= old(self).members@.update(
                        i as int,
                        Member {
                            connection: None,
                            reconnect_deadline: if reason is Closed {
                                None
                            } else {
                                Some(deadline)
                            },
                            ..old(self).members@[i as int]
                        },
                    ));
                    assert forall|a: int, b: int|
                        0 <= a < b < final(self).members@.len() implies (#[trigger] final(self).members@[a]).id@ != (
                    #[trigger] final(self).members@[b]).id@ by {
                        assert(old(self).members@[a].id@ != old(self).members@[b].id@);
                    }
                }
                dropped
            }
            None => None,
        }
    }

    /// Adds a member to the roster, disconnected.  Fails if the identifier
    /// is taken.
    pub fn insert_member(&mut self, member: Member) -> (r: Result<(), crate::errors::RoomError>)
        requires
            old(self).wf(),
        ensures
            final(self).wf(),
            final(self).reconnect_timeout == old(self).reconnect_timeout,
            match r {
                Ok(()) => {
                    &&& !has_member_id(old(self).members@, member.id@)
                    &&& final(self).members@ == old(self).members@.push(member)
                },
                Err(e) => {
                    &&& *final(self) == *old(self)
                    &&& has_member_id(old(self).members@, member.id@)
                    &&& (e matches crate::errors::RoomError::MemberAlreadyExists(x) && x@ == member.id@)
                },
            },
    {
        match self.index_of(&member.id) {
            Some(_) => Err(crate::errors::RoomError::MemberAlreadyExists(member.id.clone())),
            None => {
                self.members.push(member);
                proof {
                    assert forall|a: int, b: int|
                        0 <= a < b < final(self).members@.len() implies (#[trigger] final(self).members@[a]).id@ != (
                    #[trigger] final(self).members@[b]).id@ by {
                        if b < old(self).members@.len() {
                            assert(final(self).members@[a] == old(self).members@[a]);
                            assert(final(self).members@[b] == old(self).members@[b]);
                        } else {
                            assert(final(self).members@[a] == old(self).members@[a]);
                            assert(!has_member_id(old(self).members@, final(self).members@[b].id@));
                        }
                    }
                }
                Ok(())
            }
        }
    }

    /// Removes the member with the given identifier, if present, and
    /// returns it.  Removing an absent member changes nothing.
    pub fn remove_member(&mut self, member_id: &MemberId) -> (r: Option<Member>)
        requires
            old(self).wf(),
        ensures
            final(self).wf(),
            final(self).reconnect_timeout == old(self).reconnect_timeout,
            match r {
                Some(m) => {
                    &&& m.id@ == member_id@
                    &&& exists|i: int|
                        0 <= i < old(self).members@.len() && old(self).members@[i] == m && final(self).members@
                            == old(self).members@.remove(i)
                    &&& !has_member_id(final(self).members@, member_id@)
                },
                None => {
                    &&& *final(self) == *old(self)
                    &&& !has_member_id(old(self).members@, member_id@)
                },
            },
    {
        match self.index_of(member_id) {
            Some(i) => {
                let m = self.members.remove(i);
                proof {
                    old(self).members@.remove_ensures(i as int);
                    assert forall|a: int, b: int|
                        0 <= a < b < final(self).members@.len() implies (#[trigger] final(self).members@[a]).id@ != (
                    #[trigger] final(self).members@[b]).id@ by {
                        let a0 = if a < i { a } else { a + 1 };
                        let b0 = if b < i { b } else { b + 1 };
                        assert(final(self).members@[a] == old(self).members@[a0]);
                        assert(final(self).members@[b] == old(self).members@[b0]);
                        lemma_member_ids_distinct(old(self).members@, a0, b0);
                    }
                    assert forall|j: int|
                        0 <= j < final(self).members@.len() implies (#[trigger] final(self).members@[j]).id@
                            != member_id@ by {
                        let j0 = if j < i { j } else { j + 1 };
                        assert(final(self).members@[j] == old(self).members@[j0]);
                        if j0 != i {
                            lemma_member_ids_distinct(old(self).members@, i as int, j0);
                        }
                    }
                }
                Some(m)
            }
            None => None,
        }
    }

    /// Adds an endpoint under `endpoint_id` to the member's pipeline.
    /// Fails if the member is unknown or the key is taken.
    pub fn add_endpoint(
        &mut self,
        member_id: &MemberId,
        endpoint_id: crate::ids::EndpointId,
        element: crate::member::MemberElement,
    ) -> (r: Result<(), crate::errors::RoomError>)
        requires
            old(self).wf(),
        ensures
            final(self).wf(),
            final(self).reconnect_timeout == old(self).reconnect_timeout,
            r is Err ==> *final(self) == *old(self),
            r matches Err(e) ==> e is MemberNotFound || e is EndpointAlreadyExists,
            !has_member_id(old(self).members@, member_id@) ==> (r matches Err(e) && (e matches
                crate::errors::RoomError::MemberNotFound(x) && x@ == member_id@)),
            has_member_id(old(self).members@, member_id@) && (exists|e2: int|
                0 <= e2 < old(self).members@[member_index(old(self).members@, member_id@)].spec.pipeline@.len() && (
                #[trigger] old(self).members@[member_index(
                    old(self).members@,
                    member_id@,
                )].spec.pipeline@[e2]).0@ == endpoint_id@) ==> (r matches Err(e) && (e matches
                crate::errors::RoomError::EndpointAlreadyExists(x) && x@ == endpoint_id@)),
            has_member_id(old(self).members@, member_id@) && !(exists|e2: int|
                0 <= e2 < old(self).members@[member_index(old(self).members@, member_id@)].spec.pipeline@.len() && (
                #[trigger] old(self).members@[member_index(
                    old(self).members@,
                    member_id@,
                )].spec.pipeline@[e2]).0@ == endpoint_id@) ==> r is Ok,
            r is Ok ==> has_member_id(old(self).members@, member_id@) && ({
                let i = member_index(old(self).members@, member_id@);
                let m = old(self).members@[i];
                &&& (forall|e: int| 0 <= e < m.spec.pipeline@.len() ==> (#[trigger] m.spec.pipeline@[e]).0@
                    != endpoint_id@)
                &&& final(self).members@ == old(self).members@.update(
                    i,
                    Member {
                        spec: crate::member::MemberSpec {
                            pipeline: final(self).members@[i].spec.pipeline,
                            ..m.spec
                        },
                        ..m
                    },
                )
                &&& final(self).members@[i].spec.pipeline@ == m.spec.pipeline@.push((endpoint_id, element))
            }),
    {
        match self.index_of(member_id) {
            Some(i) => {
                proof {
                    let w = member_index(old(self).members@, member_id@);
                    if w != i as int {
                        lemma_member_ids_distinct(old(self).members@, i as int, w);
                    }
                }
                let pipeline_len = self.members[i].spec.pipeline.len();
                let mut e: usize = 0;
                while e < pipeline_len
                    invariant
                        0 <= i < self.members@.len(),
                        pipeline_len == self.members@[i as int].spec.pipeline@.len(),
                        0 <= e <= pipeline_len,
                        *self == *old(self),
                        old(self).wf(),
                        self.members@[i as int].id@ == member_id@,
                        member_index(old(self).members@, member_id@) == i as int,
                        forall|f: int|
                            0 <= f < e ==> (#[trigger] self.members@[i as int].spec.pipeline@[f]).0@ != endpoint_id@,
                    decreases pipeline_len - e,
                {
                    if self.members[i].spec.pipeline[e].0 == endpoint_id {
                        return Err(crate::errors::RoomError::EndpointAlreadyExists(endpoint_id.0.clone()));
                    }
                    e = e + 1;
                }
                let entry = &mut self.members[i];
                entry.spec.pipeline.push((endpoint_id, element));
                proof {
                    assert forall|a: int, b: int|
                        0 <= a < b < final(self).members@.len() implies (#[trigger] final(self).members@[a]).id@ != (
                    #[trigger] final(self).members@[b]).id@ by {
                        assert(old(self).members@[a].id@ != old(self).members@[b].id@);
                    }
                    assert(final(self).members@ =~= old(self).members@.update(
                        i as int,
                        Member {
                            spec: crate::member::MemberSpec {
                                pipeline: final(self).members@[i as int].spec.pipeline,
                                ..old(self).members@[i as int].spec
                            },
                            ..old(self).members@[i as int]
                        },
                    ));
                }
                Ok(())
            }
            None => Err(crate::errors::RoomError::MemberNotFound(member_id.clone())),
        }
    }

    /// Removes the endpoint stored under `endpoint_id` from the member's
    /// pipeline, if the member and the endpoint exist; otherwise changes
    /// nothing.  Returns whether an endpoint was removed.
    pub fn remove_endpoint(&mut self, member_id: &MemberId, endpoint_id: &crate::ids::EndpointId) -> (r: bool)
        requires
            old(self).wf(),
        ensures
            final(self).wf(),
            final(self).reconnect_timeout == old(self).reconnect_timeout,
            !r ==> *final(self) == *old(self),
            !r && has_member_id(old(self).members@, member_id@) ==> ({
                let m = old(self).members@[member_index(old(self).members@, member_id@)];
                forall|e: int| 0 <= e < m.spec.pipeline@.len() ==> (#[trigger] m.spec.pipeline@[e]).0@ != endpoint_id@
            }),
            r ==> has_member_id(old(self).members@, member_id@) && ({
                let i = member_index(old(self).members@, member_id@);
                let m = old(self).members@[i];
                &&& final(self).members@ == old(self).members@.update(
                    i,
                    Member {
                        spec: crate::member::MemberSpec {
                            pipeline: final(self).members@[i].spec.pipeline,
                            ..m.spec
                        },
                        ..m
                    },
                )
                &&& exists|e: int|
                    0 <= e < m.spec.pipeline@.len() && (#[trigger] m.spec.pipeline@[e]).0@ == endpoint_id@
                        && final(self).members@[i].spec.pipeline@ == m.spec.pipeline@.remove(e)
            }),
    {
        match self.index_of(member_id) {
            Some(i) => {
                proof {
                    let w = member_index(old(self).members@, member_id@);
                    if w != i as int {
                        lemma_member_ids_distinct(old(self).members@, i as int, w);
                    }
                }
                let pipeline_len = self.members[i].spec.pipeline.len();
                let mut e: usize = 0;
                while e < pipeline_len
                    invariant
                        0 <= i < self.members@.len(),
                        pipeline_len == self.members@[i as int].spec.pipeline@.len(),
                        0 <= e <= pipeline_len,
                        *self == *old(self),
                        old(self).wf(),
                        self.members@[i as int].id@ == member_id@,
                        member_index(old(self).members@, member_id@) == i as int,
                        forall|f: int|
                            0 <= f < e ==> (#[trigger] self.members@[i as int].spec.pipeline@[f]).0@ != endpoint_id@,
                    decreases pipeline_len - e,
                {
                    if self.members[i].spec.pipeline[e].0 == *endpoint_id {
                        let entry = &mut self.members[i];
                        let _ = entry.spec.pipeline.remove(e);
                        proof {
                            assert forall|a: int, b: int|
                                0 <= a < b < final(self).members@.len() implies (#[trigger] final(self).members@[a]).id@ != (#[trigger] final(self).members@[b]).id@ by {
                                assert(old(self).members@[a].id@ != old(self).members@[b].id@);
                            }
                            assert(final(self).members@ =~= old(self).members@.update(
                                i as int,
                                Member {
                                    spec: crate::member::MemberSpec {
                                        pipeline: final(self).members@[i as int].spec.pipeline,
                                        ..old(self).members@[i as int].spec
                                    },
                                    ..old(self).members@[i as int]
                                },
                            ));
                            assert(0 <= e < old(self).members@[i as int].spec.pipeline@.len()
                                && old(self).members@[i as int].spec.pipeline@[e as int].0@ == endpoint_id@
                                && final(self).members@[i as int].spec.pipeline@
                                == old(self).members@[i as int].spec.pipeline@.remove(e as int));
                        }
                        return true;
                    }
                    e = e + 1;
                }
                proof {
                    let w = member_index(old(self).members@, member_id@);
                    if w != i as int {
                        lemma_member_ids_distinct(old(self).members@, i as int, w);
                    }
                }
                false
            }
            None => false,
        }
    }

    /// Takes every live connection, leaving the whole roster disconnected.
    /// Returns the taken connections for the caller to close.
    pub fn drop_connections(&mut self) -> (r: Vec<RpcConnection>)
        requires
            old(self).wf(),
        ensures
            final(self).wf(),
            final(self).reconnect_timeout == old(self).reconnect_timeout,
            final(self).members@.len() == old(self).members@.len(),
            no_connections(final(self).members@),
            forall|i: int|
                0 <= i < old(self).members@.len() ==> #[trigger] final(self).members@[i] == (Member {
                    connection: None,
                    ..old(self).members@[i]
                }),
            conns_sound(old(self).members@, r@),
            conns_complete(old(self).members@, r@),
    {
        let mut out: Vec<RpcConnection> = Vec::new();
        let mut i: usize = 0;
        while i < self.members.len()
            invariant
                0 <= i <= self.members@.len(),
                self.members@.len() == old(self).members@.len(),
                self.reconnect_timeout == old(self).reconnect_timeout,
                member_ids_unique(self.members@),
                forall|j: int|
                    0 <= j < i ==> #[trigger] self.members@[j] == (Member {
                        connection: None,
                        ..old(self).members@[j]
                    }),
                forall|j: int| i <= j < self.members@.len() ==> #[trigger] self.members@[j] == old(self).members@[j],
                conns_sound(old(self).members@, out@),
                forall|j: int|
                    0 <= j < i && (#[trigger] old(self).members@[j]).connection is Some ==> out@.contains(
                        old(self).members@[j].connection->0,
                    ),
            decreases self.members@.len() - i,
        {
            let ghost prev = out@;
            let entry = &mut self.members[i];
            let taken = entry.connection.take();
            if let Some(c) = taken {
                out.push(c);
            }
            proof {
                assert forall|k: int|
                    0 <= k < out@.len() implies exists|j: int|
                        0 <= j < old(self).members@.len() && (#[trigger] old(self).members@[j]).connection == Some(
                            #[trigger] out@[k],
                        ) by {
                    if k < prev.len() {
                        assert(out@[k] == prev[k]);
                        let j0 = choose|j0: int|
                            0 <= j0 < old(self).members@.len() && (#[trigger] old(self).members@[j0]).connection
                                == Some(prev[k]);
                        assert(old(self).members@[j0].connection == Some(out@[k]));
                    } else {
                        assert(old(self).members@[i as int].connection == Some(out@[k]));
                    }
                }
                assert(conns_sound(old(self).members@, out@));
                assert forall|j: int|
                    0 <= j < i + 1 && (#[trigger] old(self).members@[j]).connection is Some implies out@.contains(
                        old(self).members@[j].connection->0,
                    ) by {
                    if j < i {
                        let k = choose|k: int| 0 <= k < prev.len() && prev[k] == old(self).members@[j].connection->0;
                        assert(out@[k] == prev[k]);
                    } else {
                        assert(out@[out@.len() - 1] == old(self).members@[i as int].connection->0);
                    }
                }
            }
            i = i + 1;
        }
        proof {
            assert(conns_complete(old(self).members@, out@));
        }
        out
    }
}

/// Two distinct positions of a roster with unique identifiers hold members
/// with distinct identifiers.
pub proof fn lemma_member_ids_distinct(s: Seq<Member>, a: int, b: int)
    requires
        member_ids_unique(s),
        0 <= a < s.len(),
        0 <= b < s.len(),
        a != b,
    ensures
        s[a].id@ != s[b].id@,
{
    if a < b {
        assert(s[a].id@ != s[b].id@);
    } else {
        assert(s[b].id@ != s[a].id@);
    }
}

} // verus!
