//! The client-facing entry point: configuration, the server context, and
//! the connection-request decision that either upgrades a client or turns
//! it away.

use vstd::prelude::*;

use crate::ids::{MemberId, RoomId};
use crate::participants::{has_member_id, member_index, RpcConnection};
use crate::protocol::Action;
use crate::room_service::{has_room_id, RoomsRepository};
use crate::session::WsSession;

verus! {

/// Client API timing configuration, in milliseconds.
#[derive(Clone, Copy, Debug, PartialEq, Eq, Structural)]
pub struct Rpc {
    /// Idle timeout for members without an override.
    pub idle_timeout: u64,
    /// Reconnect grace for members without an override.
    pub reconnect_timeout: u64,
}

/// Everything the connection handler needs: the room registry and the
/// timing configuration.
#[derive(Debug)]
pub struct Context {
    /// Repository of all currently existing rooms.
    pub rooms: RoomsRepository,
    /// Timing settings of the client API.
    pub config: Rpc,
}

/// The answer to a connection request.
#[derive(Debug)]
pub enum WsIndexResponse {
    /// Authorized: the session to run, and the actions the room asks for.
    SwitchingProtocols { session: WsSession, actions: Vec<Action> },
    /// The room or the member does not exist.
    NotFound,
    /// The member exists but the credential does not match.
    Forbidden,
}

/// Decides a connection request to `/ws/<room>/<member>/<credentials>`:
/// turns it away with `NotFound` exactly when the room or member is
/// unknown and with `Forbidden` exactly when the credential does not
/// verify; otherwise authorizes it, binds the connection in the room, and
/// opens a session whose idle timeout is the member's override or the
/// configured default.
pub fn ws_index(
    ctx: &mut Context,
    room_id: &RoomId,
    member_id: &MemberId,
    credentials: &str,
    connection: RpcConnection,
    now: u64,
) -> (r: WsIndexResponse)
    requires
        old(ctx).rooms.wf(),
    ensures
        final(ctx).rooms.wf(),
        final(ctx).config == old(ctx).config,
        !has_room_id(old(ctx).rooms.rooms@, room_id@) ==> r is NotFound && *final(ctx) == *old(ctx),
        r is Forbidden ==> *final(ctx) == *old(ctx),
        final(ctx).rooms.rooms@.len() == old(ctx).rooms.rooms@.len(),
        forall|j: int|
            0 <= j < old(ctx).rooms.rooms@.len() && (#[trigger] old(ctx).rooms.rooms@[j]).0@ != room_id@
                ==> final(ctx).rooms.rooms@[j] == old(ctx).rooms.rooms@[j],
        forall|i: int|
            0 <= i < old(ctx).rooms.rooms@.len() && (#[trigger] old(ctx).rooms.rooms@[i]).0@ == room_id@ ==> ({
                let members = old(ctx).rooms.rooms@[i].1.participants.members@;
                &&& final(ctx).rooms.rooms@[i].0@ == room_id@
                &&& (!has_member_id(members, member_id@) ==> r is NotFound && *final(ctx) == *old(ctx))
                &&& (has_member_id(members, member_id@) && !members[member_index(
                    members,
                    member_id@,
                )].spec.credentials.spec_verify(credentials@) ==> r is Forbidden)
                &&& (has_member_id(members, member_id@) && members[member_index(
                    members,
                    member_id@,
                )].spec.credentials.spec_verify(credentials@) ==> r is SwitchingProtocols)
                &&& (r matches WsIndexResponse::SwitchingProtocols { session, .. } ==> ({
                    let mi = member_index(members, member_id@);
                    &&& members[mi].spec.credentials.spec_verify(credentials@)
                    &&& session.member_id@ == member_id@
                    &&& !session.closed_by_server
                    &&& session.idle_deadline is Some
                    &&& session.idle_timeout == (match members[mi].spec.idle_timeout {
                        Some(t) => t,
                        None => old(ctx).config.idle_timeout,
                    })
                    &&& final(ctx).rooms.rooms@[i].1.participants.members@ == members.update(
                        mi,
                        crate::participants::Member {
                            connection: Some(connection),
                            reconnect_deadline: None,
                            ..members[mi]
                        },
                    )
                    &&& forall|x: crate::peer::PeerStateMachine|
                        #[trigger] old(ctx).rooms.rooms@[i].1.peers.peers@.contains(x)
                            ==> final(ctx).rooms.rooms@[i].1.peers.peers@.contains(x)
                }))
            }),
{
    let idx = match ctx.rooms.index_of(room_id) {
        Some(i) => i,
        None => {
            return WsIndexResponse::NotFound;
        }
    };
    let ghost gi = idx as int;
    let room = &ctx.rooms.rooms[idx].1;
    let idle_timeout = match room.participants.get_member_by_id(member_id) {
        Some(m) => {
            proof {
                let members = ctx.rooms.rooms@[gi].1.participants.members@;
                let j = choose|j: int| 0 <= j < members.len() && #[trigger] members[j] == *m && m.id@ == member_id@;
                let w = member_index(members, member_id@);
                if w != j {
                    crate::participants::lemma_member_ids_distinct(members, j, w);
                }
            }
            match m.spec.idle_timeout() {
                Some(t) => t,
                None => ctx.config.idle_timeout,
            }
        }
        None => {
            return WsIndexResponse::NotFound;
        }
    };
    match room.handle_authorize(member_id, credentials) {
        Ok(()) => {}
        Err(crate::protocol::AuthorizationError::MemberNotExists) => {
            return WsIndexResponse::NotFound;
        }
        Err(crate::protocol::AuthorizationError::InvalidCredentials) => {
            return WsIndexResponse::Forbidden;
        }
    }
    let ghost old_rooms = ctx.rooms.rooms@;
    proof {
        assert forall|i2: int|
            0 <= i2 < old_rooms.len() && (#[trigger] old_rooms[i2]).0@ == room_id@ implies i2 == gi by {
            if i2 != gi {
                assert(old_rooms[gi].0@ == room_id@);
            }
        }
    }
    let entry = &mut ctx.rooms.rooms[idx];
    let actions = match entry.1.handle_rpc_connection_established(member_id, connection) {
        Ok(a) => a,
        Err(_) => {
            proof {
                assert(false);
            }
            return WsIndexResponse::NotFound;
        }
    };
    proof {
        assert forall|a: int, b: int|
            0 <= a < b < ctx.rooms.rooms@.len() implies (#[trigger] ctx.rooms.rooms@[a]).0@ != (
        #[trigger] ctx.rooms.rooms@[b]).0@ by {
            assert(ctx.rooms.rooms@[a].0 == old_rooms[a].0);
            assert(ctx.rooms.rooms@[b].0 == old_rooms[b].0);
        }
        assert forall|j: int| 0 <= j < ctx.rooms.rooms@.len() implies (#[trigger] ctx.rooms.rooms@[j]).1.wf() by {
            if j != gi {
                assert(ctx.rooms.rooms@[j] == old_rooms[j]);
            }
        }
    }
    let session = WsSession::new(member_id.clone(), idle_timeout, now);
    WsIndexResponse::SwitchingProtocols { session, actions }
}

} // verus!
