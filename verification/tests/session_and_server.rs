//! Session heartbeat and idle semantics, and the connection-request
//! decision of the server entry point.

use medea::endpoints::{P2pMode, SrcUri, WebRtcPlayEndpoint, WebRtcPublishEndpoint, WebRtcPublishId};
use medea::ids::{EndpointId, MemberId, RoomId};
use medea::member::{Credential, MemberElement, MemberSpec};
use medea::participants::RpcConnection;
use medea::protocol::{ClosedReason, CloseReason, Heartbeat};
use medea::room::Room;
use medea::room_spec::{RoomElement, RoomSpec};
use medea::room_service::{RoomService, RoomsRepository, RoomServiceError};
use medea::server::{ws_index, Context, Rpc, WsIndexResponse};
use medea::session::{ClientMessage, WsSession};

fn small_spec(credential: &str) -> RoomSpec {
    let publish = MemberElement::WebRtcPublishEndpoint {
        spec: WebRtcPublishEndpoint { p2p: P2pMode::Always },
    };
    let play = MemberElement::WebRtcPlayEndpoint {
        spec: WebRtcPlayEndpoint {
            src: SrcUri {
                room_id: RoomId("pub-sub-video-call".to_string()),
                member_id: MemberId("caller".to_string()),
                endpoint_id: WebRtcPublishId("publish".to_string()),
            },
        },
    };
    RoomSpec {
        id: RoomId("pub-sub-video-call".to_string()),
        pipeline: vec![
            (
                MemberId("caller".to_string()),
                RoomElement::Member {
                    spec: MemberSpec {
                        pipeline: vec![(EndpointId("publish".to_string()), publish)],
                        credentials: Credential::Plain(credential.to_string()),
                        on_join: None,
                        on_leave: None,
                        idle_timeout: Some(2000),
                        reconnect_timeout: None,
                        ping_interval: None,
                    },
                },
            ),
            (
                MemberId("responder".to_string()),
                RoomElement::Member {
                    spec: MemberSpec {
                        pipeline: vec![(EndpointId("play".to_string()), play)],
                        credentials: Credential::Plain(credential.to_string()),
                        on_join: None,
                        on_leave: None,
                        idle_timeout: None,
                        reconnect_timeout: None,
                        ping_interval: None,
                    },
                },
            ),
        ],
    }
}

fn context(credential: &str) -> Context {
    let mut repo = RoomsRepository::new();
    let spec = small_spec(credential);
    let room = Room::new(&spec, 10_000).expect("valid spec");
    repo.rooms.push((RoomId("pub-sub-video-call".to_string()), room));
    Context { rooms: repo, config: Rpc { idle_timeout: 10_000, reconnect_timeout: 10_000 } }
}

#[test]
fn ping_pong_and_disconnects_on_idle() {
    // `/ws/pub-sub-video-call/caller/test`, one `{"ping": 33}`, then 3 s of
    // silence against a 2 s idle timeout.
    let mut ctx = context("test");
    let caller = MemberId("caller".to_string());
    let room_id = RoomId("pub-sub-video-call".to_string());
    let mut session = match ws_index(&mut ctx, &room_id, &caller, "test", RpcConnection { handle: 1 }, 0) {
        WsIndexResponse::SwitchingProtocols { session, .. } => session,
        other => panic!("expected upgrade, got {:?}", other),
    };
    assert_eq!(session.idle_timeout, 2000);
    let reaction = session.handle_message(0, ClientMessage::Heartbeat(Heartbeat::Ping(33)));
    assert_eq!(reaction.reply, Some(Heartbeat::Pong(33)));
    assert!(reaction.forward.is_none());
    // Nothing fires while the member stays within its idle timeout.
    assert!(session.handle_idle_check(1999).is_none());
    // After 3 s of silence the watchdog closes the session normally.
    let fired = session.handle_idle_check(3000);
    assert_eq!(fired, Some((CloseReason::Normal, ClosedReason::Idle)));
    // The close frame that follows a server-side close reports nothing.
    assert!(session.handle_close_frame().is_none());
}

#[test]
fn client_close_frame_reports_disconnect() {
    let caller = MemberId("caller".to_string());
    let mut session = WsSession::new(caller, 10_000, 0);
    assert_eq!(session.handle_close_frame(), Some(ClosedReason::Disconnect));
    // Only once.
    assert!(session.handle_close_frame().is_none());
}

#[test]
fn bad_credentials_are_forbidden() {
    let mut ctx = context("right");
    let caller = MemberId("caller".to_string());
    let room_id = RoomId("pub-sub-video-call".to_string());
    let r = ws_index(&mut ctx, &room_id, &caller, "wrong", RpcConnection { handle: 1 }, 0);
    assert!(matches!(r, WsIndexResponse::Forbidden));
    // No connection was installed.
    assert!(ctx.rooms.rooms[0].1.participants.members.iter().all(|m| m.connection.is_none()));
}

#[test]
fn unknown_room_or_member_is_not_found() {
    let mut ctx = context("test");
    let r = ws_index(
        &mut ctx,
        &RoomId("ghost".to_string()),
        &MemberId("caller".to_string()),
        "test",
        RpcConnection { handle: 1 },
        0,
    );
    assert!(matches!(r, WsIndexResponse::NotFound));
    let r = ws_index(
        &mut ctx,
        &RoomId("pub-sub-video-call".to_string()),
        &MemberId("ghost".to_string()),
        "test",
        RpcConnection { handle: 1 },
        0,
    );
    assert!(matches!(r, WsIndexResponse::NotFound));
}

#[test]
fn duplicate_room_creation_is_rejected() {
    let mut service = RoomService::new(RoomsRepository::new());
    let spec = small_spec("test");
    service
        .start_room(RoomId("pub-sub-video-call".to_string()), &spec, 10_000)
        .expect("first creation");
    let r = service.start_room(RoomId("pub-sub-video-call".to_string()), &spec, 10_000);
    assert!(matches!(r, Err(RoomServiceError::RoomAlreadyExists(_))));
}

#[test]
fn start_then_get_returns_the_same_tree() {
    let mut service = RoomService::new(RoomsRepository::new());
    let spec = small_spec("test");
    service
        .start_room(RoomId("pub-sub-video-call".to_string()), &spec, 10_000)
        .expect("creation");
    let tree = service.get_room(&RoomId("pub-sub-video-call".to_string())).expect("room exists");
    assert_eq!(tree.id.0, spec.id.0);
    assert_eq!(tree.pipeline.len(), spec.pipeline.len());
    for (got, want) in tree.pipeline.iter().zip(spec.pipeline.iter()) {
        assert_eq!(got.0.0, want.0.0);
        let RoomElement::Member { spec: got_spec } = &got.1;
        let RoomElement::Member { spec: want_spec } = &want.1;
        assert_eq!(got_spec.pipeline.len(), want_spec.pipeline.len());
        assert_eq!(got_spec.idle_timeout, want_spec.idle_timeout);
        match (&got_spec.credentials, &want_spec.credentials) {
            (Credential::Plain(a), Credential::Plain(b)) => assert_eq!(a, b),
            other => panic!("credential shape changed: {:?}", other),
        }
        for (ge, we) in got_spec.pipeline.iter().zip(want_spec.pipeline.iter()) {
            assert_eq!(ge.0.0, we.0.0);
            match (&ge.1, &we.1) {
                (
                    MemberElement::WebRtcPublishEndpoint { spec: a },
                    MemberElement::WebRtcPublishEndpoint { spec: b },
                ) => assert_eq!(a.p2p, b.p2p),
                (
                    MemberElement::WebRtcPlayEndpoint { spec: a },
                    MemberElement::WebRtcPlayEndpoint { spec: b },
                ) => {
                    assert_eq!(a.src.room_id.0, b.src.room_id.0);
                    assert_eq!(a.src.member_id.0, b.src.member_id.0);
                    assert_eq!(a.src.endpoint_id.0, b.src.endpoint_id.0);
                }
                other => panic!("endpoint shape changed: {:?}", other),
            }
        }
    }
}

#[test]
fn delete_room_closes_and_forgets() {
    let mut service = RoomService::new(RoomsRepository::new());
    let spec = small_spec("test");
    service
        .start_room(RoomId("pub-sub-video-call".to_string()), &spec, 10_000)
        .expect("creation");
    let _ = service.delete_room(&RoomId("pub-sub-video-call".to_string()));
    assert!(service.room_repo.rooms.is_empty());
    // Deleting again changes nothing.
    let acts = service.delete_room(&RoomId("pub-sub-video-call".to_string()));
    assert!(acts.is_empty());
}

#[test]
fn batch_get_fails_whole_request_on_missing_room() {
    let mut service = RoomService::new(RoomsRepository::new());
    let spec = small_spec("test");
    service
        .start_room(RoomId("pub-sub-video-call".to_string()), &spec, 10_000)
        .expect("creation");
    let ok = service
        .get_rooms(&vec![RoomId("pub-sub-video-call".to_string())])
        .expect("all rooms present");
    assert_eq!(ok.len(), 1);
    assert_eq!(ok[0].id.0, "pub-sub-video-call");
    let r = service.get_rooms(&vec![
        RoomId("pub-sub-video-call".to_string()),
        RoomId("ghost".to_string()),
    ]);
    match r {
        Err(RoomServiceError::RoomNotFound(id)) => assert_eq!(id, "ghost"),
        other => panic!("expected the whole request to fail, got {:?}", other),
    }
}

#[test]
fn established_creates_no_second_pair_for_existing_one() {
    // A reconnect after the pair exists leaves exactly one pair.
    let mut ctx = context("test");
    let room_id = RoomId("pub-sub-video-call".to_string());
    let caller = MemberId("caller".to_string());
    let responder = MemberId("responder".to_string());
    let _ = ws_index(&mut ctx, &room_id, &caller, "test", RpcConnection { handle: 1 }, 0);
    let _ = ws_index(&mut ctx, &room_id, &responder, "test", RpcConnection { handle: 2 }, 0);
    assert_eq!(ctx.rooms.rooms[0].1.peers.peers.len(), 2);
    let r = ws_index(&mut ctx, &room_id, &caller, "test", RpcConnection { handle: 3 }, 5);
    assert!(matches!(r, WsIndexResponse::SwitchingProtocols { .. }));
    assert_eq!(ctx.rooms.rooms[0].1.peers.peers.len(), 2);
}
