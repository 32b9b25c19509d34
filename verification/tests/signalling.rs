//! End-to-end scenarios over one room: connecting a publisher and a
//! subscriber, negotiation, disconnects, and control-plane deletions.

use medea::endpoints::{P2pMode, SrcUri, WebRtcPlayEndpoint, WebRtcPublishEndpoint, WebRtcPublishId};
use medea::ids::{EndpointId, MemberId, PeerId, RoomId};
use medea::member::{Credential, MemberElement, MemberSpec};
use medea::participants::RpcConnection;
use medea::protocol::{Action, ClosedReason, CloseReason, Command, Direction, Event, IceCandidate};
use medea::room::Room;
use medea::room_spec::{RoomElement, RoomSpec};

fn member_spec(pipeline: Vec<(EndpointId, MemberElement)>, credential: &str) -> MemberSpec {
    MemberSpec {
        pipeline,
        credentials: Credential::Plain(credential.to_string()),
        on_join: None,
        on_leave: None,
        idle_timeout: None,
        reconnect_timeout: Some(2000),
        ping_interval: None,
    }
}

fn pub_sub_spec() -> RoomSpec {
    let publish = MemberElement::WebRtcPublishEndpoint {
        spec: WebRtcPublishEndpoint { p2p: P2pMode::Always },
    };
    let play = MemberElement::WebRtcPlayEndpoint {
        spec: WebRtcPlayEndpoint {
            src: SrcUri {
                room_id: RoomId("r".to_string()),
                member_id: MemberId("caller".to_string()),
                endpoint_id: WebRtcPublishId("pub".to_string()),
            },
        },
    };
    RoomSpec {
        id: RoomId("r".to_string()),
        pipeline: vec![
            (
                MemberId("caller".to_string()),
                RoomElement::Member { spec: member_spec(vec![(EndpointId("pub".to_string()), publish)], "test") },
            ),
            (
                MemberId("callee".to_string()),
                RoomElement::Member { spec: member_spec(vec![(EndpointId("play".to_string()), play)], "test") },
            ),
        ],
    }
}

fn caller() -> MemberId {
    MemberId("caller".to_string())
}

fn callee() -> MemberId {
    MemberId("callee".to_string())
}

fn connect_both(room: &mut Room) -> (Vec<Action>, Vec<Action>) {
    let a1 = room
        .handle_rpc_connection_established(&caller(), RpcConnection { handle: 1 })
        .expect("caller connects");
    let a2 = room
        .handle_rpc_connection_established(&callee(), RpcConnection { handle: 2 })
        .expect("callee connects");
    (a1, a2)
}

#[test]
fn publisher_subscriber_full_negotiation() {
    let mut room = Room::new(&pub_sub_spec(), 10_000).expect("valid spec");
    let (a1, a2) = connect_both(&mut room);
    // The first member alone gets no events.
    assert!(a1.is_empty());
    // Connecting the subscriber creates the pair and asks the publisher
    // for an offer: PeerCreated{peer_id: 1, sdp_offer: None, send tracks}.
    assert_eq!(a2.len(), 1);
    match &a2[0] {
        Action::SendEvent { member_id, event } => {
            assert_eq!(member_id.0, "caller");
            match event {
                Event::PeerCreated { peer_id, sdp_offer, tracks } => {
                    assert_eq!(peer_id.0, 1);
                    assert!(sdp_offer.is_none());
                    assert_eq!(tracks.len(), 2);
                    assert!(tracks.iter().all(|t| matches!(t.direction, Direction::Send)));
                }
                other => panic!("expected PeerCreated, got {:?}", other),
            }
        }
        other => panic!("expected SendEvent, got {:?}", other),
    }

    // The offer flows to the subscriber's fresh peer 2.
    let (to, ev) = room
        .handle_command(&caller(), Command::MakeSdpOffer { peer_id: PeerId(1), sdp_offer: "v=0caller".to_string() })
        .expect("offer accepted");
    assert_eq!(to.0, "callee");
    match ev {
        Event::PeerCreated { peer_id, sdp_offer, tracks } => {
            assert_eq!(peer_id.0, 2);
            assert_eq!(sdp_offer.as_deref(), Some("v=0caller"));
            assert_eq!(tracks.len(), 2);
            assert!(tracks.iter().all(|t| matches!(t.direction, Direction::Recv)));
        }
        other => panic!("expected PeerCreated, got {:?}", other),
    }

    // The answer flows back to the publisher.
    let (to, ev) = room
        .handle_command(&callee(), Command::MakeSdpAnswer { peer_id: PeerId(2), sdp_answer: "v=0callee".to_string() })
        .expect("answer accepted");
    assert_eq!(to.0, "caller");
    match ev {
        Event::SdpAnswerMade { peer_id, sdp_answer } => {
            assert_eq!(peer_id.0, 1);
            assert_eq!(sdp_answer, "v=0callee");
        }
        other => panic!("expected SdpAnswerMade, got {:?}", other),
    }

    // ICE candidates are exchanged both ways.
    let cand = |s: &str| IceCandidate {
        candidate: s.to_string(),
        sdp_m_line_index: Some(0),
        sdp_mid: None,
    };
    let (to, ev) = room
        .handle_command(&caller(), Command::SetIceCandidate { peer_id: PeerId(1), candidate: cand("c1") })
        .expect("candidate accepted");
    assert_eq!(to.0, "callee");
    match ev {
        Event::IceCandidateDiscovered { peer_id, candidate } => {
            assert_eq!(peer_id.0, 2);
            assert_eq!(candidate.candidate, "c1");
        }
        other => panic!("expected IceCandidateDiscovered, got {:?}", other),
    }
    let (to, ev) = room
        .handle_command(&callee(), Command::SetIceCandidate { peer_id: PeerId(2), candidate: cand("c2") })
        .expect("candidate accepted");
    assert_eq!(to.0, "caller");
    match ev {
        Event::IceCandidateDiscovered { peer_id, .. } => assert_eq!(peer_id.0, 1),
        other => panic!("expected IceCandidateDiscovered, got {:?}", other),
    }
}

#[test]
fn command_for_foreign_peer_is_rejected() {
    let mut room = Room::new(&pub_sub_spec(), 10_000).expect("valid spec");
    let _ = connect_both(&mut room);
    // Peer 1 belongs to the caller; the callee may not drive it.
    let r = room.handle_command(
        &callee(),
        Command::MakeSdpOffer { peer_id: PeerId(1), sdp_offer: "v=0".to_string() },
    );
    assert!(r.is_err());
    // The rightful owner still can.
    let r = room.handle_command(
        &caller(),
        Command::MakeSdpOffer { peer_id: PeerId(1), sdp_offer: "v=0".to_string() },
    );
    assert!(r.is_ok());
}

#[test]
fn ice_candidate_rejected_while_new() {
    let mut room = Room::new(&pub_sub_spec(), 10_000).expect("valid spec");
    let _ = connect_both(&mut room);
    // Peer 2 is still `New`: its member may not push candidates yet.
    let r = room.handle_command(
        &callee(),
        Command::SetIceCandidate {
            peer_id: PeerId(2),
            candidate: IceCandidate {
                candidate: "c".to_string(),
                sdp_m_line_index: None,
                sdp_mid: None,
            },
        },
    );
    assert!(r.is_err());
}

#[test]
fn answer_in_wrong_state_is_rejected() {
    let mut room = Room::new(&pub_sub_spec(), 10_000).expect("valid spec");
    let _ = connect_both(&mut room);
    let r = room.handle_command(
        &caller(),
        Command::MakeSdpAnswer { peer_id: PeerId(1), sdp_answer: "v=0".to_string() },
    );
    assert!(r.is_err());
}

#[test]
fn partner_disconnect_tears_down_peers() {
    let mut room = Room::new(&pub_sub_spec(), 10_000).expect("valid spec");
    let _ = connect_both(&mut room);
    let _ = room
        .handle_command(&caller(), Command::MakeSdpOffer { peer_id: PeerId(1), sdp_offer: "v=0".to_string() })
        .expect("offer");
    // The caller goes away and its reconnect grace (2 s) runs out.
    let acts = room.handle_rpc_connection_closed(&caller(), ClosedReason::Disconnect, 10_000);
    assert!(acts.is_empty());
    let acts = room.handle_reconnect_timeout(&caller(), 13_000);
    let mut saw_removed = false;
    for a in &acts {
        if let Action::SendEvent { member_id, event: Event::PeersRemoved { peer_ids } } = a {
            assert_eq!(member_id.0, "callee");
            assert_eq!(peer_ids.len(), 1);
            assert_eq!(peer_ids[0].0, 2);
            saw_removed = true;
        }
    }
    assert!(saw_removed);
    // The callee's peer is gone: a late offer for it is rejected.
    let r = room.handle_command(
        &callee(),
        Command::MakeSdpOffer { peer_id: PeerId(2), sdp_offer: "v=0".to_string() },
    );
    assert!(r.is_err());
}

#[test]
fn reconnect_within_grace_preserves_peers() {
    let mut room = Room::new(&pub_sub_spec(), 10_000).expect("valid spec");
    let _ = connect_both(&mut room);
    assert_eq!(room.peers.peers.len(), 2);
    let _ = room.handle_rpc_connection_closed(&caller(), ClosedReason::Disconnect, 1_000);
    assert_eq!(room.peers.peers.len(), 2);
    // Reconnect before the 2 s grace elapses.
    let _ = room
        .handle_rpc_connection_established(&caller(), RpcConnection { handle: 3 })
        .expect("reconnect");
    assert_eq!(room.peers.peers.len(), 2);
    // A timer that fires after the reconnect is a no-op: the deadline was
    // cancelled by the new connection.
    let acts = room.handle_reconnect_timeout(&caller(), 4_000);
    assert!(acts.is_empty());
    assert_eq!(room.peers.peers.len(), 2);
}

#[test]
fn replaced_connection_is_closed_first() {
    let mut room = Room::new(&pub_sub_spec(), 10_000).expect("valid spec");
    let _ = room
        .handle_rpc_connection_established(&caller(), RpcConnection { handle: 7 })
        .expect("first connection");
    let acts = room
        .handle_rpc_connection_established(&caller(), RpcConnection { handle: 8 })
        .expect("second connection");
    assert!(matches!(
        acts[0],
        Action::CloseConnection { connection: 7, reason: CloseReason::Replaced }
    ));
}

#[test]
fn close_room_drops_peers_and_connections() {
    let mut room = Room::new(&pub_sub_spec(), 10_000).expect("valid spec");
    let _ = connect_both(&mut room);
    assert_eq!(room.peers.peers.len(), 2);
    let acts = room.handle_close_room();
    assert_eq!(room.peers.peers.len(), 0);
    assert!(room.participants.members.iter().all(|m| m.connection.is_none()));
    assert_eq!(acts.len(), 2);
    assert!(acts.iter().all(|a| matches!(a, Action::CloseConnection { reason: CloseReason::Normal, .. })));
}

#[test]
fn delete_member_twice_second_is_noop() {
    let mut room = Room::new(&pub_sub_spec(), 10_000).expect("valid spec");
    let _ = connect_both(&mut room);
    let _ = room.delete_member(&caller(), 0);
    assert_eq!(room.participants.members.len(), 1);
    assert_eq!(room.peers.peers.len(), 0);
    let acts = room.delete_member(&caller(), 0);
    assert!(acts.is_empty());
    assert_eq!(room.participants.members.len(), 1);
}

#[test]
fn delete_endpoint_removes_both_peers() {
    let mut room = Room::new(&pub_sub_spec(), 10_000).expect("valid spec");
    let _ = connect_both(&mut room);
    assert_eq!(room.peers.peers.len(), 2);
    let acts = room.delete_endpoint(&caller(), &EndpointId("pub".to_string()));
    assert_eq!(room.peers.peers.len(), 0);
    let mut to_caller = None;
    let mut to_callee = None;
    for a in &acts {
        if let Action::SendEvent { member_id, event: Event::PeersRemoved { peer_ids } } = a {
            if member_id.0 == "caller" {
                to_caller = Some(peer_ids.clone());
            } else if member_id.0 == "callee" {
                to_callee = Some(peer_ids.clone());
            }
        }
    }
    assert_eq!(to_caller.unwrap().iter().map(|p| p.0).collect::<Vec<_>>(), vec![1]);
    assert_eq!(to_callee.unwrap().iter().map(|p| p.0).collect::<Vec<_>>(), vec![2]);
}

#[test]
fn authorize_maps_credentials() {
    let room = Room::new(&pub_sub_spec(), 10_000).expect("valid spec");
    assert!(room.handle_authorize(&caller(), "test").is_ok());
    assert!(room.handle_authorize(&caller(), "wrong").is_err());
    assert!(room.handle_authorize(&MemberId("ghost".to_string()), "test").is_err());
}
