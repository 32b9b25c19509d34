//! Unit behaviour of the model pieces: credentials, counters, the peer
//! machine, description validation, and the callback messages.

use medea::callback::{OnLeave, OnLeave_Reason, Request};
use medea::endpoints::{P2pMode, SrcUri, WebRtcPlayEndpoint, WebRtcPublishEndpoint, WebRtcPublishId};
use medea::ids::{EndpointId, MemberId, PeerId, RoomId, TrackId};
use medea::member::{Credential, MemberElement, MemberSpec};
use medea::peer::{Peer, PeerStateMachine};
use medea::peers::{Counter, PeerRepository};
use medea::protocol::{Direction, MediaTrack, MediaType};
use medea::proto::{member_spec_from_proto, Credentials, ElementProto, MemberProto, TryFromProtobufError};
use medea::room_spec::{RoomElement, RoomSpec};
use medea::snapshots::{TrackPatch, TrackSnapshot, TrackSnapshotAccessor};

#[test]
fn plain_credentials_compare_exactly() {
    let c = Credential::Plain("right".to_string());
    assert!(c.verify("right"));
    assert!(!c.verify("wrong"));
    assert!(!c.verify(""));
}

#[test]
fn hashed_credentials_verify_through_argon2() {
    let encoded = argon2::hash_encoded(b"right", b"somesaltsomesalt", &argon2::Config::default())
        .expect("hashing succeeds");
    let c = Credential::Hash(encoded);
    assert!(c.verify("right"));
    assert!(!c.verify("wrong"));
}

#[test]
fn counters_start_at_one_and_advance() {
    let mut c = Counter::default();
    assert_eq!(c.next_id(), 1);
    assert_eq!(c.next_id(), 2);
    assert_eq!(c.next_id(), 3);
}

#[test]
fn created_pair_is_mirrored() {
    let mut repo = PeerRepository::new();
    let tracks = vec![
        MediaTrack { id: TrackId(1), direction: Direction::Send, media_type: MediaType::Audio },
        MediaTrack { id: TrackId(2), direction: Direction::Send, media_type: MediaType::Video },
    ];
    let (p1, p2) = repo.create_peers(
        &MemberId("a".to_string()),
        &MemberId("b".to_string()),
        tracks,
    );
    assert_eq!(p1.0, 1);
    assert_eq!(p2.0, 2);
    let first = repo.get_peer(p1).expect("stored");
    assert_eq!(first.partner_peer_id().0, 2);
    assert_eq!(first.member_id().0, "a");
    assert_eq!(first.partner_member_id().0, "b");
    let second = repo.get_peer(p2).expect("stored");
    assert_eq!(second.partner_peer_id().0, 1);
    match second {
        PeerStateMachine::New(p) => {
            assert!(p.context.tracks.iter().all(|t| matches!(t.direction, Direction::Recv)));
            assert_eq!(p.context.tracks.len(), 2);
        }
        other => panic!("fresh peers start as New, got {:?}", other),
    }
}

#[test]
fn typed_transitions_record_sdp() {
    let offerer = Peer::new(
        PeerId(1),
        MemberId("a".to_string()),
        PeerId(2),
        MemberId("b".to_string()),
        Vec::new(),
    );
    let offerer = offerer.start();
    let offerer = offerer.set_local_sdp("offer".to_string());
    assert_eq!(offerer.context.sdp_offer.as_deref(), Some("offer"));
    let offerer = offerer.set_remote_sdp("answer".to_string());
    assert_eq!(offerer.context.sdp_answer.as_deref(), Some("answer"));

    let answerer = Peer::new(
        PeerId(2),
        MemberId("b".to_string()),
        PeerId(1),
        MemberId("a".to_string()),
        Vec::new(),
    );
    let answerer = answerer.set_remote_sdp("offer".to_string());
    assert_eq!(answerer.context.sdp_offer.as_deref(), Some("offer"));
    let answerer = answerer.set_local_sdp("answer".to_string());
    assert_eq!(answerer.context.sdp_answer.as_deref(), Some("answer"));
}

fn one_member_spec(credential: &str) -> MemberSpec {
    MemberSpec {
        pipeline: vec![(
            EndpointId("pub".to_string()),
            MemberElement::WebRtcPublishEndpoint { spec: WebRtcPublishEndpoint { p2p: P2pMode::Always } },
        )],
        credentials: Credential::Plain(credential.to_string()),
        on_join: None,
        on_leave: None,
        idle_timeout: None,
        reconnect_timeout: None,
        ping_interval: None,
    }
}

#[test]
fn validation_rejects_duplicate_member_ids() {
    let spec = RoomSpec {
        id: RoomId("r".to_string()),
        pipeline: vec![
            (MemberId("a".to_string()), RoomElement::Member { spec: one_member_spec("x") }),
            (MemberId("a".to_string()), RoomElement::Member { spec: one_member_spec("y") }),
        ],
    };
    assert!(spec.validate().is_err());
}

#[test]
fn validation_rejects_empty_credentials() {
    let spec = RoomSpec {
        id: RoomId("r".to_string()),
        pipeline: vec![(MemberId("a".to_string()), RoomElement::Member { spec: one_member_spec("") })],
    };
    assert!(spec.validate().is_err());
}

#[test]
fn validation_rejects_unresolved_play_source() {
    let play = MemberElement::WebRtcPlayEndpoint {
        spec: WebRtcPlayEndpoint {
            src: SrcUri {
                room_id: RoomId("r".to_string()),
                member_id: MemberId("nobody".to_string()),
                endpoint_id: WebRtcPublishId("pub".to_string()),
            },
        },
    };
    let spec = RoomSpec {
        id: RoomId("r".to_string()),
        pipeline: vec![(
            MemberId("a".to_string()),
            RoomElement::Member {
                spec: MemberSpec {
                    pipeline: vec![(EndpointId("play".to_string()), play)],
                    credentials: Credential::Plain("x".to_string()),
                    on_join: None,
                    on_leave: None,
                    idle_timeout: None,
                    reconnect_timeout: None,
                    ping_interval: None,
                },
            },
        )],
    };
    assert!(spec.validate().is_err());
}

#[test]
fn validation_accepts_pub_sub() {
    let play = MemberElement::WebRtcPlayEndpoint {
        spec: WebRtcPlayEndpoint {
            src: SrcUri {
                room_id: RoomId("r".to_string()),
                member_id: MemberId("a".to_string()),
                endpoint_id: WebRtcPublishId("pub".to_string()),
            },
        },
    };
    let spec = RoomSpec {
        id: RoomId("r".to_string()),
        pipeline: vec![
            (MemberId("a".to_string()), RoomElement::Member { spec: one_member_spec("x") }),
            (
                MemberId("b".to_string()),
                RoomElement::Member {
                    spec: MemberSpec {
                        pipeline: vec![(EndpointId("play".to_string()), play)],
                        credentials: Credential::Plain("y".to_string()),
                        on_join: None,
                        on_leave: None,
                        idle_timeout: None,
                        reconnect_timeout: None,
                        ping_interval: None,
                    },
                },
            ),
        ],
    };
    assert!(spec.validate().is_ok());
}

#[test]
fn member_spec_getters_expose_endpoints() {
    let spec = one_member_spec("x");
    let publishes = spec.publish_endpoints();
    assert_eq!(publishes.len(), 1);
    assert_eq!(publishes[0].0.0, "pub");
    assert!(spec.play_endpoints().is_empty());
    assert!(spec.get_publish_endpoint_by_id(WebRtcPublishId("pub".to_string())).is_some());
    assert!(spec.get_publish_endpoint_by_id(WebRtcPublishId("nope".to_string())).is_none());
}

#[test]
fn callback_request_roundtrips_fields() {
    let mut req = Request::new();
    assert_eq!(req.get_fid(), "");
    req.set_fid("r/caller".to_string());
    req.set_at("1970-01-01T00:00:00Z".to_string());
    assert_eq!(req.get_fid(), "r/caller");
    assert!(!req.has_on_join() && !req.has_on_leave());
    let mut leave = OnLeave::new();
    leave.set_reason(OnLeave_Reason::LOST_CONNECTION);
    req.set_on_leave(leave);
    assert!(req.has_on_leave());
    assert_eq!(req.get_on_leave().get_reason(), OnLeave_Reason::LOST_CONNECTION);
    let taken = req.take_on_leave();
    assert_eq!(taken.get_reason(), OnLeave_Reason::LOST_CONNECTION);
    assert!(!req.has_on_leave());
    assert_eq!(req.take_fid(), "r/caller");
    assert_eq!(req.get_fid(), "");
}

#[test]
fn on_leave_reason_wire_values() {
    assert_eq!(OnLeave_Reason::DISCONNECTED.value(), 0);
    assert_eq!(OnLeave_Reason::LOST_CONNECTION.value(), 1);
    assert_eq!(OnLeave_Reason::SERVER_SHUTDOWN.value(), 2);
    assert_eq!(OnLeave_Reason::from_i32(1), Some(OnLeave_Reason::LOST_CONNECTION));
    assert_eq!(OnLeave_Reason::from_i32(7), None);
    assert_eq!(OnLeave_Reason::values().len(), 3);
}

#[test]
fn src_uri_parses_canonical_form() {
    let uri = medea::proto::parse_src_uri("local://r/caller/publish").expect("canonical form");
    assert_eq!(uri.room_id.0, "r");
    assert_eq!(uri.member_id.0, "caller");
    assert_eq!(uri.endpoint_id.0, "publish");
}

#[test]
fn src_uri_rejects_malformed_forms() {
    assert!(medea::proto::parse_src_uri("http://r/m/e").is_err());
    assert!(medea::proto::parse_src_uri("local://r/m").is_err());
    assert!(medea::proto::parse_src_uri("local://r/m/e/f").is_err());
    assert!(medea::proto::parse_src_uri("local://r//e").is_err());
    assert!(medea::proto::parse_src_uri("local://r/m/").is_err());
    assert!(medea::proto::parse_src_uri("local://").is_err());
    assert!(medea::proto::parse_src_uri("").is_err());
}

#[test]
fn wire_member_converts_with_checks() {
    let good = MemberProto {
        pipeline: vec![
            ("pub".to_string(), Some(ElementProto::WebRtcPublishEndpoint { p2p: 2 })),
            ("play".to_string(), Some(ElementProto::WebRtcPlayEndpoint { src: "local://r/a/pub".to_string() })),
        ],
        credentials: Some(Credentials::Plain("secret".to_string())),
        on_join: String::new(),
        on_leave: "grpc://127.0.0.1:9099".to_string(),
        idle_timeout: Some(2000),
        reconnect_timeout: None,
        ping_interval: None,
    };
    let spec = member_spec_from_proto(good, "generated".to_string()).expect("well-formed member");
    assert_eq!(spec.pipeline.len(), 2);
    assert!(spec.on_join.is_none());
    assert!(spec.on_leave.is_some());
    assert_eq!(spec.idle_timeout, Some(2000));

    let negative = MemberProto {
        pipeline: Vec::new(),
        credentials: None,
        on_join: String::new(),
        on_leave: String::new(),
        idle_timeout: Some(-1),
        reconnect_timeout: None,
        ping_interval: None,
    };
    assert!(matches!(
        member_spec_from_proto(negative, "generated".to_string()),
        Err(TryFromProtobufError::NegativeDuration(_))
    ));

    let empty = MemberProto {
        pipeline: vec![("hole".to_string(), None)],
        credentials: None,
        on_join: String::new(),
        on_leave: String::new(),
        idle_timeout: None,
        reconnect_timeout: None,
        ping_interval: None,
    };
    assert!(matches!(
        member_spec_from_proto(empty, "generated".to_string()),
        Err(TryFromProtobufError::EmptyElement(_))
    ));

    let absent_credentials = MemberProto {
        pipeline: Vec::new(),
        credentials: None,
        on_join: String::new(),
        on_leave: String::new(),
        idle_timeout: None,
        reconnect_timeout: None,
        ping_interval: None,
    };
    let spec = member_spec_from_proto(absent_credentials, "fallback".to_string()).expect("empty member");
    match spec.credentials {
        medea::member::Credential::Plain(p) => assert_eq!(p, "fallback"),
        other => panic!("expected the generated plain credential, got {:?}", other),
    }
}

#[test]
fn default_credential_maps_entropy_to_alphanumerics() {
    let entropy: Vec<u8> = (0u8..32).collect();
    let token = medea::proto::credential_from_entropy(&entropy);
    assert_eq!(token, "ABCDEFGHIJKLMNOPQRSTUVWXYZabcdef");
    assert_eq!(token.len(), 32);
    let wrap: Vec<u8> = vec![62; 32];
    assert_eq!(medea::proto::credential_from_entropy(&wrap), "A".repeat(32));
}

#[test]
fn track_snapshot_update_applies_only_set_fields() {
    let mut t = TrackSnapshot::new(TrackId(5), false, Direction::Send, MediaType::Audio);
    t.update(TrackPatch { id: TrackId(5), is_muted: None });
    assert!(!t.get_is_muted());
    t.update(TrackPatch { id: TrackId(5), is_muted: Some(true) });
    assert!(t.get_is_muted());
    assert_eq!(t.get_id(), TrackId(5));
    assert!(matches!(t.get_direction(), Direction::Send));
    t.update_snapshot(TrackSnapshot::new(TrackId(5), false, Direction::Send, MediaType::Audio));
    assert!(!t.get_is_muted());
}
