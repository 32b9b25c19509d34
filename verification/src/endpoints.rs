//! Publish and play endpoints of a member, and the source URI that ties a
//! play endpoint to the publish endpoint it plays.

use vstd::prelude::*;

use crate::ids::{EndpointId, MemberId, RoomId};

verus! {

/// Identifier of a `WebRtcPublishEndpoint` within a member.
#[derive(Debug)]
pub struct WebRtcPublishId(pub String);

impl View for WebRtcPublishId {
    type V = Seq<char>;

    open spec fn view(&self) -> Seq<char> {
        self.0@
    }
}

impl Clone for WebRtcPublishId {
    fn clone(&self) -> (r: WebRtcPublishId)
        ensures
            r@ == self@,
    {
        WebRtcPublishId(self.0.clone())
    }
}

/// Identifier of a `WebRtcPlayEndpoint` within a member.
#[derive(Debug)]
pub struct WebRtcPlayId(pub String);

impl View for WebRtcPlayId {
    type V = Seq<char>;

    open spec fn view(&self) -> Seq<char> {
        self.0@
    }
}

impl Clone for WebRtcPlayId {
    fn clone(&self) -> (r: WebRtcPlayId)
        ensures
            r@ == self@,
    {
        WebRtcPlayId(self.0.clone())
    }
}

/// Peer-to-peer behaviour of a publish endpoint.
#[derive(Clone, Copy, Debug, PartialEq, Eq, Structural)]
pub enum P2pMode {
    Always,
    IfPossible,
    Never,
}

/// The target of a play endpoint, canonically written
/// `local://<room>/<member>/<publish-endpoint>`.
#[derive(Debug)]
pub struct SrcUri {
    pub room_id: RoomId,
    pub member_id: MemberId,
    pub endpoint_id: WebRtcPublishId,
}

/// Ghost image of a `SrcUri`: the three path segments.
pub ghost struct SrcUriView {
    pub room: Seq<char>,
    pub member: Seq<char>,
    pub endpoint: Seq<char>,
}

impl View for SrcUri {
    type V = SrcUriView;

    open spec fn view(&self) -> SrcUriView {
        SrcUriView { room: self.room_id@, member: self.member_id@, endpoint: self.endpoint_id@ }
    }
}

impl Clone for SrcUri {
    fn clone(&self) -> (r: SrcUri)
        ensures
            r@ == self@,
    {
        SrcUri {
            room_id: self.room_id.clone(),
            member_id: self.member_id.clone(),
            endpoint_id: self.endpoint_id.clone(),
        }
    }
}

/// A declared intent to send media: other members' play endpoints may name
/// it as their source.
#[derive(Debug)]
pub struct WebRtcPublishEndpoint {
    pub p2p: P2pMode,
}

impl Clone for WebRtcPublishEndpoint {
    fn clone(&self) -> (r: WebRtcPublishEndpoint)
        ensures
            r == *self,
    {
        WebRtcPublishEndpoint { p2p: self.p2p }
    }
}

/// A declared intent to receive the media of the publish endpoint `src`
/// points at.
#[derive(Debug)]
pub struct WebRtcPlayEndpoint {
    pub src: SrcUri,
}

impl Clone for WebRtcPlayEndpoint {
    fn clone(&self) -> (r: WebRtcPlayEndpoint)
        ensures
            r.src@ == self.src@,
    {
        WebRtcPlayEndpoint { src: self.src.clone() }
    }
}

/// A media element that one or more media data streams flow through.
#[derive(Debug)]
pub enum Endpoint {
    WebRtcPublish(WebRtcPublishEndpoint),
    WebRtcPlay(WebRtcPlayEndpoint),
}

} // verus!
