//! Identifiers of rooms, members, peers, tracks and endpoints.

use vstd::prelude::*;

verus! {

/// Identifier of a `Room`, unique within the process.
#[derive(Debug)]
pub struct RoomId(pub String);

impl View for RoomId {
    type V = Seq<char>;

    open spec fn view(&self) -> Seq<char> {
        self.0@
    }
}

impl Clone for RoomId {
    fn clone(&self) -> (r: RoomId)
        ensures
            r@ == self@,
    {
        RoomId(self.0.clone())
    }
}

impl PartialEq for RoomId {
    fn eq(&self, other: &RoomId) -> (r: bool) {
        self.0 == other.0
    }
}

impl vstd::std_specs::cmp::PartialEqSpecImpl for RoomId {
    open spec fn obeys_eq_spec() -> bool {
        true
    }

    open spec fn eq_spec(&self, other: &RoomId) -> bool {
        self.0@ == other.0@
    }
}

/// Identifier of a `Member`, unique within its `Room`.
#[derive(Debug)]
pub struct MemberId(pub String);

impl View for MemberId {
    type V = Seq<char>;

    open spec fn view(&self) -> Seq<char> {
        self.0@
    }
}

impl Clone for MemberId {
    fn clone(&self) -> (r: MemberId)
        ensures
            r@ == self@,
    {
        MemberId(self.0.clone())
    }
}

impl PartialEq for MemberId {
    fn eq(&self, other: &MemberId) -> (r: bool) {
        self.0 == other.0
    }
}

impl vstd::std_specs::cmp::PartialEqSpecImpl for MemberId {
    open spec fn obeys_eq_spec() -> bool {
        true
    }

    open spec fn eq_spec(&self, other: &MemberId) -> bool {
        self.0@ == other.0@
    }
}

/// Numeric identifier of a `Peer`, unique within its `Room`.
#[derive(Clone, Copy, Debug, PartialEq, Eq, Structural)]
pub struct PeerId(pub u32);

/// Numeric identifier of a `MediaTrack`, unique within its `Room`.
#[derive(Clone, Copy, Debug, PartialEq, Eq, Structural)]
pub struct TrackId(pub u32);

/// Identifier of an endpoint within a `Member`'s pipeline.
#[derive(Debug)]
pub struct EndpointId(pub String);

impl View for EndpointId {
    type V = Seq<char>;

    open spec fn view(&self) -> Seq<char> {
        self.0@
    }
}

impl Clone for EndpointId {
    fn clone(&self) -> (r: EndpointId)
        ensures
            r@ == self@,
    {
        EndpointId(self.0.clone())
    }
}

impl PartialEq for EndpointId {
    fn eq(&self, other: &EndpointId) -> (r: bool) {
        self.0 == other.0
    }
}

impl vstd::std_specs::cmp::PartialEqSpecImpl for EndpointId {
    open spec fn obeys_eq_spec() -> bool {
        true
    }

    open spec fn eq_spec(&self, other: &EndpointId) -> bool {
        self.0@ == other.0@
    }
}

} // verus!
