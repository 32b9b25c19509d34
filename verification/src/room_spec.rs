//! Static description of a room: its members and their endpoints, and the
//! validation every description must pass before a room is built from it.

use vstd::prelude::*;

use crate::endpoints::{SrcUriView, WebRtcPublishId};
use crate::errors::RoomError;
use crate::ids::{EndpointId, MemberId, RoomId};
use crate::member::{MemberElement, MemberSpec};

verus! {

/// Element of a room's pipeline.
#[derive(Debug)]
pub enum RoomElement {
    /// A member, under its identifier.
    Member { spec: MemberSpec },
}

/// The member description a room element carries.
pub open spec fn member_spec_of(e: RoomElement) -> MemberSpec {
    match e {
        RoomElement::Member { spec } => spec,
    }
}

/// Static description of a room.
#[derive(Debug)]
pub struct RoomSpec {
    pub id: RoomId,
    pub pipeline: Vec<(MemberId, RoomElement)>,
}

/// Room pipeline keys are pairwise distinct members.
pub open spec fn room_keys_unique(p: Seq<(MemberId, RoomElement)>) -> bool {
    forall|i: int, j: int| 0 <= i < j < p.len() ==> (#[trigger] p[i]).0@ != (#[trigger] p[j]).0@
}

/// Every member description in the pipeline is well formed.
pub open spec fn members_wf(p: Seq<(MemberId, RoomElement)>) -> bool {
    forall|a: int| 0 <= a < p.len() ==> member_spec_of((#[trigger] p[a]).1).wf()
}

/// Member `mp` declares a publish endpoint under `key`.
pub open spec fn publish_key_in(mp: Seq<(EndpointId, MemberElement)>, key: Seq<char>) -> bool {
    exists|i: int| 0 <= i < mp.len() && (#[trigger] mp[i]).0@ == key && mp[i].1 is WebRtcPublishEndpoint
}

/// The source `src` resolves inside this room: it names this room, an
/// existing member, and a publish endpoint that member declares.
pub open spec fn src_ok(p: Seq<(MemberId, RoomElement)>, room: Seq<char>, src: SrcUriView) -> bool {
    &&& src.room == room
    &&& exists|a: int|
        0 <= a < p.len() && (#[trigger] p[a]).0@ == src.member && publish_key_in(
            member_spec_of(p[a].1).pipeline@,
            src.endpoint,
        )
}

/// If `entry` is a play endpoint, its source resolves in the room.
pub open spec fn entry_play_src_ok(
    p: Seq<(MemberId, RoomElement)>,
    room: Seq<char>,
    entry: (EndpointId, MemberElement),
) -> bool {
    entry.1 matches MemberElement::WebRtcPlayEndpoint { spec } ==> src_ok(p, room, spec.src@)
}

/// Every play endpoint of every member resolves in the room.
pub open spec fn plays_resolve(p: Seq<(MemberId, RoomElement)>, room: Seq<char>) -> bool {
    forall|a: int, e: int|
        #![trigger member_spec_of(p[a].1).pipeline@[e]]
        0 <= a < p.len() && 0 <= e < member_spec_of(p[a].1).pipeline@.len() ==> entry_play_src_ok(
            p,
            room,
            member_spec_of(p[a].1).pipeline@[e],
        )
}

impl RoomSpec {
    /// A description is acceptable when member identifiers are unique, each
    /// member is well formed (unique endpoint keys, non-empty credential),
    /// and every play source resolves to a declared publish endpoint of a
    /// member of this room.
    pub open spec fn valid(self) -> bool {
        &&& room_keys_unique(self.pipeline@)
        &&& members_wf(self.pipeline@)
        &&& plays_resolve(self.pipeline@, self.id@)
    }

    /// Returns this description's room identifier.
    pub fn id(&self) -> (r: &RoomId)
        ensures
            r == &self.id,
    {
        &self.id
    }

    /// Checks the description; rejected descriptions name the broken rule.
    pub fn validate(&self) -> (r: Result<(), RoomError>)
        ensures
            r is Ok <==> self.valid(),
            r matches Err(e) ==> e is BadRoomSpec,
    {
        // Unique member identifiers.
        let mut i: usize = 0;
        while i < self.pipeline.len()
            invariant
                0 <= i <= self.pipeline@.len(),
                forall|a: int, b: int| 0 <= a < b < i ==> (#[trigger] self.pipeline@[a]).0@ != (
                #[trigger] self.pipeline@[b]).0@,
            decreases self.pipeline@.len() - i,
        {
            let mut j: usize = 0;
            while j < i
                invariant
                    0 <= j <= i < self.pipeline@.len(),
                    forall|b: int| 0 <= b < j ==> (#[trigger] self.pipeline@[b]).0@ != self.pipeline@[i as int].0@,
                decreases i - j,
            {
                if self.pipeline[j].0 == self.pipeline[i].0 {
                    return Err(RoomError::BadRoomSpec(String::new()));
                }
                j = j + 1;
            }
            proof {
                assert forall|a: int, b: int|
                    0 <= a < b < i + 1 implies (#[trigger] self.pipeline@[a]).0@ != (
                #[trigger] self.pipeline@[b]).0@ by {
                    if b == i {
                        assert(self.pipeline@[a].0@ != self.pipeline@[i as int].0@);
                    }
                }
            }
            i = i + 1;
        }

        // Each member well formed.
        let mut a: usize = 0;
        while a < self.pipeline.len()
            invariant
                0 <= a <= self.pipeline@.len(),
                room_keys_unique(self.pipeline@),
                forall|b: int| 0 <= b < a ==> member_spec_of((#[trigger] self.pipeline@[b]).1).wf(),
            decreases self.pipeline@.len() - a,
        {
            let RoomElement::Member { spec } = &self.pipeline[a].1;
            if !member_spec_wf_check(spec) {
                return Err(RoomError::BadRoomSpec(String::new()));
            }
            proof {
                assert(member_spec_of(self.pipeline@[a as int].1) == *spec);
            }
            a = a + 1;
        }

        // Each play source resolves.
        let mut a: usize = 0;
        while a < self.pipeline.len()
            invariant
                0 <= a <= self.pipeline@.len(),
                room_keys_unique(self.pipeline@),
                members_wf(self.pipeline@),
                forall|b: int, e: int|
                    #![trigger member_spec_of(self.pipeline@[b].1).pipeline@[e]]
                    0 <= b < a && 0 <= e < member_spec_of(self.pipeline@[b].1).pipeline@.len() ==> entry_play_src_ok(
                        self.pipeline@,
                        self.id@,
                        member_spec_of(self.pipeline@[b].1).pipeline@[e],
                    ),
            decreases self.pipeline@.len() - a,
        {
            let RoomElement::Member { spec } = &self.pipeline[a].1;
            let mut e: usize = 0;
            while e < spec.pipeline.len()
                invariant
                    0 <= e <= spec.pipeline@.len(),
                    member_spec_of(self.pipeline@[a as int].1) == *spec,
                    0 <= a < self.pipeline@.len(),
                    forall|f: int|
                        0 <= f < e ==> entry_play_src_ok(self.pipeline@, self.id@, (#[trigger] spec.pipeline@[f])),
                decreases spec.pipeline@.len() - e,
            {
                if let MemberElement::WebRtcPlayEndpoint { spec: play } = &spec.pipeline[e].1 {
                    if !(play.src.room_id.0 == self.id.0) {
                        return Err(RoomError::BadRoomSpec(String::new()));
                    }
                    if !self.resolves(&play.src.member_id, &play.src.endpoint_id) {
                        return Err(RoomError::BadRoomSpec(String::new()));
                    }
                    proof {
                        assert(entry_play_src_ok(self.pipeline@, self.id@, spec.pipeline@[e as int]));
                    }
                } else {
                    proof {
                        assert(entry_play_src_ok(self.pipeline@, self.id@, spec.pipeline@[e as int]));
                    }
                }
                e = e + 1;
            }
            a = a + 1;
        }
        Ok(())
    }

    /// Whether some member of this room with identifier `member` declares a
    /// publish endpoint under `endpoint`.
    fn resolves(&self, member: &MemberId, endpoint: &WebRtcPublishId) -> (r: bool)
        ensures
            r == exists|a: int|
                0 <= a < self.pipeline@.len() && (#[trigger] self.pipeline@[a]).0@ == member@ && publish_key_in(
                    member_spec_of(self.pipeline@[a].1).pipeline@,
                    endpoint@,
                ),
    {
        let mut a: usize = 0;
        while a < self.pipeline.len()
            invariant
                0 <= a <= self.pipeline@.len(),
                forall|b: int|
                    0 <= b < a ==> !((#[trigger] self.pipeline@[b]).0@ == member@ && publish_key_in(
                        member_spec_of(self.pipeline@[b].1).pipeline@,
                        endpoint@,
                    )),
            decreases self.pipeline@.len() - a,
        {
            if self.pipeline[a].0 == *member {
                let RoomElement::Member { spec } = &self.pipeline[a].1;
                let mut e: usize = 0;
                let mut found = false;
                while e < spec.pipeline.len()
                    invariant
                        0 <= e <= spec.pipeline@.len(),
                        member_spec_of(self.pipeline@[a as int].1) == *spec,
                        0 <= a < self.pipeline@.len(),
                        found == exists|f: int|
                            0 <= f < e && (#[trigger] spec.pipeline@[f]).0@ == endpoint@ && spec.pipeline@[f].1
                                is WebRtcPublishEndpoint,
                    decreases spec.pipeline@.len() - e,
                {
                    if spec.pipeline[e].0.0 == endpoint.0 && matches!(
                        spec.pipeline[e].1,
                        MemberElement::WebRtcPublishEndpoint { .. },
                    ) {
                        found = true;
                        proof {
                            assert(0 <= e < spec.pipeline@.len() && spec.pipeline@[e as int].0@ == endpoint@
                                && spec.pipeline@[e as int].1 is WebRtcPublishEndpoint);
                        }
                    }
                    e = e + 1;
                }
                if found {
                    proof {
                        assert(publish_key_in(member_spec_of(self.pipeline@[a as int].1).pipeline@, endpoint@));
                    }
                    return true;
                }
            }
            a = a + 1;
        }
        false
    }
}

/// Checks a member description: endpoint keys unique, credential non-empty.
pub fn member_spec_wf_check(m: &MemberSpec) -> (r: bool)
    ensures
        r == m.wf(),
{
    let nonempty = match &m.credentials {
        crate::member::Credential::Plain(p) => !p.as_str().is_empty(),
        crate::member::Credential::Hash(h) => !h.as_str().is_empty(),
    };
    if !nonempty {
        return false;
    }
    let mut i: usize = 0;
    while i < m.pipeline.len()
        invariant
            0 <= i <= m.pipeline@.len(),
            forall|a: int, b: int| 0 <= a < b < i ==> (#[trigger] m.pipeline@[a]).0@ != (#[trigger] m.pipeline@[b]).0@,
        decreases m.pipeline@.len() - i,
    {
        let mut j: usize = 0;
        while j < i
            invariant
                0 <= j <= i < m.pipeline@.len(),
                forall|b: int| 0 <= b < j ==> (#[trigger] m.pipeline@[b]).0@ != m.pipeline@[i as int].0@,
            decreases i - j,
        {
            if m.pipeline[j].0 == m.pipeline[i].0 {
                return false;
            }
            j = j + 1;
        }
        proof {
            assert forall|a: int, b: int|
                0 <= a < b < i + 1 implies (#[trigger] m.pipeline@[a]).0@ != (#[trigger] m.pipeline@[b]).0@ by {
                if b == i {
                    assert(m.pipeline@[a].0@ != m.pipeline@[i as int].0@);
                }
            }
        }
        i = i + 1;
    }
    true
}

} // verus!
