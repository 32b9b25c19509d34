//! Static description of a member: its credential, its endpoints, and its
//! per-member timeouts.

use vstd::prelude::*;

use subtle::ConstantTimeEq;
use vstd::utf8::encode_utf8;

use crate::endpoints::{Endpoint, WebRtcPlayEndpoint, WebRtcPlayId, WebRtcPublishEndpoint, WebRtcPublishId};
use crate::ids::EndpointId;

verus! {

/// What `argon2::verify_encoded` answers for an encoded hash and a
/// password: a fixed function of the two arguments.
pub uninterp spec fn argon2_matches(hash: Seq<char>, password: Seq<u8>) -> bool;

/// Relies on `argon2::verify_encoded` (crate `rust-argon2`): whether the
/// password matches the encoded hash, a deterministic function of both; an
/// encoding error counts as a mismatch.
#[verifier::external_body]
fn verify_hashed(hash: &str, password: &[u8]) -> (r: bool)
    ensures
        r == argon2_matches(hash@, password@),
{
    argon2::verify_encoded(hash, password).unwrap_or(false)
}

/// Relies on `subtle::ConstantTimeEq` for `[u8]`: the returned `Choice`
/// converts to `true` exactly when the two slices are identical, compared
/// without data-dependent timing.
#[verifier::external_body]
fn bytes_ct_eq(a: &[u8], b: &[u8]) -> (r: bool)
    ensures
        r == (a@ == b@),
{
    bool::from(a.ct_eq(b))
}

/// Authentication secret of a member.
#[derive(Debug)]
pub enum Credential {
    /// Argon2 hash of the member's credential, in encoded form.
    Hash(String),
    /// Plain text credential, compared in constant time.
    Plain(String),
}

impl Credential {
    /// What presenting `other` to this credential yields: equality of the
    /// texts for a plain credential, the Argon2 verdict for a hashed one.
    pub open spec fn spec_verify(self, other: Seq<char>) -> bool {
        match self {
            Credential::Plain(p) => p@ == other,
            Credential::Hash(h) => argon2_matches(h@, encode_utf8(other)),
        }
    }

    /// Checks a presented credential: hashed credentials through Argon2,
    /// plain ones by constant-time comparison.
    pub fn verify(&self, other: &str) -> (r: bool)
        ensures
            r == self.spec_verify(other@),
    {
        match self {
            Credential::Hash(hash) => verify_hashed(hash.as_str(), other.as_bytes()),
            Credential::Plain(plain) => {
                let r = bytes_ct_eq(plain.as_str().as_bytes(), other.as_bytes());
                proof {
                    if plain@ == other@ {
                        assert(encode_utf8(plain@) == encode_utf8(other@));
                    }
                    if encode_utf8(plain@) == encode_utf8(other@) {
                        vstd::utf8::encode_utf8_decode_utf8(plain@);
                        vstd::utf8::encode_utf8_decode_utf8(other@);
                    }
                }
                r
            }
        }
    }

    /// The text of the credential, as seen by contracts: the plain text or
    /// the encoded hash.
    pub open spec fn text(self) -> Seq<char> {
        match self {
            Credential::Plain(p) => p@,
            Credential::Hash(h) => h@,
        }
    }

    /// Whether the credential text is non-empty, as room validation demands.
    pub open spec fn is_nonempty(self) -> bool {
        self.text().len() > 0
    }
}

impl Clone for Credential {
    fn clone(&self) -> (r: Credential)
        ensures
            r is Hash <==> self is Hash,
            r.text() == self.text(),
    {
        match self {
            Credential::Hash(h) => Credential::Hash(h.clone()),
            Credential::Plain(p) => Credential::Plain(p.clone()),
        }
    }
}

/// One element of a member's pipeline.
#[derive(Debug)]
pub enum MemberElement {
    WebRtcPublishEndpoint { spec: WebRtcPublishEndpoint },
    WebRtcPlayEndpoint { spec: WebRtcPlayEndpoint },
}

impl Clone for MemberElement {
    fn clone(&self) -> (r: MemberElement)
        ensures
            element_like(*self, r),
    {
        match self {
            MemberElement::WebRtcPublishEndpoint { spec } => MemberElement::WebRtcPublishEndpoint {
                spec: spec.clone(),
            },
            MemberElement::WebRtcPlayEndpoint { spec } => MemberElement::WebRtcPlayEndpoint { spec: spec.clone() },
        }
    }
}

impl Endpoint {
    /// Wraps the endpoint in the pipeline-element form.
    pub fn into_element(self) -> (r: MemberElement)
        ensures
            self matches Endpoint::WebRtcPublish(e) ==> r == (MemberElement::WebRtcPublishEndpoint { spec: e }),
            self matches Endpoint::WebRtcPlay(e) ==> r == (MemberElement::WebRtcPlayEndpoint { spec: e }),
    {
        match self {
            Endpoint::WebRtcPublish(e) => MemberElement::WebRtcPublishEndpoint { spec: e },
            Endpoint::WebRtcPlay(e) => MemberElement::WebRtcPlayEndpoint { spec: e },
        }
    }
}

/// Elements `a` and `b` declare the same endpoint: same kind and, for a
/// play endpoint, the same source.
pub open spec fn element_like(a: MemberElement, b: MemberElement) -> bool {
    ||| (a matches MemberElement::WebRtcPublishEndpoint { spec: sa } && b matches
        MemberElement::WebRtcPublishEndpoint { spec: sb } && sa == sb)
    ||| (a matches MemberElement::WebRtcPlayEndpoint { spec: sa } && b matches MemberElement::WebRtcPlayEndpoint {
        spec: sb,
    } && sa.src@ == sb.src@)
}

/// Pipeline entries `a` and `b` carry the same key and the same element.
pub open spec fn entry_like(a: (EndpointId, MemberElement), b: (EndpointId, MemberElement)) -> bool {
    a.0@ == b.0@ && element_like(a.1, b.1)
}

/// Member descriptions `a` and `b` describe the same member: same
/// endpoints under the same keys in the same order, same credential text,
/// same callbacks and timeouts.
pub open spec fn member_spec_like(a: MemberSpec, b: MemberSpec) -> bool {
    &&& a.pipeline@.len() == b.pipeline@.len()
    &&& forall|i: int| 0 <= i < a.pipeline@.len() ==> entry_like(#[trigger] a.pipeline@[i], b.pipeline@[i])
    &&& (a.credentials is Hash <==> b.credentials is Hash)
    &&& a.credentials.text() == b.credentials.text()
    &&& (a.on_join is Some <==> b.on_join is Some)
    &&& (a.on_leave is Some <==> b.on_leave is Some)
    &&& a.idle_timeout == b.idle_timeout
    &&& a.reconnect_timeout == b.reconnect_timeout
    &&& a.ping_interval == b.ping_interval
}

/// Likeness of member descriptions chains: two descriptions like a common
/// middle one are like each other.
pub proof fn lemma_member_spec_like_trans(a: MemberSpec, b: MemberSpec, c: MemberSpec)
    requires
        member_spec_like(a, b),
        member_spec_like(b, c),
    ensures
        member_spec_like(a, c),
{
    assert forall|i: int| 0 <= i < a.pipeline@.len() implies entry_like(#[trigger] a.pipeline@[i], c.pipeline@[i]) by {
        assert(entry_like(a.pipeline@[i], b.pipeline@[i]));
        assert(entry_like(b.pipeline@[i], c.pipeline@[i]));
    }
}

/// Pipeline entry `p` is a play endpoint that `e` copies: same key, same
/// source.
pub open spec fn play_entry_of(p: (EndpointId, MemberElement), e: (WebRtcPlayId, WebRtcPlayEndpoint)) -> bool {
    &&& p.0@ == e.0@
    &&& p.1 matches MemberElement::WebRtcPlayEndpoint { spec } && spec.src@ == e.1.src@
}

/// Pipeline entry `p` is a publish endpoint that `e` copies: same key, same
/// body.
pub open spec fn publish_entry_of(p: (EndpointId, MemberElement), e: (WebRtcPublishId, WebRtcPublishEndpoint)) -> bool {
    &&& p.0@ == e.0@
    &&& p.1 == (MemberElement::WebRtcPublishEndpoint { spec: e.1 })
}

/// Some entry of `out` carries key `key`.
pub open spec fn play_key_listed(out: Seq<(WebRtcPlayId, WebRtcPlayEndpoint)>, key: Seq<char>) -> bool {
    exists|k: int| 0 <= k < out.len() && (#[trigger] out[k]).0@ == key
}

/// Some entry of `out` carries key `key`.
pub open spec fn publish_key_listed(out: Seq<(WebRtcPublishId, WebRtcPublishEndpoint)>, key: Seq<char>) -> bool {
    exists|k: int| 0 <= k < out.len() && (#[trigger] out[k]).0@ == key
}

/// Every entry of `out` copies some play endpoint of `pipeline`.
pub open spec fn plays_sound(pipeline: Seq<(EndpointId, MemberElement)>, out: Seq<(WebRtcPlayId, WebRtcPlayEndpoint)>) -> bool {
    forall|k: int|
        #![trigger out[k]]
        0 <= k < out.len() ==> exists|i: int| 0 <= i < pipeline.len() && play_entry_of(#[trigger] pipeline[i], out[k])
}

/// Every play endpoint among the first `n` entries of `pipeline` is listed
/// in `out` under its key.
pub open spec fn plays_complete_upto(
    pipeline: Seq<(EndpointId, MemberElement)>,
    out: Seq<(WebRtcPlayId, WebRtcPlayEndpoint)>,
    n: int,
) -> bool {
    forall|i: int|
        0 <= i < n && (#[trigger] pipeline[i]).1 is WebRtcPlayEndpoint ==> play_key_listed(out, pipeline[i].0@)
}

/// Every entry of `out` copies some publish endpoint of `pipeline`.
pub open spec fn publishes_sound(
    pipeline: Seq<(EndpointId, MemberElement)>,
    out: Seq<(WebRtcPublishId, WebRtcPublishEndpoint)>,
) -> bool {
    forall|k: int|
        #![trigger out[k]]
        0 <= k < out.len() ==> exists|i: int|
            0 <= i < pipeline.len() && publish_entry_of(#[trigger] pipeline[i], out[k])
}

/// Every publish endpoint among the first `n` entries of `pipeline` is
/// listed in `out` under its key.
pub open spec fn publishes_complete_upto(
    pipeline: Seq<(EndpointId, MemberElement)>,
    out: Seq<(WebRtcPublishId, WebRtcPublishEndpoint)>,
    n: int,
) -> bool {
    forall|i: int|
        0 <= i < n && (#[trigger] pipeline[i]).1 is WebRtcPublishEndpoint ==> publish_key_listed(out, pipeline[i].0@)
}

/// Pipeline keys are pairwise distinct.
pub open spec fn pipeline_keys_unique(p: Seq<(EndpointId, MemberElement)>) -> bool {
    forall|i: int, j: int| 0 <= i < j < p.len() ==> (#[trigger] p[i]).0@ != (#[trigger] p[j]).0@
}

/// Static description of a member.
#[derive(Debug)]
pub struct MemberSpec {
    /// The member's endpoints, keyed by local identifier; keys unique.
    pub pipeline: Vec<(EndpointId, MemberElement)>,
    /// Credential the member authorizes with.
    pub credentials: Credential,
    /// URL to deliver `on_join` callbacks to, if any.
    pub on_join: Option<String>,
    /// URL to deliver `on_leave` callbacks to, if any.
    pub on_leave: Option<String>,
    /// Idle timeout in milliseconds, if overridden for this member.
    pub idle_timeout: Option<u64>,
    /// Reconnect timeout in milliseconds, if overridden for this member.
    pub reconnect_timeout: Option<u64>,
    /// Ping interval in milliseconds, if overridden for this member.
    pub ping_interval: Option<u64>,
}

impl MemberSpec {
    /// Pipeline keys are unique and the credential text is non-empty.
    pub open spec fn wf(self) -> bool {
        &&& pipeline_keys_unique(self.pipeline@)
        &&& self.credentials.is_nonempty()
    }

    /// Creates a member description from its parts.
    pub fn new(
        pipeline: Vec<(EndpointId, MemberElement)>,
        credentials: Credential,
        on_join: Option<String>,
        on_leave: Option<String>,
        idle_timeout: Option<u64>,
        reconnect_timeout: Option<u64>,
        ping_interval: Option<u64>,
    ) -> (r: MemberSpec)
        ensures
            r == (MemberSpec { pipeline, credentials, on_join, on_leave, idle_timeout, reconnect_timeout,
            ping_interval }),
    {
        MemberSpec { pipeline, credentials, on_join, on_leave, idle_timeout, reconnect_timeout, ping_interval }
    }

    /// Borrow of the member's credential.
    pub fn credentials(&self) -> (r: &Credential)
        ensures
            r == &self.credentials,
    {
        &self.credentials
    }

    /// Borrow of the `on_join` callback URL, if any.
    pub fn on_join(&self) -> (r: &Option<String>)
        ensures
            r == &self.on_join,
    {
        &self.on_join
    }

    /// Borrow of the `on_leave` callback URL, if any.
    pub fn on_leave(&self) -> (r: &Option<String>)
        ensures
            r == &self.on_leave,
    {
        &self.on_leave
    }

    /// Idle timeout override of this member, in milliseconds.
    pub fn idle_timeout(&self) -> (r: Option<u64>)
        ensures
            r == self.idle_timeout,
    {
        self.idle_timeout
    }

    /// Reconnect timeout override of this member, in milliseconds.
    pub fn reconnect_timeout(&self) -> (r: Option<u64>)
        ensures
            r == self.reconnect_timeout,
    {
        self.reconnect_timeout
    }

    /// Ping interval override of this member, in milliseconds.
    pub fn ping_interval(&self) -> (r: Option<u64>)
        ensures
            r == self.ping_interval,
    {
        self.ping_interval
    }

    /// Looks up the publish endpoint stored under `id`, if one is.
    pub fn get_publish_endpoint_by_id(&self, id: WebRtcPublishId) -> (r: Option<&WebRtcPublishEndpoint>)
        ensures
            match r {
                Some(e) => exists|i: int|
                    0 <= i < self.pipeline@.len() && (#[trigger] self.pipeline@[i]).0@ == id@
                        && self.pipeline@[i].1 == (MemberElement::WebRtcPublishEndpoint { spec: *e }),
                None => forall|i: int|
                    0 <= i < self.pipeline@.len() && (#[trigger] self.pipeline@[i]).0@ == id@
                        ==> !(self.pipeline@[i].1 is WebRtcPublishEndpoint),
            },
    {
        let mut i: usize = 0;
        while i < self.pipeline.len()
            invariant
                0 <= i <= self.pipeline@.len(),
                forall|j: int|
                    0 <= j < i && (#[trigger] self.pipeline@[j]).0@ == id@ ==> !(self.pipeline@[j].1
                        is WebRtcPublishEndpoint),
            decreases self.pipeline@.len() - i,
        {
            if self.pipeline[i].0.0 == id.0 {
                if let MemberElement::WebRtcPublishEndpoint { spec } = &self.pipeline[i].1 {
                    return Some(spec);
                }
            }
            i = i + 1;
        }
        None
    }

    /// All play endpoints of this member, with their identifiers, in
    /// pipeline order.
    pub fn play_endpoints(&self) -> (r: Vec<(WebRtcPlayId, WebRtcPlayEndpoint)>)
        ensures
            plays_sound(self.pipeline@, r@),
            plays_complete_upto(self.pipeline@, r@, self.pipeline@.len() as int),
    {
        let mut out: Vec<(WebRtcPlayId, WebRtcPlayEndpoint)> = Vec::new();
        let mut i: usize = 0;
        while i < self.pipeline.len()
            invariant
                0 <= i <= self.pipeline@.len(),
                plays_sound(self.pipeline@, out@),
                plays_complete_upto(self.pipeline@, out@, i as int),
            decreases self.pipeline@.len() - i,
        {
            if let MemberElement::WebRtcPlayEndpoint { spec } = &self.pipeline[i].1 {
                let ghost prev = out@;
                out.push((WebRtcPlayId(self.pipeline[i].0.0.clone()), spec.clone()));
                proof {
                    assert(play_entry_of(self.pipeline@[i as int], out@[prev.len() as int]));
                    assert forall|k: int|
                        #![trigger out@[k]]
                        0 <= k < out@.len() implies exists|j: int|
                            0 <= j < self.pipeline@.len() && play_entry_of(#[trigger] self.pipeline@[j], out@[k]) by {
                        if k < prev.len() {
                            assert(out@[k] == prev[k]);
                            assert(plays_sound(self.pipeline@, prev));
                        }
                    }
                    assert(plays_sound(self.pipeline@, out@));
                    assert forall|j: int|
                        0 <= j < i + 1 && (#[trigger] self.pipeline@[j]).1 is WebRtcPlayEndpoint
                            implies play_key_listed(out@, self.pipeline@[j].0@) by {
                        if j < i {
                            assert(play_key_listed(prev, self.pipeline@[j].0@));
                            let k = choose|k: int| 0 <= k < prev.len() && (#[trigger] prev[k]).0@ == self.pipeline@[j].0@;
                            assert(out@[k] == prev[k]);
                        } else {
                            assert(out@[prev.len() as int].0@ == self.pipeline@[j].0@);
                        }
                    }
                    assert(plays_complete_upto(self.pipeline@, out@, i + 1));
                }
            }
            i = i + 1;
        }
        out
    }

    /// All publish endpoints of this member, with their identifiers, in
    /// pipeline order.
    pub fn publish_endpoints(&self) -> (r: Vec<(WebRtcPublishId, WebRtcPublishEndpoint)>)
        ensures
            publishes_sound(self.pipeline@, r@),
            publishes_complete_upto(self.pipeline@, r@, self.pipeline@.len() as int),
    {
        let mut out: Vec<(WebRtcPublishId, WebRtcPublishEndpoint)> = Vec::new();
        let mut i: usize = 0;
        while i < self.pipeline.len()
            invariant
                0 <= i <= self.pipeline@.len(),
                publishes_sound(self.pipeline@, out@),
                publishes_complete_upto(self.pipeline@, out@, i as int),
            decreases self.pipeline@.len() - i,
        {
            if let MemberElement::WebRtcPublishEndpoint { spec } = &self.pipeline[i].1 {
                let ghost prev = out@;
                out.push((WebRtcPublishId(self.pipeline[i].0.0.clone()), spec.clone()));
                proof {
                    assert(publish_entry_of(self.pipeline@[i as int], out@[prev.len() as int]));
                    assert forall|k: int|
                        #![trigger out@[k]]
                        0 <= k < out@.len() implies exists|j: int|
                            0 <= j < self.pipeline@.len() && publish_entry_of(#[trigger] self.pipeline@[j], out@[k]) by {
                        if k < prev.len() {
                            assert(out@[k] == prev[k]);
                            assert(publishes_sound(self.pipeline@, prev));
                        }
                    }
                    assert(publishes_sound(self.pipeline@, out@));
                    assert forall|j: int|
                        0 <= j < i + 1 && (#[trigger] self.pipeline@[j]).1 is WebRtcPublishEndpoint
                            implies publish_key_listed(out@, self.pipeline@[j].0@) by {
                        if j < i {
                            assert(publish_key_listed(prev, self.pipeline@[j].0@));
                            let k = choose|k: int| 0 <= k < prev.len() && (#[trigger] prev[k]).0@ == self.pipeline@[j].0@;
                            assert(out@[k] == prev[k]);
                        } else {
                            assert(out@[prev.len() as int].0@ == self.pipeline@[j].0@);
                        }
                    }
                    assert(publishes_complete_upto(self.pipeline@, out@, i + 1));
                }
            }
            i = i + 1;
        }
        out
    }
}

impl Clone for MemberSpec {
    fn clone(&self) -> (r: MemberSpec)
        ensures
            member_spec_like(*self, r),
    {
        let mut pipeline: Vec<(EndpointId, MemberElement)> = Vec::new();
        let mut i: usize = 0;
        while i < self.pipeline.len()
            invariant
                0 <= i <= self.pipeline@.len(),
                pipeline@.len() == i,
                forall|j: int| 0 <= j < i ==> entry_like(#[trigger] self.pipeline@[j], pipeline@[j]),
            decreases self.pipeline@.len() - i,
        {
            pipeline.push((self.pipeline[i].0.clone(), self.pipeline[i].1.clone()));
            i = i + 1;
        }
        MemberSpec {
            pipeline,
            credentials: self.credentials.clone(),
            on_join: match &self.on_join {
                Some(u) => Some(u.clone()),
                None => None,
            },
            on_leave: match &self.on_leave {
                Some(u) => Some(u.clone()),
                None => None,
            },
            idle_timeout: self.idle_timeout,
            reconnect_timeout: self.reconnect_timeout,
            ping_interval: self.ping_interval,
        }
    }
}

} // verus!
