//! Plain model of the control-API wire form of members and endpoints, and
//! the checked conversion into the library's descriptions: the host
//! decodes its protobuf into these values and the library does the rest.

use vstd::prelude::*;

use crate::endpoints::{Endpoint, P2pMode, SrcUri, WebRtcPlayEndpoint, WebRtcPublishEndpoint, WebRtcPublishId};
use crate::ids::{EndpointId, MemberId, RoomId};
use crate::member::{Credential, MemberElement, MemberSpec};

verus! {

/// Credentials as they arrive on the wire.
#[derive(Debug)]
pub enum Credentials {
    Hash(String),
    Plain(String),
}

/// One endpoint element as it arrives on the wire.
#[derive(Debug)]
pub enum ElementProto {
    /// `p2p` is the numeric mode: 0 never, 1 if possible, 2 always.
    WebRtcPublishEndpoint { p2p: u32 },
    /// `src` is the canonical URI `local://<room>/<member>/<endpoint>`.
    WebRtcPlayEndpoint { src: String },
}

/// A member as it arrives on the wire.  Durations are milliseconds and may
/// be negative there; empty callback URLs mean none.
#[derive(Debug)]
pub struct MemberProto {
    pub pipeline: Vec<(String, Option<ElementProto>)>,
    pub credentials: Option<Credentials>,
    pub on_join: String,
    pub on_leave: String,
    pub idle_timeout: Option<i64>,
    pub reconnect_timeout: Option<i64>,
    pub ping_interval: Option<i64>,
}

/// Why a wire member was rejected.
#[derive(Debug)]
pub enum TryFromProtobufError {
    /// The element stored under this key carried no body.
    EmptyElement(String),
    /// This duration field was negative.
    NegativeDuration(String),
    /// This `src` is not a well-formed `local://<room>/<member>/<endpoint>`.
    InvalidSrcUri(String),
    /// This numeric peer-to-peer mode is unknown.
    UnknownP2pMode(u32),
}

/// The canonical prefix of a source URI.
pub open spec fn local_prefix() -> Seq<char> {
    "local://"@
}

/// `s` decomposes as `local://<room>/<member>/<endpoint>` with the three
/// non-empty, slash-free segments of `v`.
pub open spec fn src_uri_matches(s: Seq<char>, v: crate::endpoints::SrcUriView) -> bool {
    &&& s == local_prefix() + v.room + seq!['/'] + v.member + seq!['/'] + v.endpoint
    &&& v.room.len() > 0 && v.member.len() > 0 && v.endpoint.len() > 0
    &&& forall|i: int| 0 <= i < v.room.len() ==> v.room[i] != '/'
    &&& forall|i: int| 0 <= i < v.member.len() ==> v.member[i] != '/'
    &&& forall|i: int| 0 <= i < v.endpoint.len() ==> v.endpoint[i] != '/'
}

/// Position of the first separating slash of a decomposition.
pub open spec fn slash_one(v: crate::endpoints::SrcUriView) -> int {
    8 + v.room.len() as int
}

/// Position of the second separating slash of a decomposition.
pub open spec fn slash_two(v: crate::endpoints::SrcUriView) -> int {
    slash_one(v) + 1 + v.member.len() as int
}

/// What a decomposition forces on the characters of `s`: the prefix, the
/// two slash positions, and that no other slash follows the prefix.
pub proof fn lemma_src_uri_facts(s: Seq<char>, v: crate::endpoints::SrcUriView)
    requires
        src_uri_matches(s, v),
    ensures
        s.len() == 10 + v.room.len() + v.member.len() + v.endpoint.len(),
        s.len() >= 13,
        forall|k: int| 0 <= k < 8 ==> s[k] == local_prefix()[k],
        s[slash_one(v)] == '/',
        s[slash_two(v)] == '/',
        8 < slash_one(v),
        slash_one(v) + 1 < slash_two(v),
        slash_two(v) + 1 < s.len(),
        forall|j: int| 8 <= j < s.len() && s[j] == '/' ==> j == slash_one(v) || j == slash_two(v),
{
    reveal_strlit("local://");
    let pre = local_prefix();
    assert(pre.len() == 8);
    let a1 = pre + v.room;
    let a2 = a1 + seq!['/'];
    let a3 = a2 + v.member;
    let a4 = a3 + seq!['/'];
    assert(s == a4 + v.endpoint);
    let p1 = slash_one(v);
    let p2 = slash_two(v);
    assert(a1.len() == 8 + v.room.len());
    assert(a2.len() == p1 + 1);
    assert(a3.len() == p1 + 1 + v.member.len());
    assert(a4.len() == p2 + 1);
    assert(s.len() == p2 + 1 + v.endpoint.len());
    assert forall|k: int| 0 <= k < 8 implies s[k] == pre[k] by {
        assert(a1[k] == pre[k]);
        assert(a2[k] == a1[k]);
        assert(a3[k] == a2[k]);
        assert(a4[k] == a3[k]);
        assert(s[k] == a4[k]);
    }
    assert(s[p1] == '/') by {
        assert(a2[p1] == seq!['/'][0]);
        assert(a3[p1] == a2[p1]);
        assert(a4[p1] == a3[p1]);
        assert(s[p1] == a4[p1]);
    }
    assert(s[p2] == '/') by {
        assert(a4[p2] == seq!['/'][0]);
        assert(s[p2] == a4[p2]);
    }
    assert forall|j: int| 8 <= j < s.len() && s[j] == '/' implies j == p1 || j == p2 by {
        if j < p1 {
            assert(a1[j] == v.room[j - 8]);
            assert(a2[j] == a1[j]);
            assert(a3[j] == a2[j]);
            assert(a4[j] == a3[j]);
            assert(s[j] == a4[j]);
            assert(v.room[j - 8] != '/');
            assert(false);
        } else if p1 < j && j < p2 {
            assert(a3[j] == v.member[j - (p1 + 1)]);
            assert(a4[j] == a3[j]);
            assert(s[j] == a4[j]);
            assert(v.member[j - (p1 + 1)] != '/');
            assert(false);
        } else if p2 < j {
            assert(s[j] == v.endpoint[j - (p2 + 1)]);
            assert(v.endpoint[j - (p2 + 1)] != '/');
            assert(false);
        }
    }
}

/// Parses `local://<room>/<member>/<endpoint>`.  A parsed URI decomposes
/// the input exactly; every input with that shape parses, and every other
/// input is rejected.
pub fn parse_src_uri(s: &str) -> (r: Result<SrcUri, TryFromProtobufError>)
    ensures
        r matches Ok(uri) ==> src_uri_matches(s@, uri@),
        r matches Err(e) ==> e is InvalidSrcUri,
        (exists|v: crate::endpoints::SrcUriView| src_uri_matches(s@, v)) ==> r is Ok,
{
    proof {
        reveal_strlit("local://");
    }
    let n = s.unicode_len();
    if n < 8 {
        proof {
            if exists|v: crate::endpoints::SrcUriView| src_uri_matches(s@, v) {
                let v = choose|v: crate::endpoints::SrcUriView| src_uri_matches(s@, v);
                lemma_src_uri_facts(s@, v);
            }
        }
        return Err(TryFromProtobufError::InvalidSrcUri(s.to_owned()));
    }
    if !(s.get_char(0) == 'l' && s.get_char(1) == 'o' && s.get_char(2) == 'c' && s.get_char(3) == 'a'
        && s.get_char(4) == 'l' && s.get_char(5) == ':' && s.get_char(6) == '/' && s.get_char(7) == '/') {
        proof {
            if exists|v: crate::endpoints::SrcUriView| src_uri_matches(s@, v) {
                let v = choose|v: crate::endpoints::SrcUriView| src_uri_matches(s@, v);
                lemma_src_uri_facts(s@, v);
                reveal_strlit("local://");
                assert(s@[0] == 'l' && s@[1] == 'o' && s@[2] == 'c' && s@[3] == 'a' && s@[4] == 'l' && s@[5] == ':'
                    && s@[6] == '/' && s@[7] == '/');
            }
        }
        return Err(TryFromProtobufError::InvalidSrcUri(s.to_owned()));
    }
    proof {
        assert(s@.subrange(0, 8) =~= "local://"@);
    }

    // Find the two separating slashes after the prefix.
    let mut first_slash: usize = 0;
    let mut second_slash: usize = 0;
    let mut found_first = false;
    let mut found_second = false;
    let mut i: usize = 8;
    while i < n
        invariant
            8 <= i <= n,
            n == s@.len(),
            found_second ==> found_first,
            found_first ==> 8 <= first_slash < i && s@[first_slash as int] == '/',
            found_second ==> first_slash < second_slash < i && s@[second_slash as int] == '/',
            found_first ==> forall|j: int| 8 <= j < first_slash ==> s@[j] != '/',
            !found_first ==> forall|j: int| 8 <= j < i ==> s@[j] != '/',
            found_first && !found_second ==> forall|j: int| first_slash < j < i ==> s@[j] != '/',
            found_second ==> forall|j: int| first_slash < j < second_slash ==> s@[j] != '/',
            found_second ==> forall|j: int| second_slash < j < i ==> s@[j] != '/',
        decreases n - i,
    {
        let c = s.get_char(i);
        if c == '/' {
            if !found_first {
                first_slash = i;
                found_first = true;
            } else if !found_second {
                second_slash = i;
                found_second = true;
            } else {
                proof {
                    if exists|v: crate::endpoints::SrcUriView| src_uri_matches(s@, v) {
                        let v = choose|v: crate::endpoints::SrcUriView| src_uri_matches(s@, v);
                        lemma_src_uri_facts(s@, v);
                        assert(first_slash == slash_one(v) || first_slash == slash_two(v));
                        assert(second_slash == slash_one(v) || second_slash == slash_two(v));
                        assert(i == slash_one(v) || i == slash_two(v));
                        assert(false);
                    }
                }
                return Err(TryFromProtobufError::InvalidSrcUri(s.to_owned()));
            }
        }
        i = i + 1;
    }
    if !found_second {
        proof {
            if exists|v: crate::endpoints::SrcUriView| src_uri_matches(s@, v) {
                let v = choose|v: crate::endpoints::SrcUriView| src_uri_matches(s@, v);
                lemma_src_uri_facts(s@, v);
                if !found_first {
                    assert(s@[slash_one(v)] == '/');
                    assert(false);
                } else {
                    assert(s@[slash_one(v)] == '/' && s@[slash_two(v)] == '/');
                    assert(slash_one(v) == first_slash);
                    assert(slash_two(v) == first_slash);
                    assert(false);
                }
            }
        }
        return Err(TryFromProtobufError::InvalidSrcUri(s.to_owned()));
    }
    if first_slash <= 8 || second_slash <= first_slash + 1 || second_slash + 1 >= n {
        proof {
            if exists|v: crate::endpoints::SrcUriView| src_uri_matches(s@, v) {
                let v = choose|v: crate::endpoints::SrcUriView| src_uri_matches(s@, v);
                lemma_src_uri_facts(s@, v);
                assert(first_slash == slash_one(v) || first_slash == slash_two(v));
                if first_slash == slash_two(v) {
                    assert(s@[slash_one(v)] == '/');
                    assert(false);
                }
                assert(first_slash == slash_one(v));
                assert(second_slash == slash_one(v) || second_slash == slash_two(v));
                assert(second_slash == slash_two(v));
                assert(false);
            }
        }
        return Err(TryFromProtobufError::InvalidSrcUri(s.to_owned()));
    }
    let room = s.substring_char(8, first_slash);
    let member = s.substring_char(first_slash + 1, second_slash);
    let endpoint = s.substring_char(second_slash + 1, n);
    let uri = SrcUri {
        room_id: RoomId(room.to_owned()),
        member_id: MemberId(member.to_owned()),
        endpoint_id: WebRtcPublishId(endpoint.to_owned()),
    };
    proof {
        assert(uri@.room == s@.subrange(8, first_slash as int));
        assert(uri@.member == s@.subrange(first_slash + 1, second_slash as int));
        assert(uri@.endpoint == s@.subrange(second_slash + 1, n as int));
        assert(s@ =~= local_prefix() + uri@.room + seq!['/'] + uri@.member + seq!['/'] + uri@.endpoint);
    }
    Ok(uri)
}

/// Decodes a wire endpoint element.
pub fn endpoint_from_proto(proto: &ElementProto) -> (r: Result<Endpoint, TryFromProtobufError>)
    ensures
        match r {
            Ok(e) => match e {
                Endpoint::WebRtcPublish(p) => proto matches ElementProto::WebRtcPublishEndpoint { p2p } && p2p <= 2
                    && (p2p == 0 ==> p.p2p == P2pMode::Never) && (p2p == 1 ==> p.p2p == P2pMode::IfPossible) && (
                p2p == 2 ==> p.p2p == P2pMode::Always),
                Endpoint::WebRtcPlay(p) => proto matches ElementProto::WebRtcPlayEndpoint { src } && src_uri_matches(
                    src@,
                    p.src@,
                ),
            },
            Err(e) => {
                &&& (e is InvalidSrcUri ==> (proto matches ElementProto::WebRtcPlayEndpoint { src } && !(exists|v:
                    crate::endpoints::SrcUriView|
                    src_uri_matches(src@, v))))
                &&& (e is UnknownP2pMode ==> (proto matches ElementProto::WebRtcPublishEndpoint { p2p } && p2p > 2))
                &&& (e is InvalidSrcUri || e is UnknownP2pMode)
            },
        },
        (proto matches ElementProto::WebRtcPublishEndpoint { p2p } && p2p <= 2) ==> r is Ok,
        (proto matches ElementProto::WebRtcPlayEndpoint { src } && (exists|v: crate::endpoints::SrcUriView|
            src_uri_matches(src@, v))) ==> r is Ok,
{
    match proto {
        ElementProto::WebRtcPublishEndpoint { p2p } => {
            let mode = match *p2p {
                0u32 => P2pMode::Never,
                1u32 => P2pMode::IfPossible,
                2u32 => P2pMode::Always,
                other => {
                    return Err(TryFromProtobufError::UnknownP2pMode(other));
                }
            };
            Ok(Endpoint::WebRtcPublish(WebRtcPublishEndpoint { p2p: mode }))
        }
        ElementProto::WebRtcPlayEndpoint { src } => {
            match parse_src_uri(src.as_str()) {
                Ok(uri) => Ok(Endpoint::WebRtcPlay(WebRtcPlayEndpoint { src: uri })),
                Err(e) => Err(e),
            }
        }
    }
}

/// The character standing for six bits of entropy: the sixty-two
/// alphanumeric characters, cycled.
pub open spec fn token_char(b: u8) -> char {
    crate::proto::token_alphabet()[(b % 62) as int]
}

/// The credential alphabet, in order.
pub open spec fn token_alphabet() -> Seq<char> {
    "ABCDEFGHIJKLMNOPQRSTUVWXYZabcdefghijklmnopqrstuvwxyz0123456789"@
}

/// Turns 32 bytes of host-supplied entropy into a default credential: 32
/// characters drawn from `[A-Za-z0-9]`.
pub fn credential_from_entropy(entropy: &Vec<u8>) -> (r: String)
    requires
        entropy@.len() >= 32,
    ensures
        r@.len() == 32,
        forall|i: int| 0 <= i < 32 ==> #[trigger] r@[i] == token_char(entropy@[i]),
{
    proof {
        reveal_strlit("ABCDEFGHIJKLMNOPQRSTUVWXYZabcdefghijklmnopqrstuvwxyz0123456789");
    }
    let alphabet = "ABCDEFGHIJKLMNOPQRSTUVWXYZabcdefghijklmnopqrstuvwxyz0123456789";
    proof {
        assert(alphabet@ =~= token_alphabet());
        assert(alphabet@.len() == 62);
    }
    let mut out = String::new();
    let mut i: usize = 0;
    while i < 32
        invariant
            0 <= i <= 32,
            entropy@.len() >= 32,
            alphabet@ == token_alphabet(),
            alphabet@.len() == 62,
            out@.len() == i,
            forall|j: int| 0 <= j < i ==> #[trigger] out@[j] == token_char(entropy@[j]),
        decreases 32 - i,
    {
        let b = entropy[i];
        let idx = (b % 62) as usize;
        let piece = alphabet.substring_char(idx, idx + 1);
        let ghost prev = out@;
        out.append(piece);
        proof {
            assert(piece@ == alphabet@.subrange(idx as int, idx as int + 1));
            assert(piece@.len() == 1);
            assert(piece@[0] == alphabet@[idx as int]);
            assert(out@ == prev + piece@);
            assert(out@[i as int] == piece@[0]);
            assert(out@[i as int] == token_char(entropy@[i as int]));
            assert forall|j: int| 0 <= j < i + 1 implies #[trigger] out@[j] == token_char(entropy@[j]) by {
                if j < i {
                    assert(out@[j] == prev[j]);
                }
            }
        }
        i = i + 1;
    }
    out
}

/// The wire element `pe` decodes to the pipeline element `me`.
pub open spec fn element_decoded(pe: ElementProto, me: MemberElement) -> bool {
    match pe {
        ElementProto::WebRtcPublishEndpoint { p2p } => me matches MemberElement::WebRtcPublishEndpoint { spec } && {
            &&& p2p <= 2
            &&& (p2p == 0 ==> spec.p2p == P2pMode::Never)
            &&& (p2p == 1 ==> spec.p2p == P2pMode::IfPossible)
            &&& (p2p == 2 ==> spec.p2p == P2pMode::Always)
        },
        ElementProto::WebRtcPlayEndpoint { src } => me matches MemberElement::WebRtcPlayEndpoint { spec }
            && src_uri_matches(src@, spec.src@),
    }
}

/// The wire element `pe` can decode at all: a known publish mode or a
/// well-formed play source.
pub open spec fn element_decodable(pe: ElementProto) -> bool {
    match pe {
        ElementProto::WebRtcPublishEndpoint { p2p } => p2p <= 2,
        ElementProto::WebRtcPlayEndpoint { src } => exists|v: crate::endpoints::SrcUriView|
            src_uri_matches(src@, v),
    }
}

/// Checks and converts a wire member into a member description.  Every
/// element must carry a body, every play source must parse, every duration
/// must be non-negative; empty callback URLs become none; absent
/// credentials are replaced by `generated`, the host-supplied default.
pub fn member_spec_from_proto(member: MemberProto, generated: String) -> (r: Result<MemberSpec, TryFromProtobufError>)
    ensures
        r matches Ok(spec) ==> {
            &&& spec.pipeline@.len() == member.pipeline@.len()
            &&& forall|i: int|
                0 <= i < spec.pipeline@.len() ==> (#[trigger] spec.pipeline@[i]).0@ == member.pipeline@[i].0@
            &&& (member.credentials is None ==> (spec.credentials matches Credential::Plain(p) && p@ == generated@))
            &&& (member.credentials matches Some(c) ==> (match c {
                Credentials::Hash(h) => spec.credentials matches Credential::Hash(h2) && h2@ == h@,
                Credentials::Plain(p) => spec.credentials matches Credential::Plain(p2) && p2@ == p@,
            }))
            &&& (spec.on_join is Some <==> member.on_join@.len() > 0)
            &&& (spec.on_leave is Some <==> member.on_leave@.len() > 0)
            &&& (match member.idle_timeout {
                Some(t) => t >= 0 && spec.idle_timeout == Some(t as u64),
                None => spec.idle_timeout is None,
            })
            &&& (match member.reconnect_timeout {
                Some(t) => t >= 0 && spec.reconnect_timeout == Some(t as u64),
                None => spec.reconnect_timeout is None,
            })
            &&& (match member.ping_interval {
                Some(t) => t >= 0 && spec.ping_interval == Some(t as u64),
                None => spec.ping_interval is None,
            })
        },
        r matches Ok(spec) ==> {
            &&& forall|i: int| 0 <= i < member.pipeline@.len() ==> (#[trigger] member.pipeline@[i]).1 is Some
            &&& forall|i: int|
                0 <= i < member.pipeline@.len() ==> ((#[trigger] member.pipeline@[i]).1 matches Some(pe)
                    ==> element_decoded(pe, spec.pipeline@[i].1))
        },
        r matches Err(e) ==> {
            &&& (e is EmptyElement ==> exists|i: int|
                0 <= i < member.pipeline@.len() && (#[trigger] member.pipeline@[i]).1 is None)
            &&& (e is UnknownP2pMode ==> exists|i: int|
                0 <= i < member.pipeline@.len() && ((#[trigger] member.pipeline@[i]).1 matches Some(pe) && (
                pe matches ElementProto::WebRtcPublishEndpoint { p2p } && p2p > 2)))
            &&& (e is InvalidSrcUri ==> exists|i: int|
                0 <= i < member.pipeline@.len() && ((#[trigger] member.pipeline@[i]).1 matches Some(pe)
                    && !element_decodable(pe)))
            &&& (e is NegativeDuration ==> ((member.idle_timeout matches Some(t) && t < 0) || (
            member.reconnect_timeout matches Some(t) && t < 0) || (member.ping_interval matches Some(t) && t
                < 0)))
            &&& (e is EmptyElement || e is UnknownP2pMode || e is InvalidSrcUri || e is NegativeDuration)
        },
        ((forall|i: int|
            0 <= i < member.pipeline@.len() ==> ((#[trigger] member.pipeline@[i]).1 matches Some(pe)
                && element_decodable(pe))) && !(member.idle_timeout matches Some(t) && t < 0) && !(
        member.reconnect_timeout matches Some(t) && t < 0) && !(member.ping_interval matches Some(t) && t < 0))
            ==> r is Ok,
{
    let MemberProto { pipeline, credentials, on_join, on_leave, idle_timeout, reconnect_timeout, ping_interval } =
        member;

    let mut converted: Vec<(EndpointId, MemberElement)> = Vec::new();
    let ghost pipeline_view = pipeline@;
    let mut i: usize = 0;
    while i < pipeline.len()
        invariant
            0 <= i <= pipeline@.len(),
            pipeline@ == pipeline_view,
            pipeline_view == member.pipeline@,
            converted@.len() == i,
            forall|j: int| 0 <= j < i ==> (#[trigger] converted@[j]).0@ == pipeline@[j].0@,
            forall|j: int| 0 <= j < i ==> (#[trigger] pipeline@[j]).1 is Some,
            forall|j: int|
                0 <= j < i ==> ((#[trigger] pipeline@[j]).1 matches Some(pe) ==> element_decoded(
                    pe,
                    converted@[j].1,
                )),
        decreases pipeline@.len() - i,
    {
        let (key, element) = &pipeline[i];
        match element {
            Some(e) => {
                match endpoint_from_proto(e) {
                    Ok(endpoint) => {
                        let ghost gpe = *e;
                        let ghost gep = endpoint;
                        let ghost prev_converted = converted@;
                        let el = endpoint.into_element();
                        converted.push((EndpointId(key.clone()), el));
                        proof {
                            assert(converted@[i as int].1 == el);
                            assert(element_decoded(gpe, el));
                            assert forall|j: int|
                                0 <= j < i + 1 implies ((#[trigger] pipeline@[j]).1 matches Some(pe)
                                    ==> element_decoded(pe, converted@[j].1)) by {
                                if j < i {
                                    assert(converted@[j] == prev_converted[j]);
                                }
                            }
                        }
                    }
                    Err(err) => {
                        proof {
                            assert(0 <= i < pipeline_view.len());
                            assert(pipeline_view[i as int].1 matches Some(pe) && pe == *e);
                            if err is InvalidSrcUri {
                                assert(pipeline_view[i as int].1 matches Some(pe) && !element_decodable(pe));
                            }
                            if err is UnknownP2pMode {
                                assert(pipeline_view[i as int].1 matches Some(pe) && (pe matches
                                    ElementProto::WebRtcPublishEndpoint { p2p } && p2p > 2));
                            }
                        }
                        return Err(err);
                    }
                }
            }
            None => {
                proof {
                    assert(0 <= i < pipeline_view.len());
                    assert(pipeline_view[i as int].1 is None);
                }
                return Err(TryFromProtobufError::EmptyElement(key.clone()));
            }
        }
        i = i + 1;
    }

    let credentials = match credentials {
        Some(Credentials::Hash(h)) => Credential::Hash(h),
        Some(Credentials::Plain(p)) => Credential::Plain(p),
        None => Credential::Plain(generated),
    };

    let on_join = if on_join.as_str().is_empty() {
        None
    } else {
        Some(on_join)
    };
    let on_leave = if on_leave.as_str().is_empty() {
        None
    } else {
        Some(on_leave)
    };

    let idle_timeout = match idle_timeout {
        Some(t) => {
            if t < 0 {
                return Err(TryFromProtobufError::NegativeDuration(String::new()));
            }
            Some(t as u64)
        }
        None => None,
    };
    let reconnect_timeout = match reconnect_timeout {
        Some(t) => {
            if t < 0 {
                return Err(TryFromProtobufError::NegativeDuration(String::new()));
            }
            Some(t as u64)
        }
        None => None,
    };
    let ping_interval = match ping_interval {
        Some(t) => {
            if t < 0 {
                return Err(TryFromProtobufError::NegativeDuration(String::new()));
            }
            Some(t as u64)
        }
        None => None,
    };

    Ok(
        MemberSpec {
            pipeline: converted,
            credentials,
            on_join,
            on_leave,
            idle_timeout,
            reconnect_timeout,
            ping_interval,
        },
    )
}

} // verus!
