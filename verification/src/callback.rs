//! Messages of the control callback API: `on_join` and `on_leave`
//! notifications a room posts about its members, modelled as plain values.

use vstd::prelude::*;

verus! {

/// Why a member left, as reported in an `on_leave` callback.
#[derive(Clone, Copy, Debug, PartialEq, Eq, Structural)]
#[allow(non_camel_case_types)]
pub enum OnLeave_Reason {
    DISCONNECTED,
    LOST_CONNECTION,
    SERVER_SHUTDOWN,
}

impl OnLeave_Reason {
    /// The numeric wire value of this reason.
    pub open spec fn spec_value(self) -> i32 {
        match self {
            OnLeave_Reason::DISCONNECTED => 0,
            OnLeave_Reason::LOST_CONNECTION => 1,
            OnLeave_Reason::SERVER_SHUTDOWN => 2,
        }
    }

    /// Returns the numeric wire value of this reason.
    pub fn value(&self) -> (r: i32)
        ensures
            r == self.spec_value(),
    {
        match self {
            OnLeave_Reason::DISCONNECTED => 0,
            OnLeave_Reason::LOST_CONNECTION => 1,
            OnLeave_Reason::SERVER_SHUTDOWN => 2,
        }
    }

    /// Decodes a numeric wire value; unknown values decode to nothing.
    pub fn from_i32(value: i32) -> (r: Option<OnLeave_Reason>)
        ensures
            match r {
                Some(v) => v.spec_value() == value,
                None => !(value == 0 || value == 1 || value == 2),
            },
    {
        match value {
            0 => Some(OnLeave_Reason::DISCONNECTED),
            1 => Some(OnLeave_Reason::LOST_CONNECTION),
            2 => Some(OnLeave_Reason::SERVER_SHUTDOWN),
            _ => None,
        }
    }

    /// All reasons, in wire order.
    pub fn values() -> (r: Vec<OnLeave_Reason>)
        ensures
            r@ == seq![
                OnLeave_Reason::DISCONNECTED,
                OnLeave_Reason::LOST_CONNECTION,
                OnLeave_Reason::SERVER_SHUTDOWN,
            ],
    {
        let mut v: Vec<OnLeave_Reason> = Vec::new();
        v.push(OnLeave_Reason::DISCONNECTED);
        v.push(OnLeave_Reason::LOST_CONNECTION);
        v.push(OnLeave_Reason::SERVER_SHUTDOWN);
        proof {
            assert(v@ =~= seq![
                OnLeave_Reason::DISCONNECTED,
                OnLeave_Reason::LOST_CONNECTION,
                OnLeave_Reason::SERVER_SHUTDOWN,
            ]);
        }
        v
    }
}

/// Notification that a member joined its room.
#[derive(Debug)]
pub struct OnJoin {}

impl OnJoin {
    /// Creates an empty `on_join` notification.
    pub fn new() -> (r: OnJoin) {
        OnJoin {  }
    }
}

impl Clone for OnJoin {
    fn clone(&self) -> (r: OnJoin) {
        OnJoin {  }
    }
}

/// Notification that a member left its room, with the reason.
#[derive(Debug)]
pub struct OnLeave {
    pub reason: OnLeave_Reason,
}

impl OnLeave {
    /// Creates an `on_leave` notification with the default reason.
    pub fn new() -> (r: OnLeave)
        ensures
            r.reason == OnLeave_Reason::DISCONNECTED,
    {
        OnLeave { reason: OnLeave_Reason::DISCONNECTED }
    }

    /// The reason the member left.
    pub fn get_reason(&self) -> (r: OnLeave_Reason)
        ensures
            r == self.reason,
    {
        self.reason
    }

    /// Resets the reason to the default.
    pub fn clear_reason(&mut self)
        ensures
            final(self).reason == OnLeave_Reason::DISCONNECTED,
    {
        self.reason = OnLeave_Reason::DISCONNECTED;
    }

    /// Sets the reason.
    pub fn set_reason(&mut self, v: OnLeave_Reason)
        ensures
            final(self).reason == v,
    {
        self.reason = v;
    }
}

impl Clone for OnLeave {
    fn clone(&self) -> (r: OnLeave)
        ensures
            r == *self,
    {
        OnLeave { reason: self.reason }
    }
}

/// The event carried by a callback request.
#[derive(Clone, Debug)]
#[allow(non_camel_case_types)]
pub enum Request_oneof_event {
    on_join(OnJoin),
    on_leave(OnLeave),
}

/// One callback request: which element it is about (`fid`), when it
/// happened (`at`), and the event itself.
#[derive(Debug)]
pub struct Request {
    /// Full identifier of the element the callback is about.
    pub fid: String,
    /// When the event happened, as an RFC 3339 timestamp.
    pub at: String,
    /// The event, if one is set.
    pub event: Option<Request_oneof_event>,
}

impl Request {
    /// Creates an empty request.
    pub fn new() -> (r: Request)
        ensures
            r.fid@.len() == 0,
            r.at@.len() == 0,
            r.event is None,
    {
        Request { fid: String::new(), at: String::new(), event: None }
    }

    /// Borrow of the element identifier.
    pub fn get_fid(&self) -> (r: &str)
        ensures
            r@ == self.fid@,
    {
        self.fid.as_str()
    }

    /// Empties the element identifier.
    pub fn clear_fid(&mut self)
        ensures
            final(self).fid@.len() == 0,
            final(self).at == old(self).at,
            final(self).event == old(self).event,
    {
        self.fid = String::new();
    }

    /// Sets the element identifier.
    pub fn set_fid(&mut self, v: String)
        ensures
            final(self).fid == v,
            final(self).at == old(self).at,
            final(self).event == old(self).event,
    {
        self.fid = v;
    }

    /// Mutable borrow of the element identifier.
    pub fn mut_fid(&mut self) -> (r: &mut String) {
        &mut self.fid
    }

    /// Takes the element identifier, leaving it empty.
    pub fn take_fid(&mut self) -> (r: String)
        ensures
            r == old(self).fid,
            final(self).fid@.len() == 0,
            final(self).at == old(self).at,
            final(self).event == old(self).event,
    {
        let mut out = String::new();
        core::mem::swap(&mut out, &mut self.fid);
        out
    }

    /// Borrow of the timestamp.
    pub fn get_at(&self) -> (r: &str)
        ensures
            r@ == self.at@,
    {
        self.at.as_str()
    }

    /// Empties the timestamp.
    pub fn clear_at(&mut self)
        ensures
            final(self).at@.len() == 0,
            final(self).fid == old(self).fid,
            final(self).event == old(self).event,
    {
        self.at = String::new();
    }

    /// Sets the timestamp.
    pub fn set_at(&mut self, v: String)
        ensures
            final(self).at == v,
            final(self).fid == old(self).fid,
            final(self).event == old(self).event,
    {
        self.at = v;
    }

    /// Mutable borrow of the timestamp.
    pub fn mut_at(&mut self) -> (r: &mut String) {
        &mut self.at
    }

    /// Takes the timestamp, leaving it empty.
    pub fn take_at(&mut self) -> (r: String)
        ensures
            r == old(self).at,
            final(self).at@.len() == 0,
            final(self).fid == old(self).fid,
            final(self).event == old(self).event,
    {
        let mut out = String::new();
        core::mem::swap(&mut out, &mut self.at);
        out
    }

    /// Whether the event is an `on_join`.
    pub fn has_on_join(&self) -> (r: bool)
        ensures
            r == (self.event matches Some(Request_oneof_event::on_join(_))),
    {
        matches!(self.event, Some(Request_oneof_event::on_join(_)))
    }

    /// Borrow of the `on_join` event; a default when another or no event is
    /// set.
    pub fn get_on_join(&self) -> (r: OnJoin) {
        match &self.event {
            Some(Request_oneof_event::on_join(v)) => v.clone(),
            _ => OnJoin::new(),
        }
    }

    /// Clears the event.
    pub fn clear_on_join(&mut self)
        ensures
            final(self).event is None,
            final(self).fid == old(self).fid,
            final(self).at == old(self).at,
    {
        self.event = None;
    }

    /// Sets the event to an `on_join`.
    pub fn set_on_join(&mut self, v: OnJoin)
        ensures
            final(self).event matches Some(Request_oneof_event::on_join(_)),
            final(self).fid == old(self).fid,
            final(self).at == old(self).at,
    {
        self.event = Some(Request_oneof_event::on_join(v));
    }

    /// Makes the event an `on_join` if it is not one, and borrows it.
    pub fn mut_on_join(&mut self) -> (r: &mut OnJoin) {
        if !matches!(self.event, Some(Request_oneof_event::on_join(_))) {
            self.event = Some(Request_oneof_event::on_join(OnJoin::new()));
        }
        match &mut self.event {
            Some(Request_oneof_event::on_join(v)) => v,
            _ => {
                proof {
                    assert(false);
                }
                unreached()
            }
        }
    }

    /// Takes the `on_join` event if one is set, else a default; the event
    /// field is cleared if it held an `on_join`.
    pub fn take_on_join(&mut self) -> (r: OnJoin)
        ensures
            old(self).event matches Some(Request_oneof_event::on_join(_)) ==> final(self).event is None,
            !(old(self).event matches Some(Request_oneof_event::on_join(_))) ==> final(self).event == old(self).event,
            final(self).fid == old(self).fid,
            final(self).at == old(self).at,
    {
        if matches!(self.event, Some(Request_oneof_event::on_join(_))) {
            match self.event.take() {
                Some(Request_oneof_event::on_join(v)) => v,
                _ => {
                    proof {
                        assert(false);
                    }
                    unreached()
                }
            }
        } else {
            OnJoin::new()
        }
    }

    /// Whether the event is an `on_leave`.
    pub fn has_on_leave(&self) -> (r: bool)
        ensures
            r == (self.event matches Some(Request_oneof_event::on_leave(_))),
    {
        matches!(self.event, Some(Request_oneof_event::on_leave(_)))
    }

    /// Borrow of the `on_leave` event; a default when another or no event
    /// is set.
    pub fn get_on_leave(&self) -> (r: OnLeave)
        ensures
            self.event matches Some(Request_oneof_event::on_leave(v)) ==> r == v,
            !(self.event matches Some(Request_oneof_event::on_leave(_))) ==> r.reason
                == OnLeave_Reason::DISCONNECTED,
    {
        match &self.event {
            Some(Request_oneof_event::on_leave(v)) => v.clone(),
            _ => OnLeave::new(),
        }
    }

    /// Clears the event.
    pub fn clear_on_leave(&mut self)
        ensures
            final(self).event is None,
            final(self).fid == old(self).fid,
            final(self).at == old(self).at,
    {
        self.event = None;
    }

    /// Sets the event to an `on_leave`.
    pub fn set_on_leave(&mut self, v: OnLeave)
        ensures
            final(self).event matches Some(Request_oneof_event::on_leave(w)) && w == v,
            final(self).fid == old(self).fid,
            final(self).at == old(self).at,
    {
        self.event = Some(Request_oneof_event::on_leave(v));
    }

    /// Makes the event an `on_leave` if it is not one, and borrows it.
    pub fn mut_on_leave(&mut self) -> (r: &mut OnLeave) {
        if !matches!(self.event, Some(Request_oneof_event::on_leave(_))) {
            self.event = Some(Request_oneof_event::on_leave(OnLeave::new()));
        }
        match &mut self.event {
            Some(Request_oneof_event::on_leave(v)) => v,
            _ => {
                proof {
                    assert(false);
                }
                unreached()
            }
        }
    }

    /// Takes the `on_leave` event if one is set, else a default; the event
    /// field is cleared if it held an `on_leave`.
    pub fn take_on_leave(&mut self) -> (r: OnLeave)
        ensures
            old(self).event matches Some(Request_oneof_event::on_leave(v)) ==> r == v && final(self).event is None,
            !(old(self).event matches Some(Request_oneof_event::on_leave(_))) ==> final(self).event == old(
                self,
            ).event && r.reason == OnLeave_Reason::DISCONNECTED,
            final(self).fid == old(self).fid,
            final(self).at == old(self).at,
    {
        if matches!(self.event, Some(Request_oneof_event::on_leave(_))) {
            match self.event.take() {
                Some(Request_oneof_event::on_leave(v)) => v,
                _ => {
                    proof {
                        assert(false);
                    }
                    unreached()
                }
            }
        } else {
            OnLeave::new()
        }
    }
}

/// Answer to a callback request; it carries nothing.
#[derive(Debug)]
pub struct Response {}

impl Response {
    /// Creates an empty response.
    pub fn new() -> (r: Response) {
        Response {  }
    }
}

impl Clone for Response {
    fn clone(&self) -> (r: Response) {
        Response {  }
    }
}

} // verus!
