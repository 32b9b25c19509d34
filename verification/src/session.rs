//! Per-connection session logic of the client API: heartbeat handling, the
//! idle watchdog, and close semantics.

use vstd::prelude::*;

use crate::ids::MemberId;
use crate::protocol::{ClosedReason, CloseReason, Command, Heartbeat};

verus! {

/// A message a client sent over its connection, already decoded from the
/// wire by the host.
#[derive(Debug)]
pub enum ClientMessage {
    /// A heartbeat, normally a `Ping`.
    Heartbeat(Heartbeat),
    /// A command for the room.
    Command(Command),
}

/// What the session asks its host to do after one inbound message.
#[derive(Debug)]
pub struct SessionReaction {
    /// A heartbeat to send back, if one is owed.
    pub reply: Option<Heartbeat>,
    /// A command to forward to the room, if one arrived.
    pub forward: Option<Command>,
}

/// The instant the idle watchdog fires when armed at `now`: one idle
/// timeout later, saturating.
pub open spec fn idle_deadline_after(now: u64, idle_timeout: u64) -> u64 {
    if now <= u64::MAX - idle_timeout {
        (now + idle_timeout) as u64
    } else {
        u64::MAX
    }
}

/// State of one client connection.
#[derive(Debug)]
pub struct WsSession {
    /// Member this connection belongs to.
    pub member_id: MemberId,
    /// Idle timeout of this member, in milliseconds.
    pub idle_timeout: u64,
    /// When the idle watchdog fires, if armed.
    pub idle_deadline: Option<u64>,
    /// Whether the server already closed this connection itself, so a
    /// later close frame from the peer must not count as a client
    /// disconnect.
    pub closed_by_server: bool,
}

impl WsSession {
    /// Opens a session at `now`: the idle watchdog is armed immediately.
    pub fn new(member_id: MemberId, idle_timeout: u64, now: u64) -> (r: WsSession)
        ensures
            r.member_id@ == member_id@,
            r.idle_timeout == idle_timeout,
            r.idle_deadline == Some(idle_deadline_after(now, idle_timeout)),
            !r.closed_by_server,
    {
        let deadline = if now <= u64::MAX - idle_timeout {
            now + idle_timeout
        } else {
            u64::MAX
        };
        WsSession { member_id, idle_timeout, idle_deadline: Some(deadline), closed_by_server: false }
    }

    /// Handles one inbound message at `now`: any message re-arms the idle
    /// watchdog; a `Ping(n)` is answered by exactly one `Pong(n)` and
    /// nothing else; a command is forwarded to the room unchanged.
    pub fn handle_message(&mut self, now: u64, msg: ClientMessage) -> (r: SessionReaction)
        ensures
            final(self).member_id@ == old(self).member_id@,
            final(self).idle_timeout == old(self).idle_timeout,
            final(self).closed_by_server == old(self).closed_by_server,
            final(self).idle_deadline == Some(idle_deadline_after(now, old(self).idle_timeout)),
            msg matches ClientMessage::Heartbeat(h) ==> r.forward is None && (match h {
                Heartbeat::Ping(n) => r.reply == Some(Heartbeat::Pong(n)),
                Heartbeat::Pong(_) => r.reply is None,
            }),
            msg matches ClientMessage::Command(c) ==> r.reply is None && r.forward == Some(c),
    {
        let deadline = if now <= u64::MAX - self.idle_timeout {
            now + self.idle_timeout
        } else {
            u64::MAX
        };
        self.idle_deadline = Some(deadline);
        match msg {
            ClientMessage::Heartbeat(Heartbeat::Ping(n)) => SessionReaction {
                reply: Some(Heartbeat::Pong(n)),
                forward: None,
            },
            ClientMessage::Heartbeat(Heartbeat::Pong(_)) => SessionReaction { reply: None, forward: None },
            ClientMessage::Command(c) => SessionReaction { reply: None, forward: Some(c) },
        }
    }

    /// Checks the idle watchdog at `now`.  When the deadline has passed,
    /// the session closes itself: the host must send a close frame with
    /// code `Normal` and report `Idle` to the room; the watchdog disarms.
    pub fn handle_idle_check(&mut self, now: u64) -> (r: Option<(CloseReason, ClosedReason)>)
        ensures
            final(self).member_id@ == old(self).member_id@,
            final(self).idle_timeout == old(self).idle_timeout,
            ({
                let fired = old(self).idle_deadline matches Some(d) && now >= d;
                if fired {
                    &&& r == Some((CloseReason::Normal, ClosedReason::Idle))
                    &&& final(self).closed_by_server
                    &&& final(self).idle_deadline is None
                } else {
                    &&& r is None
                    &&& *final(self) == *old(self)
                }
            }),
    {
        let fired = match self.idle_deadline {
            Some(d) => now >= d,
            None => false,
        };
        if fired {
            self.closed_by_server = true;
            self.idle_deadline = None;
            Some((CloseReason::Normal, ClosedReason::Idle))
        } else {
            None
        }
    }

    /// The server closes this connection itself (room close or a
    /// replacement): later close frames must not count as disconnects.
    pub fn server_close(&mut self)
        ensures
            *final(self) == (WsSession { closed_by_server: true, ..*old(self) }),
    {
        self.closed_by_server = true;
    }

    /// Handles a close frame or the end of the connection: if the server
    /// did not close this session itself, the client went away and the
    /// room must hear `Disconnect`; otherwise nothing is reported.
    pub fn handle_close_frame(&mut self) -> (r: Option<ClosedReason>)
        ensures
            final(self).member_id@ == old(self).member_id@,
            old(self).closed_by_server ==> r is None && *final(self) == *old(self),
            !old(self).closed_by_server ==> r == Some(ClosedReason::Disconnect) && final(self).closed_by_server,
    {
        if self.closed_by_server {
            None
        } else {
            self.closed_by_server = true;
            Some(ClosedReason::Disconnect)
        }
    }
}

} // verus!
