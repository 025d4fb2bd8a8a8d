//! One listener session: `Connecting`, then `Active` once the broker issued
//! its identifier, then `Closing` and `Closed`. The session decides; the
//! transport around it performs what each step returns. Times are milliseconds
//! on a monotonic clock.
use vstd::prelude::*;

use crate::message::{LivestreamUpdate, Message, MessageView};
use crate::server::message_views;
use crate::protocol::{Disconnect, ViewCount};

verus! {

/// How often the liveness check runs.
pub const HEARTBEAT_INTERVAL_MS: u64 = 1000;

/// How long a session may stay silent before it is dropped.
pub const CLIENT_TIMEOUT_MS: u64 = 5000;

#[derive(Clone, Copy, Debug, PartialEq, Eq, Structural)]
pub enum SessionState {
    Connecting,
    Active,
    Closing,
    Closed,
}

pub struct ChatClient {
    /// Connection identifier, issued by the broker.
    pub id: usize,
    /// When the last ping or pong arrived.
    pub last_heartbeat_at: u64,
    /// When the session started.
    pub last_command_at: u64,
    pub state: SessionState,
    /// The broker holds this session and has not yet been told that it left.
    pub registered: bool,
}

/// An inbound frame, as the transport read it.
pub enum Frame {
    Ping(Vec<u8>),
    Pong,
    /// A text frame that held a well-formed update.
    Update(LivestreamUpdate),
    /// A text frame that held no update.
    Malformed,
    Binary,
    Close,
    Continuation,
    Nop,
    /// The transport failed.
    Error,
}

/// What the transport does about a frame.
pub enum FrameAction {
    /// Answer with a pong carrying these bytes.
    Pong(Vec<u8>),
    /// Pass these to the broker: the viewer count first, then each message.
    Forward { viewers: Option<ViewCount>, messages: Vec<Message> },
    /// Echo the close and stop.
    Close,
    /// Stop.
    Stop,
    /// Nothing.
    Ignore,
}

/// What the liveness check decided.
pub enum Tick {
    /// Send a liveness probe.
    Ping,
    /// The peer went silent: stop, after sending the broker this notice if any.
    TimedOut(Option<Disconnect>),
    /// The session is already closing.
    Idle,
}

/// The peer has been silent for longer than the timeout.
pub open spec fn timed_out(last_heartbeat_at: u64, now: u64) -> bool {
    now > last_heartbeat_at && now - last_heartbeat_at > CLIENT_TIMEOUT_MS
}

/// The identifier whose departure a liveness check at `now` announces: that of
/// a live session that the broker holds, silent for longer than the timeout.
pub open spec fn departure(c: ChatClient, now: u64) -> Option<usize> {
    if is_live(c.state) && c.registered && timed_out(c.last_heartbeat_at, now) {
        Some(c.id)
    } else {
        None
    }
}

pub open spec fn is_live(s: SessionState) -> bool {
    s == SessionState::Connecting || s == SessionState::Active
}

impl ChatClient {
    /// A session that has just been accepted at `now`.
    pub fn new(now: u64) -> (r: ChatClient)
        ensures
            r.state == SessionState::Connecting,
            r.id == 0,
            r.last_heartbeat_at == now,
            r.last_command_at == now,
            !r.registered,
    {
        ChatClient {
            id: 0,
            last_heartbeat_at: now,
            last_command_at: now,
            state: SessionState::Connecting,
            registered: false,
        }
    }

    /// The broker answered the registration: with an identifier, the session is
    /// active; without one, it stops. Returns whether the session goes on.
    pub fn on_registered(&mut self, id: Option<usize>) -> (r: bool)
        ensures
            old(self).state == SessionState::Connecting ==> match id {
                Some(i) => r && final(self).state == SessionState::Active && final(self).id == i
                    && final(self).registered,
                None => !r && final(self).state == SessionState::Closed && final(self).id == old(self).id
                    && final(self).registered == old(self).registered,
            },
            old(self).state != SessionState::Connecting ==> !r && *final(self) == *old(self),
            final(self).last_heartbeat_at == old(self).last_heartbeat_at,
            final(self).last_command_at == old(self).last_command_at,
    {
        if self.state != SessionState::Connecting {
            return false;
        }
        match id {
            Some(i) => {
                self.id = i;
                self.state = SessionState::Active;
                self.registered = true;
                true
            },
            None => {
                self.state = SessionState::Closed;
                false
            },
        }
    }

    /// The liveness check at `now`. A live session silent for longer than the
    /// timeout starts closing and, when the broker holds it, gives the notice of
    /// its departure, which is then never given again; any other live session
    /// sends a probe.
    pub fn heartbeat(&mut self, now: u64) -> (r: Tick)
        ensures
            departure(*old(self), now) == (match r {
                Tick::TimedOut(Some(d)) => Some(d.id),
                _ => None::<usize>,
            }),
            !is_live(old(self).state) ==> r is Idle && *final(self) == *old(self),
            is_live(old(self).state) && !timed_out(old(self).last_heartbeat_at, now) ==> r is Ping
                && *final(self) == *old(self),
            is_live(old(self).state) && timed_out(old(self).last_heartbeat_at, now) ==> {
                &&& final(self).state == SessionState::Closing
                &&& final(self).id == old(self).id
                &&& final(self).last_heartbeat_at == old(self).last_heartbeat_at
                &&& final(self).last_command_at == old(self).last_command_at
                &&& !final(self).registered
                &&& match r {
                    Tick::TimedOut(Some(d)) => old(self).registered && d.id == old(self).id,
                    Tick::TimedOut(None) => !old(self).registered,
                    _ => false,
                }
            },
    {
        if self.state != SessionState::Connecting && self.state != SessionState::Active {
            return Tick::Idle;
        }
        if now > self.last_heartbeat_at && now - self.last_heartbeat_at > CLIENT_TIMEOUT_MS {
            let notice = if self.registered {
                Some(Disconnect { id: self.id })
            } else {
                None
            };
            self.state = SessionState::Closing;
            self.registered = false;
            return Tick::TimedOut(notice);
        }
        Tick::Ping
    }

    /// The session is stopping, whatever stopped it (a close frame, a transport
    /// error, a timeout): the broker is told of the departure exactly when it
    /// still holds the session and has not been told already.
    pub fn stopping(&mut self) -> (r: Option<Disconnect>)
        ensures
            final(self).state == SessionState::Closed,
            !final(self).registered,
            final(self).id == old(self).id,
            final(self).last_heartbeat_at == old(self).last_heartbeat_at,
            final(self).last_command_at == old(self).last_command_at,
            r is Some <==> old(self).registered,
            r matches Some(d) ==> d.id == old(self).id,
    {
        let held = self.registered;
        self.registered = false;
        let notice = if held {
            Some(Disconnect { id: self.id })
        } else {
            None
        };
        self.state = SessionState::Closed;
        notice
    }

    /// Handles a frame that arrived at `now`. Pings and pongs count as signs of
    /// life; a ping is answered. An update is passed on, its viewer count first
    /// and then its messages in order. A close frame is echoed; an error or a
    /// continuation frame stops the session; anything else is ignored.
    pub fn handle(&mut self, frame: Frame, now: u64) -> (r: FrameAction)
        ensures
            final(self).id == old(self).id,
            final(self).last_command_at == old(self).last_command_at,
            final(self).registered == old(self).registered,
            final(self).state == (match frame {
                Frame::Close | Frame::Continuation | Frame::Error => if old(self).state
                    == SessionState::Closed {
                    SessionState::Closed
                } else {
                    SessionState::Closing
                },
                _ => old(self).state,
            }),
            final(self).last_heartbeat_at == (match frame {
                Frame::Ping(_) | Frame::Pong => now,
                _ => old(self).last_heartbeat_at,
            }),
            match frame {
                Frame::Ping(p) => r matches FrameAction::Pong(q) && q@ == p@,
                Frame::Pong => r is Ignore,
                Frame::Update(u) => r matches FrameAction::Forward { viewers, messages } && (match
                    u.viewers {
                    Some(n) => viewers matches Some(vc) && vc.platform@ == u.platform@
                        && vc.viewers == n,
                    None => viewers is None,
                }) && message_views(messages@) == (match u.messages {
                    Some(ms) => message_views(ms@),
                    None => Seq::<MessageView>::empty(),
                }),
                Frame::Close => r is Close,
                Frame::Continuation | Frame::Error => r is Stop,
                _ => r is Ignore,
            },
    {
        match frame {
            Frame::Ping(p) => {
                self.last_heartbeat_at = now;
                FrameAction::Pong(p)
            },
            Frame::Pong => {
                self.last_heartbeat_at = now;
                FrameAction::Ignore
            },
            Frame::Update(u) => {
                let viewers = match u.viewers {
                    Some(n) => Some(ViewCount { platform: u.platform, viewers: n }),
                    None => None,
                };
                let messages = match u.messages {
                    Some(ms) => ms,
                    None => {
                        let empty: Vec<Message> = Vec::new();
                        assert(message_views(empty@) =~= Seq::<MessageView>::empty());
                        empty
                    },
                };
                FrameAction::Forward { viewers, messages }
            },
            Frame::Close => {
                self.begin_closing();
                FrameAction::Close
            },
            Frame::Continuation | Frame::Error => {
                self.begin_closing();
                FrameAction::Stop
            },
            _ => FrameAction::Ignore,
        }
    }

    fn begin_closing(&mut self)
        ensures
            final(self).state == (if old(self).state == SessionState::Closed {
                SessionState::Closed
            } else {
                SessionState::Closing
            }),
            final(self).id == old(self).id,
            final(self).last_heartbeat_at == old(self).last_heartbeat_at,
            final(self).last_command_at == old(self).last_command_at,
            final(self).registered == old(self).registered,
    {
        if self.state != SessionState::Closed {
            self.state = SessionState::Closing;
        }
    }
}

} // verus!
