//! The Realtime connection's decisions: it waits for an access token, stays connected while
//! signed in (passing new tokens to the server and sending heartbeats), hands the app what the
//! server says, and reconnects after a growing pause when the connection fails. The socket,
//! the timers and the channels are the host's; it reports what happened as an event and
//! carries out the action it gets back.

use vstd::prelude::*;
use crate::realtime::{access_token_message, heartbeat, incoming_view, join, parse, spec_join, spec_parse, Incoming, IncomingV};
use crate::sync::reconnect_pause_secs;
use crate::text::spec_decimal;

verus! {

/// Seconds between heartbeats.
pub const HEARTBEAT_SECS: u64 = 25;

/// The connection's state.
pub struct Link {
    /// The access token to connect with; `None` while signed out.
    pub token: Option<String>,
    /// Failed connections in a row.
    pub failures: u32,
    /// The reference of the next message sent on the connection.
    pub next_ref: u64,
    /// A socket is open (or being opened).
    pub connected: bool,
}

/// What happened, as the host reports it.
pub enum LinkEvent {
    /// A new access token came on the control channel (`None`: signed out).
    Token(Option<String>),
    /// The control channel (or the app's side of the events) closed: the app quits.
    Quit,
    /// The socket connected and the join was sent.
    Joined,
    /// Connecting, sending or reading failed, or the server closed the socket, for this reason.
    Failed(String),
    /// A heartbeat is due.
    HeartbeatDue,
    /// A text message came from the server.
    Text(String),
    /// The pause after a failure ran out with no new token.
    PauseOver,
}

/// What the host does next.
pub enum LinkAction {
    /// Wait for a token on the control channel.
    WaitForToken,
    /// Connect and send this join message.
    Connect(String),
    /// Send this message and go on reading.
    Send(String),
    /// Close the socket, then wait for a token.
    Close,
    /// Hand this to the app and go on reading.
    Emit(Incoming),
    /// Go on reading.
    Read,
    /// Wait this many seconds for a token before reconnecting.
    Pause(u64),
    /// End the connection thread.
    Stop,
}

/// The state before anything happened: waiting for a token.
pub fn start() -> (r: (Link, LinkAction))
    ensures
        r.0.token is None,
        r.0.failures == 0,
        r.0.next_ref == 2,
        !r.0.connected,
        r.1 is WaitForToken,
{
    (Link { token: None, failures: 0, next_ref: 2, connected: false }, LinkAction::WaitForToken)
}

pub open spec fn token_view(t: Option<String>) -> Option<Seq<char>> {
    match t {
        Some(s) => Some(s@),
        None => None,
    }
}

/// What `next` and `action` are after a failure of a link in state `old`: disconnected, one
/// failure more, pausing by the reconnect schedule.
pub open spec fn after_failure(old: &Link, next: &Link, action: &LinkAction) -> bool {
    &&& !next.connected
    &&& next.failures == old.failures + 1
    &&& token_view(next.token) == token_view(old.token)
    &&& next.next_ref == old.next_ref
    &&& action matches LinkAction::Pause(secs) && secs == (if old.failures == 0 {
        1u64
    } else if old.failures == 1 {
        5
    } else if old.failures == 2 {
        15
    } else {
        60
    })
}

/// Connecting with `token`: the action that opens the socket and joins.
pub open spec fn connects(token: Option<Seq<char>>, action: &LinkAction) -> bool {
    match token {
        Some(t) => action matches LinkAction::Connect(m) && m@ == spec_join(t),
        None => action is WaitForToken,
    }
}

impl Link {
    fn fail(&mut self) -> (r: LinkAction)
        requires
            old(self).failures < u32::MAX,
        ensures
            after_failure(old(self), final(self), &r),
    {
        let pause = reconnect_pause_secs(self.failures);
        self.failures = self.failures + 1;
        self.connected = false;
        LinkAction::Pause(pause)
    }

    fn connect(&self) -> (r: LinkAction)
        ensures
            connects(token_view(self.token), &r),
    {
        match &self.token {
            Some(t) => LinkAction::Connect(join(t.as_str())),
            None => LinkAction::WaitForToken,
        }
    }

    /// The next action after `event`.
    pub fn step(&mut self, event: LinkEvent) -> (r: LinkAction)
        requires
            old(self).failures < u32::MAX,
            old(self).next_ref < u64::MAX,
        ensures
            match event {
                LinkEvent::Quit => r is Stop,
                LinkEvent::Token(t) => if old(self).connected {
                    match t {
                        Some(fresh) => {
                            &&& r matches LinkAction::Send(m) && m@ == "{\"topic\":\"realtime:odak\",\"event\":\"access_token\",\"ref\":\""@
                                + spec_decimal(old(self).next_ref as nat)
                                + "\",\"payload\":{\"access_token\":"@ + crate::realtime::spec_json_string(fresh@) + "}}"@
                            &&& token_view(final(self).token) == Some(fresh@)
                            &&& final(self).next_ref == old(self).next_ref + 1
                            &&& final(self).connected
                            &&& final(self).failures == old(self).failures
                        },
                        None => {
                            &&& r is Close
                            &&& final(self).token is None
                            &&& final(self).failures == 0
                            &&& !final(self).connected
                        },
                    }
                } else {
                    &&& token_view(final(self).token) == token_view(t)
                    &&& connects(token_view(t), &r)
                    &&& final(self).failures == old(self).failures
                    &&& !final(self).connected
                },
                LinkEvent::Joined => {
                    &&& r is Read
                    &&& final(self).connected
                    &&& final(self).next_ref == 2
                    &&& token_view(final(self).token) == token_view(old(self).token)
                    &&& final(self).failures == old(self).failures
                },
                LinkEvent::Failed(_) => after_failure(old(self), final(self), &r),
                LinkEvent::HeartbeatDue => if old(self).connected {
                    &&& r matches LinkAction::Send(m) && m@ == "{\"topic\":\"phoenix\",\"event\":\"heartbeat\",\"ref\":\""@
                        + spec_decimal(old(self).next_ref as nat) + "\",\"payload\":{}}"@
                    &&& final(self).next_ref == old(self).next_ref + 1
                    &&& token_view(final(self).token) == token_view(old(self).token)
                    &&& final(self).connected
                    &&& final(self).failures == old(self).failures
                } else {
                    r is Read && *final(self) == *old(self)
                },
                LinkEvent::Text(text) => match spec_parse(text@) {
                    IncomingV::Rejoin(_) => after_failure(old(self), final(self), &r),
                    IncomingV::Ignore => r is Read && *final(self) == *old(self),
                    parsed => (r matches LinkAction::Emit(i) && incoming_view(i) == parsed) && *final(self)
                        == *old(self),
                },
                LinkEvent::PauseOver => {
                    &&& connects(token_view(old(self).token), &r)
                    &&& *final(self) == *old(self)
                },
            },
    {
        match event {
            LinkEvent::Quit => LinkAction::Stop,
            LinkEvent::Token(t) => {
                if self.connected {
                    match t {
                        Some(fresh) => {
                            let m = access_token_message(fresh.as_str(), self.next_ref);
                            self.next_ref = self.next_ref + 1;
                            self.token = Some(fresh);
                            LinkAction::Send(m)
                        },
                        None => {
                            self.token = None;
                            self.failures = 0;
                            self.connected = false;
                            LinkAction::Close
                        },
                    }
                } else {
                    self.token = t;
                    self.connect()
                }
            },
            LinkEvent::Joined => {
                self.connected = true;
                self.next_ref = 2;
                LinkAction::Read
            },
            LinkEvent::Failed(_) => self.fail(),
            LinkEvent::HeartbeatDue => {
                if self.connected {
                    let m = heartbeat(self.next_ref);
                    self.next_ref = self.next_ref + 1;
                    LinkAction::Send(m)
                } else {
                    LinkAction::Read
                }
            },
            LinkEvent::Text(text) => {
                let parsed = parse(text.as_str());
                match parsed {
                    Incoming::Rejoin(_) => self.fail(),
                    Incoming::Ignore => LinkAction::Read,
                    other => LinkAction::Emit(other),
                }
            },
            LinkEvent::PauseOver => self.connect(),
        }
    }
}

} // verus!
