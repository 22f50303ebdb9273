//! The handler of one client connection: what it does with each frame and
//! each timer tick, and when it gives the connection up.

use crate::model::{
    can_connect, message_reply, server_connect, server_disconnect, server_message,
};
use crate::server::{CCUSServer, Disconnect};
use vstd::prelude::*;

verus! {

/// Milliseconds between two pings to the client.
pub const HEARTBEAT_INTERVAL: u64 = 5000;

/// Milliseconds without a sign of life after which the client is given up.
pub const CLIENT_TIMEOUT: u64 = 60000;

/// Milliseconds between two polls on behalf of the client.
pub const BL_INTERVAL: u64 = 1000;

/// The life of a session.
#[derive(Clone, Copy, Debug, PartialEq, Eq, Structural)]
pub enum Phase {
    /// The connection stands, the session is not open yet.
    Connecting,
    /// The session is open.
    Active,
    /// The session is closed for good.
    Closed,
}

/// A frame from the client.
pub enum Frame {
    Ping(Vec<u8>),
    Pong(Vec<u8>),
    Text(Vec<u8>),
    Binary(Vec<u8>),
    Close,
    Nop,
}

/// What the handler wants done on the connection.
pub enum Output {
    /// Answer a ping with its payload.
    Pong(Vec<u8>),
    /// Send a text frame.
    Text(Vec<u8>),
    /// Send a binary frame.
    Binary(Vec<u8>),
    /// Send a ping.
    Ping,
    /// Close the connection.
    Stop,
    /// Nothing.
    Nothing,
}

/// What the handler wants done, as mathematics.
pub enum OutputView {
    Pong(Seq<u8>),
    Text(Seq<u8>),
    Binary(Seq<u8>),
    Ping,
    Stop,
    Nothing,
}

impl View for Output {
    type V = OutputView;

    open spec fn view(&self) -> OutputView {
        match self {
            Output::Pong(p) => OutputView::Pong(p@),
            Output::Text(t) => OutputView::Text(t@),
            Output::Binary(b) => OutputView::Binary(b@),
            Output::Ping => OutputView::Ping,
            Output::Stop => OutputView::Stop,
            Output::Nothing => OutputView::Nothing,
        }
    }
}

/// The poll command, `?`.
pub open spec fn poll_message() -> Seq<u8> {
    seq![63u8]
}

/// What to send for a reply of the broker: the reply as text, or nothing
/// when it is empty.
pub open spec fn text_or_nothing(reply: Seq<u8>) -> OutputView {
    if reply.len() > 0 {
        OutputView::Text(reply)
    } else {
        OutputView::Nothing
    }
}

/// True when the client has given no sign of life for longer than the
/// timeout.
pub open spec fn timed_out(last_seen: u64, now: u64) -> bool {
    now > last_seen && now - last_seen > CLIENT_TIMEOUT
}

/// The handler of one client connection.
pub struct MyWebSocket {
    hb: u64,
    id: usize,
    phase: Phase,
}

impl MyWebSocket {
    /// The time of the client's last sign of life, in milliseconds.
    pub closed spec fn last_seen(&self) -> u64 {
        self.hb
    }

    /// The session's identifier; 0 before the session is open.
    pub closed spec fn session(&self) -> usize {
        self.id
    }

    /// The phase of the session's life.
    pub closed spec fn phase(&self) -> Phase {
        self.phase
    }

    /// A handler for a connection that was accepted at `now`.
    pub fn new(now: u64) -> (h: Self)
        ensures
            h.phase() == Phase::Connecting,
            h.session() == 0,
            h.last_seen() == now,
    {
        MyWebSocket { hb: now, id: 0, phase: Phase::Connecting }
    }

    /// The session's identifier; 0 before the session is open.
    pub fn id(&self) -> (id: usize)
        ensures
            id == self.session(),
    {
        self.id
    }

    /// True while the session is open.
    pub fn is_active(&self) -> (b: bool)
        ensures
            b == (self.phase() == Phase::Active),
    {
        match self.phase {
            Phase::Active => true,
            _ => false,
        }
    }

    /// Starts the session: the broker opens it and the handler takes its
    /// identifier. Where the broker has no identifier left, the connection
    /// is closed.
    pub fn started(&mut self, server: &mut CCUSServer) -> (out: Output)
        requires
            old(server).wf(),
        ensures
            final(server).wf(),
            final(server).reported() == old(server).reported(),
            final(self).last_seen() == old(self).last_seen(),
            old(self).phase() != Phase::Connecting ==> ({
                &&& *final(self) == *old(self)
                &&& final(server)@ == old(server)@
                &&& out@ == OutputView::Nothing
            }),
            old(self).phase() == Phase::Connecting ==> ({
                &&& final(server)@ == server_connect(old(server)@)
                &&& can_connect(old(server)@) ==> ({
                    &&& final(self).phase() == Phase::Active
                    &&& final(self).session() == old(server)@.next_id
                    &&& out@ == OutputView::Nothing
                })
                &&& !can_connect(old(server)@) ==> ({
                    &&& final(self).phase() == Phase::Closed
                    &&& final(self).session() == old(self).session()
                    &&& out@ == OutputView::Stop
                })
            }),
    {
        match self.phase {
            Phase::Connecting => {
                match server.connect() {
                    Some(id) => {
                        self.id = id;
                        self.phase = Phase::Active;
                        Output::Nothing
                    },
                    None => {
                        self.phase = Phase::Closed;
                        Output::Stop
                    },
                }
            },
            _ => Output::Nothing,
        }
    }

    /// Sends a command to the broker on behalf of the session and returns
    /// the reply.
    pub fn snd_rcv_subsrc(&self, server: &mut CCUSServer, cmd: &[u8]) -> (reply: Vec<u8>)
        requires
            old(server).wf(),
        ensures
            final(server).wf(),
            final(server).reported() == old(server).reported(),
            final(server)@ == server_message(old(server)@, self.session(), cmd@),
            reply@ == message_reply(old(server)@, self.session(), cmd@),
    {
        server.prepare_command(cmd, self.id)
    }

    /// Handles a frame from the client. A ping is answered and, like a
    /// pong, counts as a sign of life; a text frame goes to the broker and
    /// its reply, unless empty, back to the client; a binary frame is
    /// echoed; a close frame closes the session. Before the session is open
    /// and after it is closed, frames are ignored.
    pub fn handle(&mut self, server: &mut CCUSServer, msg: Frame, now: u64) -> (out: Output)
        requires
            old(server).wf(),
        ensures
            final(server).wf(),
            final(server).reported() == old(server).reported(),
            final(self).session() == old(self).session(),
            old(self).phase() != Phase::Active ==> ({
                &&& *final(self) == *old(self)
                &&& final(server)@ == old(server)@
                &&& out@ == OutputView::Nothing
            }),
            old(self).phase() == Phase::Active ==> (match msg {
                Frame::Ping(payload) => ({
                    &&& final(self).phase() == Phase::Active
                    &&& final(self).last_seen() == now
                    &&& final(server)@ == old(server)@
                    &&& out@ == OutputView::Pong(payload@)
                }),
                Frame::Pong(_) => ({
                    &&& final(self).phase() == Phase::Active
                    &&& final(self).last_seen() == now
                    &&& final(server)@ == old(server)@
                    &&& out@ == OutputView::Nothing
                }),
                Frame::Text(text) => ({
                    &&& *final(self) == *old(self)
                    &&& final(server)@ == server_message(old(server)@, old(self).session(), text@)
                    &&& out@ == text_or_nothing(
                        message_reply(old(server)@, old(self).session(), text@),
                    )
                }),
                Frame::Binary(data) => ({
                    &&& *final(self) == *old(self)
                    &&& final(server)@ == old(server)@
                    &&& out@ == OutputView::Binary(data@)
                }),
                Frame::Close => ({
                    &&& final(self).phase() == Phase::Closed
                    &&& final(self).last_seen() == old(self).last_seen()
                    &&& final(server)@ == server_disconnect(old(server)@, old(self).session())
                    &&& out@ == OutputView::Stop
                }),
                Frame::Nop => ({
                    &&& *final(self) == *old(self)
                    &&& final(server)@ == old(server)@
                    &&& out@ == OutputView::Nothing
                }),
            }),
    {
        match self.phase {
            Phase::Active => {},
            _ => {
                return Output::Nothing;
            },
        }
        match msg {
            Frame::Ping(payload) => {
                self.hb = now;
                Output::Pong(payload)
            },
            Frame::Pong(_) => {
                self.hb = now;
                Output::Nothing
            },
            Frame::Text(text) => {
                let reply = server.prepare_command(text.as_slice(), self.id);
                if reply.len() > 0 {
                    Output::Text(reply)
                } else {
                    Output::Nothing
                }
            },
            Frame::Binary(data) => Output::Binary(data),
            Frame::Close => {
                server.disconnect(Disconnect { id: self.id });
                self.phase = Phase::Closed;
                Output::Stop
            },
            Frame::Nop => Output::Nothing,
        }
    }

    /// The heartbeat tick: a client that has given no sign of life for
    /// longer than the timeout is given up and its session closed; any other
    /// is sent a ping.
    pub fn hb(&mut self, server: &mut CCUSServer, now: u64) -> (out: Output)
        requires
            old(server).wf(),
        ensures
            final(server).wf(),
            final(server).reported() == old(server).reported(),
            final(self).session() == old(self).session(),
            final(self).last_seen() == old(self).last_seen(),
            old(self).phase() != Phase::Active ==> *final(self) == *old(self) && final(server)@
                == old(server)@ && out@ == OutputView::Nothing,
            old(self).phase() == Phase::Active ==> (if timed_out(old(self).last_seen(), now) {
                final(self).phase() == Phase::Closed && final(server)@ == server_disconnect(
                    old(server)@,
                    old(self).session(),
                ) && out@ == OutputView::Stop
            } else {
                final(self).phase() == Phase::Active && final(server)@ == old(server)@ && out@
                    == OutputView::Ping
            }),
    {
        match self.phase {
            Phase::Active => {},
            _ => {
                return Output::Nothing;
            },
        }
        if now > self.hb && now - self.hb > CLIENT_TIMEOUT {
            server.disconnect(Disconnect { id: self.id });
            self.phase = Phase::Closed;
            Output::Stop
        } else {
            Output::Ping
        }
    }

    /// The poll tick: asks the broker what changed and passes a reply that
    /// is not empty on to the client.
    pub fn bl(&self, server: &mut CCUSServer) -> (out: Output)
        requires
            old(server).wf(),
        ensures
            final(server).wf(),
            final(server).reported() == old(server).reported(),
            self.phase() != Phase::Active ==> final(server)@ == old(server)@ && out@
                == OutputView::Nothing,
            self.phase() == Phase::Active ==> final(server)@ == server_message(
                old(server)@,
                self.session(),
                poll_message(),
            ) && out@ == text_or_nothing(
                message_reply(old(server)@, self.session(), poll_message()),
            ),
    {
        match self.phase {
            Phase::Active => {},
            _ => {
                return Output::Nothing;
            },
        }
        let mut cmd: Vec<u8> = Vec::new();
        cmd.push(63);
        assert(cmd@ =~= poll_message());
        let reply = server.prepare_command(cmd.as_slice(), self.id);
        if reply.len() > 0 {
            Output::Text(reply)
        } else {
            Output::Nothing
        }
    }

    /// The connection has ended: an open session is closed.
    pub fn finished(&mut self, server: &mut CCUSServer)
        requires
            old(server).wf(),
        ensures
            final(server).wf(),
            final(server).reported() == old(server).reported(),
            final(self).session() == old(self).session(),
            final(self).last_seen() == old(self).last_seen(),
            final(self).phase() == Phase::Closed,
            final(server)@ == (if old(self).phase() == Phase::Active {
                server_disconnect(old(server)@, old(self).session())
            } else {
                old(server)@
            }),
    {
        match self.phase {
            Phase::Active => {
                server.disconnect(Disconnect { id: self.id });
            },
            _ => {},
        }
        self.phase = Phase::Closed;
    }
}

} // verus!
