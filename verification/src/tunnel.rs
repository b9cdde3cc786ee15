//! One tunnel: a client socket, a target socket and the relay between them.
//!
//! A tunnel never touches its sockets. Driving it is a short dialogue: the
//! tunnel names a [`Step`], the caller performs it and reports the outcome to
//! the method the step's documentation names, which answers with the next
//! step, until [`Step::Done`].
use crate::error::ProxyError;
use vstd::prelude::*;

verus! {

/// Clock readings are in nanoseconds.
pub const NANOS_PER_SEC: u64 = 1_000_000_000;

/// A tunnel that has relayed nothing for longer than this is closed: two
/// seconds.
pub const IDLE_LIMIT: u64 = 2 * NANOS_PER_SEC;

/// The most bytes one read may take from a socket.
pub const RELAY_BUFFER: usize = 2000;

/// One end of a tunnel.
#[derive(Clone, Copy, Debug, PartialEq, Eq, Structural)]
pub enum Side {
    Client,
    Target,
}

impl Side {
    /// The other end.
    pub open spec fn peer_spec(self) -> Side {
        match self {
            Side::Client => Side::Target,
            Side::Target => Side::Client,
        }
    }

    /// The other end.
    #[verifier::when_used_as_spec(peer_spec)]
    pub fn peer(self) -> (p: Side)
        ensures
            p == self.peer_spec(),
    {
        match self {
            Side::Client => Side::Target,
            Side::Target => Side::Client,
        }
    }
}

/// The time between the last relayed chunk and `now`. A clock reading older
/// than the last activity counts as no time passed.
pub open spec fn idle_time(last_activity: u64, now: u64) -> nat {
    if now >= last_activity {
        (now - last_activity) as nat
    } else {
        0
    }
}

/// What the caller does next for a tunnel.
#[derive(Clone, Copy, Debug, PartialEq, Eq)]
pub enum Step<'a> {
    /// Make one non-blocking read from this side's socket, taking at most
    /// [`RELAY_BUFFER`] bytes, and report to [`Tunnel::on_read`].
    Read(Side),
    /// Write these bytes to this side's socket with a single write, flush,
    /// read the clock and report to [`Tunnel::on_written`].
    Write(Side, &'a [u8]),
    /// Read the clock and report to [`Tunnel::settle`].
    Settle,
    /// Nothing more to do in this pass.
    Done,
}

/// A [`Step`] with its bytes as a sequence.
pub enum StepView {
    Read(Side),
    Write(Side, Seq<u8>),
    Settle,
    Done,
}

impl<'a> View for Step<'a> {
    type V = StepView;

    open spec fn view(&self) -> StepView {
        match *self {
            Step::Read(side) => StepView::Read(side),
            Step::Write(side, chunk) => StepView::Write(side, chunk@),
            Step::Settle => StepView::Settle,
            Step::Done => StepView::Done,
        }
    }
}

/// What a read delivered, as sequences: `None` when nothing was available or
/// the read failed, an empty sequence when the peer has closed.
pub open spec fn received_bytes(received: Option<&[u8]>) -> Option<Seq<u8>> {
    match received {
        Some(chunk) => Some(chunk@),
        None => None,
    }
}

/// What a write accepted, as a number.
pub open spec fn written_count(written: Option<usize>) -> Option<nat> {
    match written {
        Some(n) => Some(n as nat),
        None => None,
    }
}

/// The step that follows a finished direction: after the client's the
/// target is read, after the target's the tunnel settles.
pub open spec fn after_direction(from: Side) -> StepView {
    match from {
        Side::Client => StepView::Read(Side::Target),
        Side::Target => StepView::Settle,
    }
}

/// The part of a tunnel that decisions depend on.
pub struct TunnelState {
    /// False once the tunnel has closed. It never becomes true again.
    pub alive: bool,
    /// The clock reading when the tunnel last relayed a chunk, or when it was
    /// opened.
    pub last_activity: u64,
}

impl TunnelState {
    /// A tunnel opened at `now`.
    pub open spec fn opened(now: u64) -> TunnelState {
        TunnelState { alive: true, last_activity: now }
    }

    /// The first step of a pass: a live tunnel reads its client, a closed one
    /// is left alone.
    pub open spec fn begin(self) -> StepView {
        if self.alive {
            StepView::Read(Side::Client)
        } else {
            StepView::Done
        }
    }

    /// The tunnel after a read from `from` delivered `received`, and the next
    /// step. An empty delivery means the peer has closed: so does the tunnel,
    /// at once. Bytes go to the other side unchanged. Nothing available ends
    /// this direction.
    pub open spec fn on_read(self, from: Side, received: Option<Seq<u8>>) -> (
        TunnelState,
        StepView,
    ) {
        if !self.alive {
            (self, StepView::Done)
        } else {
            match received {
                None => (self, after_direction(from)),
                Some(chunk) => if chunk.len() == 0 {
                    (TunnelState { alive: false, ..self }, StepView::Done)
                } else {
                    (self, StepView::Write(from.peer_spec(), chunk))
                },
            }
        }
    }

    /// Whether a write of `sent` bytes that accepted `written` fell short. A
    /// failed write counts as one that accepted nothing.
    pub open spec fn fell_short(sent: nat, written: Option<nat>) -> bool {
        match written {
            Some(n) => n != sent,
            None => sent != 0,
        }
    }

    /// The tunnel after a write to `to` that ended at `now`, and the next
    /// step. The write counts as activity however much of it the socket
    /// accepted.
    pub open spec fn on_written(self, to: Side, now: u64) -> (TunnelState, StepView) {
        if !self.alive {
            (self, StepView::Done)
        } else {
            (TunnelState { last_activity: now, ..self }, after_direction(to.peer_spec()))
        }
    }

    /// The tunnel at the end of a pass at `now`: closed if it has been idle
    /// for longer than [`IDLE_LIMIT`].
    pub open spec fn settle(self, now: u64) -> TunnelState {
        TunnelState {
            alive: self.alive && idle_time(self.last_activity, now) <= IDLE_LIMIT,
            ..self
        }
    }
}

/// A client socket and a target socket of type `S`, with the time of the last
/// relayed chunk and whether the tunnel is still open.
#[derive(Debug)]
pub struct Tunnel<S> {
    client: S,
    target: S,
    last_activity: u64,
    alive: bool,
}

impl<S> View for Tunnel<S> {
    type V = TunnelState;

    closed spec fn view(&self) -> TunnelState {
        TunnelState { alive: self.alive, last_activity: self.last_activity }
    }
}

impl<S> Tunnel<S> {
    /// The socket at `side`.
    pub closed spec fn socket_spec(&self, side: Side) -> S {
        match side {
            Side::Client => self.client,
            Side::Target => self.target,
        }
    }

    /// Whether two tunnels hold the same sockets.
    pub open spec fn same_sockets(&self, other: &Tunnel<S>) -> bool {
        &&& self.socket_spec(Side::Client) == other.socket_spec(Side::Client)
        &&& self.socket_spec(Side::Target) == other.socket_spec(Side::Target)
    }

    /// The tunnel between `client` and `target` as it is when opened at
    /// clock reading `now`.
    pub closed spec fn open_between(client: S, target: S, now: u64) -> Tunnel<S> {
        Tunnel { client, target, last_activity: now, alive: true }
    }

    /// A tunnel just opened is open, was last active when it was opened, and
    /// holds the two sockets it was opened with.
    pub proof fn lemma_open_between(client: S, target: S, now: u64)
        ensures
            Self::open_between(client, target, now)@ == TunnelState::opened(now),
            Self::open_between(client, target, now).socket_spec(Side::Client) == client,
            Self::open_between(client, target, now).socket_spec(Side::Target) == target,
    {
    }

    /// A tunnel is its state and its two sockets, nothing more.
    pub proof fn lemma_same_tunnel(&self, other: &Tunnel<S>)
        requires
            self@ == other@,
            self.same_sockets(other),
        ensures
            *self == *other,
    {
    }

    /// Opens a tunnel between `client` and `target` at clock reading `now`.
    pub fn new(client: S, target: S, now: u64) -> (tunnel: Self)
        ensures
            tunnel == Self::open_between(client, target, now),
            tunnel@ == TunnelState::opened(now),
            tunnel.socket_spec(Side::Client) == client,
            tunnel.socket_spec(Side::Target) == target,
    {
        Tunnel { client, target, last_activity: now, alive: true }
    }

    /// Whether the tunnel is still open.
    pub fn is_alive(&self) -> (alive: bool)
        ensures
            alive == self@.alive,
    {
        self.alive
    }

    /// The clock reading of the last relayed chunk.
    pub fn last_activity(&self) -> (at: u64)
        ensures
            at == self@.last_activity,
    {
        self.last_activity
    }

    /// The socket at `side`.
    pub fn socket(&self, side: Side) -> (socket: &S)
        ensures
            *socket == self.socket_spec(side),
    {
        match side {
            Side::Client => &self.client,
            Side::Target => &self.target,
        }
    }

    /// Gives up the tunnel for its sockets: the client's, then the target's.
    pub fn into_sockets(self) -> (sockets: (S, S))
        ensures
            sockets.0 == self.socket_spec(Side::Client),
            sockets.1 == self.socket_spec(Side::Target),
    {
        (self.client, self.target)
    }

    /// The first step of a pass over this tunnel.
    pub fn begin(&self) -> (step: Step<'static>)
        ensures
            step@ == self@.begin(),
    {
        if self.alive {
            Step::Read(Side::Client)
        } else {
            Step::Done
        }
    }

    /// Takes the outcome of the read that [`Step::Read`] asked for: `None`
    /// when nothing was available or the read failed, else the bytes read,
    /// none at all when the peer has closed.
    pub fn on_read<'a>(&mut self, from: Side, received: Option<&'a [u8]>) -> (step: Step<'a>)
        ensures
            (final(self)@, step@) == old(self)@.on_read(from, received_bytes(received)),
            final(self).same_sockets(old(self)),
    {
        if !self.alive {
            return Step::Done;
        }
        match received {
            None => match from {
                Side::Client => Step::Read(Side::Target),
                Side::Target => Step::Settle,
            },
            Some(chunk) => {
                if chunk.len() == 0 {
                    self.alive = false;
                    Step::Done
                } else {
                    Step::Write(from.peer(), chunk)
                }
            },
        }
    }

    /// Takes the outcome of the write that [`Step::Write`] asked for: the
    /// number of bytes handed over, what the socket accepted (`None` when the
    /// write failed) and the clock reading after the flush. A write that fell
    /// short is reported and changes nothing else.
    pub fn on_written(&mut self, to: Side, sent: usize, written: Option<usize>, now: u64) -> (r: (
        Step<'static>,
        Option<ProxyError>,
    ))
        ensures
            (final(self)@, r.0@) == old(self)@.on_written(to, now),
            r.1 == if TunnelState::fell_short(sent as nat, written_count(written)) {
                Some(ProxyError::WriteSizeMismatch)
            } else {
                None
            },
            final(self).same_sockets(old(self)),
    {
        let accepted: usize = match written {
            Some(n) => n,
            None => 0,
        };
        let warning = if accepted != sent {
            Some(ProxyError::WriteSizeMismatch)
        } else {
            None
        };
        if !self.alive {
            return (Step::Done, warning);
        }
        self.last_activity = now;
        let next = match to {
            Side::Client => Step::Settle,
            Side::Target => Step::Read(Side::Target),
        };
        (next, warning)
    }

    /// Ends a pass at clock reading `now`: the tunnel closes if it has been
    /// idle for longer than [`IDLE_LIMIT`].
    pub fn settle(&mut self, now: u64) -> (step: Step<'static>)
        ensures
            final(self)@ == old(self)@.settle(now),
            step@ == StepView::Done,
            final(self).same_sockets(old(self)),
    {
        if self.alive && now >= self.last_activity && now - self.last_activity > IDLE_LIMIT {
            self.alive = false;
        }
        Step::Done
    }
}

} // verus!
