//! The tunnels of one source address, and the pass that drives them.
//!
//! A pass visits every tunnel once, from the last index down to the first.
//! A live tunnel is handed to the caller to be driven, a closed one is taken
//! out of the group and handed over to be dropped. Whoever shares a group
//! between threads locks it for the whole of a pass.
use crate::address::SourceIp;
use crate::error::ProxyError;
use crate::tunnel::Tunnel;
use vstd::prelude::*;

verus! {

/// What a pass meets at one index.
#[derive(Debug)]
pub enum Visit<S> {
    /// The tunnel at this index is open: drive it, then go on with the pass.
    Drive(usize),
    /// This tunnel had closed. It has left the group; dropping it closes its
    /// sockets.
    Reaped(Tunnel<S>),
    /// Every tunnel has been visited.
    Finished,
}

/// A group as contracts see it.
pub struct GroupView<S> {
    /// The address all tunnels of the group were opened from.
    pub ip: SourceIp,
    /// The tunnels, oldest first.
    pub tunnels: Seq<Tunnel<S>>,
    /// How many tunnels the pass in progress has yet to visit: those at the
    /// indices below this number.
    pub unvisited: nat,
}

impl<S> GroupView<S> {
    /// The pass in progress has no more to visit than there are tunnels,
    /// and the tunnels can be counted.
    pub open spec fn wf(self) -> bool {
        self.unvisited <= self.tunnels.len() <= usize::MAX
    }

    /// A group without tunnels for `ip`.
    pub open spec fn empty(ip: SourceIp) -> GroupView<S> {
        GroupView { ip, tunnels: Seq::empty(), unvisited: 0 }
    }

    /// The group with `tunnel` added behind the others. A pass in progress
    /// does not visit it.
    pub open spec fn with_tunnel(self, tunnel: Tunnel<S>) -> GroupView<S> {
        GroupView { tunnels: self.tunnels.push(tunnel), ..self }
    }

    /// The group once the dial for a client has ended, and what is reported.
    /// A target that was reached makes a tunnel, opened at `now`. One that
    /// was not leaves the group as it was.
    pub open spec fn connected(self, client: S, dialed: Option<S>, now: u64) -> (
        GroupView<S>,
        Result<(), ProxyError>,
    ) {
        match dialed {
            Some(target) => (self.with_tunnel(Tunnel::open_between(client, target, now)), Ok(())),
            None => (self, Err(ProxyError::ConnectError)),
        }
    }

    /// The group at the start of a pass: every tunnel is yet to be visited.
    pub open spec fn begin_pass(self) -> GroupView<S> {
        GroupView { unvisited: self.tunnels.len(), ..self }
    }

    /// The next visit of the pass and the group after it. The tunnel
    /// visited is the last unvisited one.
    pub open spec fn visit(self) -> (GroupView<S>, Visit<S>) {
        if self.unvisited == 0 {
            (self, Visit::Finished)
        } else {
            let at = self.unvisited - 1;
            let tunnel = self.tunnels[at];
            if tunnel@.alive {
                (GroupView { unvisited: at as nat, ..self }, Visit::Drive(at as usize))
            } else {
                (
                    GroupView { unvisited: at as nat, tunnels: self.tunnels.remove(at), ..self },
                    Visit::Reaped(tunnel),
                )
            }
        }
    }
}

/// The tunnels of one source address.
#[derive(Debug)]
pub struct ConnectionGroup<S> {
    ip: SourceIp,
    tunnels: Vec<Tunnel<S>>,
    unvisited: usize,
}

impl<S> View for ConnectionGroup<S> {
    type V = GroupView<S>;

    closed spec fn view(&self) -> GroupView<S> {
        GroupView { ip: self.ip, tunnels: self.tunnels@, unvisited: self.unvisited as nat }
    }
}

impl<S> ConnectionGroup<S> {
    /// A group without tunnels for the source address `ip`.
    pub fn new(ip: SourceIp) -> (group: Self)
        ensures
            group@ == GroupView::<S>::empty(ip),
            group@.wf(),
    {
        ConnectionGroup { ip, tunnels: Vec::new(), unvisited: 0 }
    }

    /// The source address of the group.
    pub fn ip(&self) -> (ip: SourceIp)
        ensures
            ip == self@.ip,
    {
        self.ip
    }

    /// The number of tunnels in the group, closed ones that no pass has
    /// reaped yet included.
    pub fn len(&self) -> (n: usize)
        ensures
            n == self@.tunnels.len(),
    {
        self.tunnels.len()
    }

    /// The tunnel at `index`, if there is one.
    pub fn tunnel(&self, index: usize) -> (tunnel: Option<&Tunnel<S>>)
        ensures
            match tunnel {
                Some(t) => index < self@.tunnels.len() && *t == self@.tunnels[index as int],
                None => index >= self@.tunnels.len(),
            },
    {
        if index < self.tunnels.len() {
            Some(&self.tunnels[index])
        } else {
            None
        }
    }

    /// The tunnel at `index`, to be driven, if there is one. Only the tunnel
    /// can change.
    pub fn tunnel_mut(&mut self, index: usize) -> (tunnel: Option<&mut Tunnel<S>>)
        ensures
            match tunnel {
                Some(t) => {
                    &&& index < old(self)@.tunnels.len()
                    &&& *t == old(self)@.tunnels[index as int]
                    &&& final(self)@ == (GroupView {
                        tunnels: old(self)@.tunnels.update(index as int, *final(t)),
                        ..old(self)@
                    })
                },
                None => index >= old(self)@.tunnels.len() && final(self)@ == old(self)@,
            },
    {
        if index < self.tunnels.len() {
            Some(&mut self.tunnels[index])
        } else {
            None
        }
    }

    /// Opens a tunnel between `client` and `target` at clock reading `now`
    /// and adds it behind the others. A pass in progress does not visit it.
    pub fn add_tunnel(&mut self, client: S, target: S, now: u64)
        ensures
            final(self)@ == old(self)@.with_tunnel(Tunnel::open_between(client, target, now)),
            old(self)@.wf() ==> final(self)@.wf(),
    {
        let tunnel = Tunnel::new(client, target, now);
        self.tunnels.push(tunnel);
        assert(self.tunnels@.len() == self.tunnels.len());
    }

    /// Ends the handshake of `client`, whose request was accepted and
    /// answered. `dialed` is the socket to the target, both sockets
    /// already switched to non-blocking, or `None` if the target could not be
    /// reached; then the client's socket is dropped.
    pub fn connected(&mut self, client: S, dialed: Option<S>, now: u64) -> (r: Result<
        (),
        ProxyError,
    >)
        ensures
            (final(self)@, r) == old(self)@.connected(client, dialed, now),
            old(self)@.wf() ==> final(self)@.wf(),
    {
        match dialed {
            Some(target) => {
                self.add_tunnel(client, target, now);
                Ok(())
            },
            None => Err(ProxyError::ConnectError),
        }
    }

    /// Starts a pass: every tunnel now in the group will be visited.
    pub fn begin_pass(&mut self)
        ensures
            final(self)@ == old(self)@.begin_pass(),
            final(self)@.wf(),
    {
        self.unvisited = self.tunnels.len();
    }

    /// Visits the next tunnel of the pass, the last one not yet visited.
    pub fn visit(&mut self) -> (visit: Visit<S>)
        requires
            old(self)@.wf(),
        ensures
            (final(self)@, visit) == old(self)@.visit(),
            final(self)@.wf(),
    {
        if self.unvisited == 0 {
            return Visit::Finished;
        }
        self.unvisited = self.unvisited - 1;
        if self.tunnels[self.unvisited].is_alive() {
            Visit::Drive(self.unvisited)
        } else {
            let tunnel = self.tunnels.remove(self.unvisited);
            Visit::Reaped(tunnel)
        }
    }
}

} // verus!
