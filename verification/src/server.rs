//! Admission and the registry of groups.
//!
//! The server decides, for each connection the listener hands over, whether
//! its source is admitted and which group takes it. A source seen for the
//! first time gets a new group, and with it a worker of its own. Groups are
//! never given up.
use crate::address::SourceIp;
use crate::error::ProxyError;
use vstd::prelude::*;

verus! {

/// The number of workers of a server that was not told otherwise.
pub const DEFAULT_WORKERS: usize = 20;

/// Where an admitted connection goes.
#[derive(Clone, Copy, Debug, PartialEq, Eq, Structural)]
pub struct Dispatch {
    /// The index of the group of the connection's source. Groups are
    /// numbered in the order they were created.
    pub group: usize,
    /// Whether the group was created for this connection. If so, a worker
    /// has to be started for it before the connection is handed over.
    pub created: bool,
}

/// A [`Dispatch`] with its index as a mathematical integer.
pub struct Routing {
    pub group: int,
    pub created: bool,
}

impl View for Dispatch {
    type V = Routing;

    open spec fn view(&self) -> Routing {
        Routing { group: self.group as int, created: self.created }
    }
}

/// A server as contracts see it.
pub struct ServerView {
    /// The sources that are admitted. None listed means that all are.
    pub allowed: Seq<SourceIp>,
    /// The source of each group, in the order the groups were created.
    pub registry: Seq<SourceIp>,
    /// The number of workers that run at the same time.
    pub workers: nat,
}

impl ServerView {
    /// No source has two groups, and there is a worker.
    pub open spec fn wf(self) -> bool {
        self.registry.no_duplicates() && self.workers >= 1
    }

    /// A server with `workers` workers that admits everyone and has no group.
    pub open spec fn fresh(workers: nat) -> ServerView {
        ServerView { allowed: Seq::empty(), registry: Seq::empty(), workers }
    }

    /// The server with `ip` added to its allow-list.
    pub open spec fn allow(self, ip: SourceIp) -> ServerView {
        ServerView { allowed: self.allowed.push(ip), ..self }
    }

    /// Whether a connection from `ip` is admitted: the allow-list is empty or
    /// holds `ip`.
    pub open spec fn admits(self, ip: SourceIp) -> bool {
        self.allowed.len() == 0 || self.allowed.contains(ip)
    }

    /// The index of the group of `ip`, if it has one.
    pub open spec fn group_of(self, ip: SourceIp) -> Option<int> {
        if self.registry.contains(ip) {
            Some(self.registry.index_of(ip))
        } else {
            None
        }
    }

    /// Whether the group at index `group` is that of `ip`.
    pub open spec fn is_group_of(self, ip: SourceIp, group: int) -> bool {
        0 <= group < self.registry.len() && self.registry[group] == ip
    }

    /// The server with a group for `ip`: a new one behind the others if it
    /// had none.
    pub open spec fn register(self, ip: SourceIp) -> ServerView {
        if self.registry.contains(ip) {
            self
        } else {
            ServerView { registry: self.registry.push(ip), ..self }
        }
    }

    /// The server after the listener reported `arrival`, the source of a new
    /// connection or `None` for a failure, and what becomes of the
    /// connection.
    pub open spec fn on_accept(self, arrival: Option<SourceIp>) -> (
        ServerView,
        Result<Routing, ProxyError>,
    ) {
        match arrival {
            None => (self, Err(ProxyError::AcceptError)),
            Some(ip) => if !self.admits(ip) {
                (self, Err(ProxyError::AdmissionDenied))
            } else {
                let after = self.register(ip);
                (
                    after,
                    Ok(
                        Routing {
                            group: after.registry.index_of(ip),
                            created: !self.registry.contains(ip),
                        },
                    ),
                )
            },
        }
    }
}

/// In a registry without duplicates, an index that holds `ip` is the one
/// `index_of` names.
pub proof fn lemma_index_of_unique(registry: Seq<SourceIp>, ip: SourceIp, at: int)
    requires
        registry.no_duplicates(),
        0 <= at < registry.len(),
        registry[at] == ip,
    ensures
        registry.contains(ip),
        registry.index_of(ip) == at,
{
    let found = registry.index_of(ip);
    assert(0 <= found < registry.len() && registry[found] == ip);
}

/// Admission and the registry of groups by source address.
#[derive(Debug)]
pub struct ProxyServer {
    allowed: Vec<SourceIp>,
    registry: Vec<SourceIp>,
    workers: usize,
}

impl View for ProxyServer {
    type V = ServerView;

    closed spec fn view(&self) -> ServerView {
        ServerView {
            allowed: self.allowed@,
            registry: self.registry@,
            workers: self.workers as nat,
        }
    }
}

/// The first index at which `ips` holds `ip`, if it holds it.
fn position(ips: &Vec<SourceIp>, ip: SourceIp) -> (found: Option<usize>)
    ensures
        match found {
            Some(at) => at < ips@.len() && ips@[at as int] == ip && forall|i: int|
                0 <= i < at ==> ips@[i] != ip,
            None => !ips@.contains(ip),
        },
{
    let mut at: usize = 0;
    while at < ips.len()
        invariant
            at <= ips@.len(),
            forall|i: int| 0 <= i < at ==> ips@[i] != ip,
        decreases ips@.len() - at,
    {
        if ips[at] == ip {
            return Some(at);
        }
        at += 1;
    }
    None
}

impl ProxyServer {
    /// A server with [`DEFAULT_WORKERS`] workers that admits everyone and has
    /// no group.
    pub fn new() -> (server: Self)
        ensures
            server@ == ServerView::fresh(DEFAULT_WORKERS as nat),
            server@.wf(),
    {
        ProxyServer { allowed: Vec::new(), registry: Vec::new(), workers: DEFAULT_WORKERS }
    }

    /// A server with `workers` workers, or `None` for a server without a
    /// worker.
    pub fn with_workers(workers: usize) -> (server: Option<Self>)
        ensures
            match server {
                Some(s) => workers >= 1 && s@ == ServerView::fresh(workers as nat) && s@.wf(),
                None => workers == 0,
            },
    {
        if workers == 0 {
            None
        } else {
            Some(ProxyServer { allowed: Vec::new(), registry: Vec::new(), workers })
        }
    }

    /// The number of workers.
    pub fn workers(&self) -> (workers: usize)
        ensures
            workers == self@.workers,
    {
        self.workers
    }

    /// The number of groups.
    pub fn groups(&self) -> (groups: usize)
        ensures
            groups == self@.registry.len(),
    {
        self.registry.len()
    }

    /// Puts `ip` on the allow-list. From the first address on it, only listed
    /// addresses are admitted.
    pub fn allow(&mut self, ip: SourceIp)
        ensures
            final(self)@ == old(self)@.allow(ip),
            old(self)@.wf() ==> final(self)@.wf(),
    {
        self.allowed.push(ip);
    }

    /// Whether a connection from `ip` is admitted.
    pub fn admits_source(&self, ip: SourceIp) -> (admitted: bool)
        ensures
            admitted == self@.admits(ip),
    {
        self.allowed.len() == 0 || position(&self.allowed, ip).is_some()
    }

    /// The index of the group of `ip`, if it has one.
    pub fn group_of(&self, ip: SourceIp) -> (group: Option<usize>)
        requires
            self@.wf(),
        ensures
            match group {
                Some(at) => self@.group_of(ip) == Some(at as int) && self@.is_group_of(
                    ip,
                    at as int,
                ),
                None => self@.group_of(ip) is None,
            },
    {
        let found = position(&self.registry, ip);
        proof {
            if let Some(at) = found {
                lemma_index_of_unique(self.registry@, ip, at as int);
            }
        }
        found
    }

    /// Makes sure `ip` has a group, creating one behind the others if it has
    /// none, and says which group it is and whether it is new. Admission is
    /// not looked at.
    pub fn register_connection(&mut self, ip: SourceIp) -> (dispatch: Dispatch)
        requires
            old(self)@.wf(),
        ensures
            final(self)@ == old(self)@.register(ip),
            final(self)@.group_of(ip) == Some(dispatch.group as int),
            final(self)@.is_group_of(ip, dispatch.group as int),
            dispatch.created == !old(self)@.registry.contains(ip),
            final(self)@.wf(),
    {
        match position(&self.registry, ip) {
            Some(group) => {
                proof {
                    lemma_index_of_unique(self.registry@, ip, group as int);
                }
                Dispatch { group, created: false }
            },
            None => {
                let group = self.registry.len();
                self.registry.push(ip);
                proof {
                    lemma_index_of_unique(self.registry@, ip, group as int);
                }
                Dispatch { group, created: true }
            },
        }
    }

    /// Takes what the listener reported: the source of a new connection, or
    /// `None` if accepting failed. An admitted connection is dispatched to
    /// the group of its source, which is created if need be. A failure is
    /// reported and changes nothing; so is a source that is not admitted,
    /// whose connection is to be dropped without a word.
    pub fn on_accept(&mut self, arrival: Option<SourceIp>) -> (r: Result<Dispatch, ProxyError>)
        requires
            old(self)@.wf(),
        ensures
            final(self)@ == old(self)@.on_accept(arrival).0,
            match r {
                Ok(dispatch) => {
                    &&& old(self)@.on_accept(arrival).1 == Ok::<Routing, ProxyError>(dispatch@)
                    &&& arrival matches Some(ip)
                    &&& final(self)@.is_group_of(ip, dispatch.group as int)
                },
                Err(e) => old(self)@.on_accept(arrival).1 == Err::<Routing, ProxyError>(e),
            },
            final(self)@.wf(),
    {
        match arrival {
            None => Err(ProxyError::AcceptError),
            Some(ip) => {
                if self.admits_source(ip) {
                    Ok(self.register_connection(ip))
                } else {
                    Err(ProxyError::AdmissionDenied)
                }
            },
        }
    }
}

} // verus!
