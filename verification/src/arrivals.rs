//! A run of arrivals at the listener, and what holds of every such run.
//!
//! [`serve`] is [`ServerView::on_accept`] applied to one arrival after
//! another. The allow-list stays as it is during a run.
use crate::address::SourceIp;
use crate::error::ProxyError;
use crate::server::{lemma_index_of_unique, Routing, ServerView};
use vstd::prelude::*;

verus! {

/// The server after all of `arrivals`, first to last.
pub open spec fn serve(server: ServerView, arrivals: Seq<Option<SourceIp>>) -> ServerView
    decreases arrivals.len(),
{
    if arrivals.len() == 0 {
        server
    } else {
        serve(server, arrivals.drop_last()).on_accept(arrivals.last()).0
    }
}

/// What becomes of the arrival at index `at`.
pub open spec fn outcome(server: ServerView, arrivals: Seq<Option<SourceIp>>, at: int) -> Result<
    Routing,
    ProxyError,
> {
    serve(server, arrivals.take(at)).on_accept(arrivals[at]).1
}

/// The number of arrivals for which a group was created, and so a worker
/// started.
pub open spec fn workers_started(server: ServerView, arrivals: Seq<Option<SourceIp>>) -> nat
    decreases arrivals.len(),
{
    if arrivals.len() == 0 {
        0
    } else {
        let before = workers_started(server, arrivals.drop_last());
        match outcome(server, arrivals, arrivals.len() - 1) {
            Ok(routing) => if routing.created {
                before + 1
            } else {
                before
            },
            Err(_) => before,
        }
    }
}

/// One arrival leaves the server well-formed, its allow-list and workers
/// untouched and its groups where they were; a dispatch names the group
/// of the source, and a group is new exactly when the registry grew.
pub proof fn lemma_on_accept(server: ServerView, arrival: Option<SourceIp>)
    requires
        server.wf(),
    ensures
        server.on_accept(arrival).0.wf(),
        server.on_accept(arrival).0.allowed == server.allowed,
        server.on_accept(arrival).0.workers == server.workers,
        server.registry.is_prefix_of(server.on_accept(arrival).0.registry),
        match server.on_accept(arrival).1 {
            Ok(routing) => {
                &&& arrival matches Some(ip)
                &&& server.admits(ip)
                &&& 0 <= routing.group < server.on_accept(arrival).0.registry.len()
                &&& server.on_accept(arrival).0.registry[routing.group] == ip
                &&& server.on_accept(arrival).0.registry.len() == server.registry.len() + (
                if routing.created {
                    1int
                } else {
                    0int
                })
            },
            Err(e) => {
                &&& server.on_accept(arrival).0 == server
                &&& e == (if arrival is None {
                    ProxyError::AcceptError
                } else {
                    ProxyError::AdmissionDenied
                })
                &&& arrival is Some ==> !server.admits(arrival->0)
            },
        },
{
    match arrival {
        None => {},
        Some(ip) => {
            if server.admits(ip) {
                let after = server.register(ip);
                if !server.registry.contains(ip) {
                    assert(after.registry[server.registry.len() as int] == ip);
                    assert(after.registry.contains(ip));
                    assert forall|i: int, j: int|
                        0 <= i < after.registry.len() && 0 <= j < after.registry.len() && i
                            != j implies after.registry[i] != after.registry[j] by {
                        if i < server.registry.len() {
                            assert(server.registry.contains(after.registry[i]));
                        }
                        if j < server.registry.len() {
                            assert(server.registry.contains(after.registry[j]));
                        }
                    }
                }
            }
        },
    }
}

/// A run leaves the server well-formed, its allow-list and workers
/// untouched, and every group where it was.
pub proof fn lemma_serve(server: ServerView, arrivals: Seq<Option<SourceIp>>)
    requires
        server.wf(),
    ensures
        serve(server, arrivals).wf(),
        serve(server, arrivals).allowed == server.allowed,
        serve(server, arrivals).workers == server.workers,
        server.registry.is_prefix_of(serve(server, arrivals).registry),
    decreases arrivals.len(),
{
    if arrivals.len() > 0 {
        lemma_serve(server, arrivals.drop_last());
        lemma_on_accept(serve(server, arrivals.drop_last()), arrivals.last());
    }
}

/// The groups a run has after some of its arrivals are still there, at the
/// same indices, after all of them.
pub proof fn lemma_groups_are_kept(server: ServerView, arrivals: Seq<Option<SourceIp>>, upto: int)
    requires
        server.wf(),
        0 <= upto <= arrivals.len(),
    ensures
        serve(server, arrivals.take(upto)).registry.is_prefix_of(serve(server, arrivals).registry),
    decreases arrivals.len(),
{
    if upto == arrivals.len() {
        assert(arrivals.take(upto) =~= arrivals);
    } else {
        let earlier = arrivals.drop_last();
        lemma_groups_are_kept(server, earlier, upto);
        assert(earlier.take(upto) =~= arrivals.take(upto));
        lemma_serve(server, earlier);
        lemma_on_accept(serve(server, earlier), arrivals.last());
    }
}

/// A source that is not admitted never gets a group, and none of its
/// connections is dispatched: whatever arrives, it has a group after a run
/// only if it had one before, and each of its arrivals is denied.
pub proof fn lemma_denied_source_gets_nothing(
    server: ServerView,
    arrivals: Seq<Option<SourceIp>>,
    ip: SourceIp,
)
    requires
        server.wf(),
        !server.admits(ip),
    ensures
        serve(server, arrivals).registry.contains(ip) <==> server.registry.contains(ip),
        serve(server, arrivals).group_of(ip) == server.group_of(ip),
        forall|at: int|
            0 <= at < arrivals.len() && arrivals[at] == Some(ip) ==> #[trigger] outcome(
                server,
                arrivals,
                at,
            ) == Err::<Routing, ProxyError>(ProxyError::AdmissionDenied),
    decreases arrivals.len(),
{
    assert forall|at: int| 0 <= at < arrivals.len() && arrivals[at] == Some(ip) implies #[trigger] outcome(
        server,
        arrivals,
        at,
    ) == Err::<Routing, ProxyError>(ProxyError::AdmissionDenied) by {
        lemma_serve(server, arrivals.take(at));
    }
    if arrivals.len() > 0 {
        let earlier = arrivals.drop_last();
        lemma_denied_source_gets_nothing(server, earlier, ip);
        lemma_serve(server, earlier);
        let before = serve(server, earlier);
        let after = serve(server, arrivals);
        lemma_on_accept(before, arrivals.last());
        if after.registry.len() > before.registry.len() {
            let other = arrivals.last()->0;
            assert(after.registry =~= before.registry.push(other));
            assert(other != ip);
            if after.registry.contains(ip) {
                let at = choose|at: int| 0 <= at < after.registry.len() && after.registry[at] == ip;
                assert(before.registry[at] == ip);
            }
            if before.registry.contains(ip) {
                let at = choose|at: int|
                    0 <= at < before.registry.len() && before.registry[at] == ip;
                assert(after.registry[at] == ip);
            }
        } else {
            assert(after.registry =~= before.registry);
        }
        if after.registry.contains(ip) {
            let kept = server.registry.index_of(ip);
            lemma_serve(server, arrivals);
            assert(after.registry[kept] == ip);
            lemma_index_of_unique(after.registry, ip, kept);
        }
    }
}

/// Two sources never share a group, and one source never has two. Of two
/// arrivals of one run that were both dispatched, the groups are the same
/// exactly when the sources are.
pub proof fn lemma_sources_never_share(
    server: ServerView,
    arrivals: Seq<Option<SourceIp>>,
    first: int,
    second: int,
)
    requires
        server.wf(),
        0 <= first < arrivals.len(),
        0 <= second < arrivals.len(),
        outcome(server, arrivals, first) is Ok,
        outcome(server, arrivals, second) is Ok,
    ensures
        outcome(server, arrivals, first)->Ok_0.group == outcome(
            server,
            arrivals,
            second,
        )->Ok_0.group <==> arrivals[first] == arrivals[second],
{
    let last = serve(server, arrivals).registry;
    lemma_serve(server, arrivals);
    lemma_dispatch_names_group(server, arrivals, first);
    lemma_dispatch_names_group(server, arrivals, second);
}

/// The group that a dispatch names is, from then on, the group of the
/// source.
pub proof fn lemma_dispatch_names_group(
    server: ServerView,
    arrivals: Seq<Option<SourceIp>>,
    at: int,
)
    requires
        server.wf(),
        0 <= at < arrivals.len(),
        outcome(server, arrivals, at) is Ok,
    ensures
        arrivals[at] is Some,
        serve(server, arrivals).group_of(arrivals[at]->0) == Some(
            outcome(server, arrivals, at)->Ok_0.group,
        ),
        0 <= outcome(server, arrivals, at)->Ok_0.group < serve(server, arrivals).registry.len(),
        serve(server, arrivals).registry[outcome(server, arrivals, at)->Ok_0.group]
            == arrivals[at]->0,
{
    let before = serve(server, arrivals.take(at));
    lemma_serve(server, arrivals.take(at));
    lemma_on_accept(before, arrivals[at]);
    assert(arrivals.take(at + 1).drop_last() =~= arrivals.take(at));
    assert(arrivals.take(at + 1).last() == arrivals[at]);
    assert(serve(server, arrivals.take(at + 1)) == before.on_accept(arrivals[at]).0);
    lemma_groups_are_kept(server, arrivals, at + 1);
    lemma_serve(server, arrivals);
    let group = outcome(server, arrivals, at)->Ok_0.group;
    let last = serve(server, arrivals).registry;
    assert(last[group] == before.on_accept(arrivals[at]).0.registry[group]);
    lemma_index_of_unique(last, arrivals[at]->0, group);
}

/// Each group has one worker: over a run, as many workers are started as
/// groups are created.
pub proof fn lemma_one_worker_per_group(server: ServerView, arrivals: Seq<Option<SourceIp>>)
    requires
        server.wf(),
    ensures
        serve(server, arrivals).registry.len() == server.registry.len() + workers_started(
            server,
            arrivals,
        ),
    decreases arrivals.len(),
{
    if arrivals.len() > 0 {
        let earlier = arrivals.drop_last();
        lemma_one_worker_per_group(server, earlier);
        lemma_serve(server, earlier);
        lemma_on_accept(serve(server, earlier), arrivals.last());
        assert(arrivals.take(arrivals.len() - 1) =~= earlier);
        assert(workers_started(server, earlier) == workers_started(server, arrivals.drop_last()));
    }
}

} // verus!
