//! A whole pass over a group, and what holds of every such pass.
//!
//! [`pass`] follows the visits of a group from
//! [`GroupView::begin_pass`] to [`Visit::Finished`]. Between two visits the
//! caller drives the tunnel that the visit named; `driven` says how each
//! tunnel comes out of that.
use crate::drive::{drive, lemma_quiet_pass, Traffic};
use crate::group::{GroupView, Visit};
use crate::tunnel::{idle_time, Tunnel, IDLE_LIMIT};
use vstd::prelude::*;

verus! {

/// The open tunnels among `tunnels`, each as driving leaves it, in the order
/// they had. The closed ones are missing.
pub open spec fn survivors<S>(
    tunnels: Seq<Tunnel<S>>,
    driven: spec_fn(Tunnel<S>) -> Tunnel<S>,
) -> Seq<Tunnel<S>>
    decreases tunnels.len(),
{
    if tunnels.len() == 0 {
        Seq::empty()
    } else {
        let earlier = survivors(tunnels.drop_last(), driven);
        if tunnels.last()@.alive {
            earlier.push(driven(tunnels.last()))
        } else {
            earlier
        }
    }
}

/// The group with the tunnel at `at` replaced by what driving made of it.
pub open spec fn after_drive<S>(
    group: GroupView<S>,
    at: int,
    driven: spec_fn(Tunnel<S>) -> Tunnel<S>,
) -> GroupView<S> {
    GroupView { tunnels: group.tunnels.update(at, driven(group.tunnels[at])), ..group }
}

/// The group after the rest of the pass in progress.
pub open spec fn finish_pass<S>(
    group: GroupView<S>,
    driven: spec_fn(Tunnel<S>) -> Tunnel<S>,
) -> GroupView<S>
    decreases group.unvisited,
{
    if group.unvisited == 0 {
        group
    } else {
        let (next, visit) = group.visit();
        match visit {
            Visit::Drive(at) => finish_pass(after_drive(next, at as int, driven), driven),
            Visit::Reaped(_) => finish_pass(next, driven),
            Visit::Finished => next,
        }
    }
}

/// The group after one whole pass.
pub open spec fn pass<S>(
    group: GroupView<S>,
    driven: spec_fn(Tunnel<S>) -> Tunnel<S>,
) -> GroupView<S> {
    finish_pass(group.begin_pass(), driven)
}

/// The survivors of two runs of tunnels, one behind the other, are the
/// survivors of the first followed by those of the second.
pub proof fn lemma_survivors_add<S>(
    front: Seq<Tunnel<S>>,
    back: Seq<Tunnel<S>>,
    driven: spec_fn(Tunnel<S>) -> Tunnel<S>,
)
    ensures
        survivors(front + back, driven) == survivors(front, driven) + survivors(back, driven),
    decreases back.len(),
{
    if back.len() == 0 {
        assert(front + back =~= front);
        assert(survivors(front, driven) + survivors(back, driven) =~= survivors(front, driven));
    } else {
        let all = front + back;
        assert(all.drop_last() =~= front + back.drop_last());
        assert(all.last() == back.last());
        lemma_survivors_add(front, back.drop_last(), driven);
        let joined = survivors(front, driven) + survivors(back.drop_last(), driven);
        if back.last()@.alive {
            assert(joined.push(driven(back.last())) =~= survivors(front, driven) + survivors(
                back.drop_last(),
                driven,
            ).push(driven(back.last())));
        }
    }
}

/// What the rest of a pass leaves: of the tunnels not yet visited the
/// survivors, and behind them the tunnels already visited as they are.
pub proof fn lemma_finish_pass<S>(group: GroupView<S>, driven: spec_fn(Tunnel<S>) -> Tunnel<S>)
    requires
        group.wf(),
    ensures
        finish_pass(group, driven).tunnels == survivors(
            group.tunnels.take(group.unvisited as int),
            driven,
        ) + group.tunnels.skip(group.unvisited as int),
        finish_pass(group, driven).unvisited == 0,
        finish_pass(group, driven).ip == group.ip,
    decreases group.unvisited,
{
    let n = group.unvisited as int;
    if n == 0 {
        assert(group.tunnels.take(0) =~= Seq::empty());
        assert(Seq::<Tunnel<S>>::empty() + group.tunnels.skip(0) =~= group.tunnels);
    } else {
        let at = n - 1;
        let tunnel = group.tunnels[at];
        let head = group.tunnels.take(n);
        assert(head.drop_last() =~= group.tunnels.take(at));
        assert(head.last() == tunnel);
        let (next, visit) = group.visit();
        if tunnel@.alive {
            let then = after_drive(next, at, driven);
            lemma_finish_pass(then, driven);
            assert(then.tunnels.take(at) =~= group.tunnels.take(at));
            assert(then.tunnels.skip(at) =~= seq![driven(tunnel)] + group.tunnels.skip(n));
            assert(survivors(head, driven) + group.tunnels.skip(n) =~= survivors(
                group.tunnels.take(at),
                driven,
            ) + (seq![driven(tunnel)] + group.tunnels.skip(n)));
        } else {
            lemma_finish_pass(next, driven);
            assert(next.tunnels.take(at) =~= group.tunnels.take(at));
            assert(next.tunnels.skip(at) =~= group.tunnels.skip(n));
        }
    }
}

/// A pass leaves exactly the tunnels that were open when it began, each as
/// driving left it, in the order they had. Every tunnel that was closed is
/// gone.
pub proof fn lemma_pass<S>(group: GroupView<S>, driven: spec_fn(Tunnel<S>) -> Tunnel<S>)
    requires
        group.wf(),
    ensures
        pass(group, driven).tunnels == survivors(group.tunnels, driven),
        pass(group, driven).unvisited == 0,
        pass(group, driven).ip == group.ip,
{
    let begun = group.begin_pass();
    lemma_finish_pass(begun, driven);
    assert(begun.tunnels.take(begun.unvisited as int) =~= group.tunnels);
    assert(survivors(group.tunnels, driven) + begun.tunnels.skip(begun.unvisited as int)
        =~= survivors(group.tunnels, driven));
}

/// Whether `survivor` is what driving made of one of `tunnels` that was
/// open.
pub open spec fn was_open_in<S>(
    tunnels: Seq<Tunnel<S>>,
    driven: spec_fn(Tunnel<S>) -> Tunnel<S>,
    survivor: Tunnel<S>,
) -> bool {
    exists|from: int|
        0 <= from < tunnels.len() && (#[trigger] tunnels[from])@.alive && survivor == driven(
            tunnels[from],
        )
}

/// Each survivor is an open tunnel of the group after driving, and there are
/// no more survivors than tunnels.
pub proof fn lemma_survivors_were_open<S>(
    tunnels: Seq<Tunnel<S>>,
    driven: spec_fn(Tunnel<S>) -> Tunnel<S>,
)
    ensures
        survivors(tunnels, driven).len() <= tunnels.len(),
        forall|k: int|
            0 <= k < survivors(tunnels, driven).len() ==> was_open_in(
                tunnels,
                driven,
                #[trigger] survivors(tunnels, driven)[k],
            ),
    decreases tunnels.len(),
{
    if tunnels.len() > 0 {
        let earlier = tunnels.drop_last();
        lemma_survivors_were_open(earlier, driven);
        let kept = survivors(tunnels, driven);
        assert forall|k: int| 0 <= k < kept.len() implies was_open_in(
            tunnels,
            driven,
            #[trigger] kept[k],
        ) by {
            if k < survivors(earlier, driven).len() {
                let survivor = survivors(earlier, driven)[k];
                assert(was_open_in(earlier, driven, survivor));
                let from = choose|from: int|
                    0 <= from < earlier.len() && (#[trigger] earlier[from])@.alive && survivor
                        == driven(earlier[from]);
                assert(tunnels[from] == earlier[from]);
                assert(kept[k] == survivor);
            } else {
                let last = tunnels.len() - 1;
                assert(tunnels[last]@.alive && kept[k] == driven(tunnels[last]));
            }
        }
    }
}

/// A tunnel that is closed when a pass begins is removed by it: the pass
/// leaves what it would have left had the tunnel never been in the group.
pub proof fn lemma_closed_tunnel_is_reaped<S>(
    group: GroupView<S>,
    at: int,
    driven: spec_fn(Tunnel<S>) -> Tunnel<S>,
)
    requires
        group.wf(),
        0 <= at < group.tunnels.len(),
        !group.tunnels[at]@.alive,
    ensures
        pass(group, driven).tunnels == survivors(group.tunnels.remove(at), driven),
        pass(group, driven).tunnels.len() < group.tunnels.len(),
{
    lemma_pass(group, driven);
    let tunnels = group.tunnels;
    let front = tunnels.take(at);
    let one = seq![tunnels[at]];
    let back = tunnels.skip(at + 1);
    assert(tunnels =~= (front + one) + back);
    assert(tunnels.remove(at) =~= front + back);
    lemma_survivors_add(front + one, back, driven);
    lemma_survivors_add(front, one, driven);
    lemma_survivors_add(front, back, driven);
    assert(one.last() == tunnels[at]);
    assert(one.drop_last() =~= Seq::<Tunnel<S>>::empty());
    assert(survivors(one.drop_last(), driven) =~= Seq::<Tunnel<S>>::empty());
    assert(survivors(one, driven) =~= Seq::<Tunnel<S>>::empty());
    assert(survivors(front, driven) + Seq::<Tunnel<S>>::empty() =~= survivors(front, driven));
    lemma_survivors_were_open(tunnels.remove(at), driven);
}

/// A tunnel over which nothing has moved for longer than the idle limit does
/// not outlast the next pass. Take an open tunnel that a pass finds quiet and
/// idle for longer than [`IDLE_LIMIT`]: driving closes it,
/// and a pass over any group that holds it in that state removes it.
pub proof fn lemma_idle_tunnel_is_removed<S>(
    tunnel: Tunnel<S>,
    io: Traffic,
    after: Tunnel<S>,
    group: GroupView<S>,
    at: int,
    driven: spec_fn(Tunnel<S>) -> Tunnel<S>,
)
    requires
        tunnel@.alive,
        io.quiet(),
        idle_time(tunnel@.last_activity, io.settled_at) > IDLE_LIMIT,
        after@ == drive(tunnel@, io).state,
        group.wf(),
        0 <= at < group.tunnels.len(),
        group.tunnels[at] == after,
    ensures
        !after@.alive,
        pass(group, driven).tunnels == survivors(group.tunnels.remove(at), driven),
        pass(group, driven).tunnels.len() < group.tunnels.len(),
{
    lemma_quiet_pass(tunnel@, io);
    lemma_closed_tunnel_is_reaped(group, at, driven);
}

} // verus!
