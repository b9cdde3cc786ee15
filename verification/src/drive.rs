//! A whole pass over one tunnel, and what holds of every such pass.
//!
//! [`drive`] follows the steps of a tunnel from [`TunnelState::begin`] to
//! [`StepView::Done`], against a [`Traffic`] that says what each read, write
//! and clock reading of the pass yields. It is the dialogue of
//! [`crate::tunnel::Tunnel`] played out in full.
use crate::tunnel::{idle_time, Side, StepView, TunnelState, IDLE_LIMIT};
use vstd::prelude::*;

verus! {

/// What the sockets and the clock yield during one pass over a tunnel.
pub struct Traffic {
    /// What the read from the client delivers.
    pub from_client: Option<Seq<u8>>,
    /// What the read from the target delivers.
    pub from_target: Option<Seq<u8>>,
    /// How much the write to the target accepts, `None` if it fails.
    pub target_accepts: Option<nat>,
    /// How much the write to the client accepts, `None` if it fails.
    pub client_accepts: Option<nat>,
    /// The clock after the write to the target.
    pub target_written_at: u64,
    /// The clock after the write to the client.
    pub client_written_at: u64,
    /// The clock at the end of the pass.
    pub settled_at: u64,
}

impl Traffic {
    /// What the read from `from` delivers.
    pub open spec fn read(self, from: Side) -> Option<Seq<u8>> {
        match from {
            Side::Client => self.from_client,
            Side::Target => self.from_target,
        }
    }

    /// How much the write to `to` accepts.
    pub open spec fn accepts(self, to: Side) -> Option<nat> {
        match to {
            Side::Client => self.client_accepts,
            Side::Target => self.target_accepts,
        }
    }

    /// The clock after the write to `to`.
    pub open spec fn written_at(self, to: Side) -> u64 {
        match to {
            Side::Client => self.client_written_at,
            Side::Target => self.target_written_at,
        }
    }

    /// The bytes that arrive from `from` in this pass: none if nothing was
    /// available.
    pub open spec fn arrived(self, from: Side) -> Seq<u8> {
        match self.read(from) {
            Some(chunk) => chunk,
            None => Seq::empty(),
        }
    }

    /// Every write that this pass can make accepts all of what the matching
    /// read delivered.
    pub open spec fn writes_complete(self) -> bool {
        &&& self.arrived(Side::Client).len() > 0 ==> self.target_accepts == Some(
            self.arrived(Side::Client).len(),
        )
        &&& self.arrived(Side::Target).len() > 0 ==> self.client_accepts == Some(
            self.arrived(Side::Target).len(),
        )
    }

    /// The read from `from` reports that the peer has closed: it delivers
    /// no bytes at all.
    pub open spec fn closed_by(self, from: Side) -> bool {
        self.read(from) matches Some(chunk) && chunk.len() == 0
    }

    /// Neither read delivers anything, and neither peer has closed.
    pub open spec fn quiet(self) -> bool {
        self.from_client is None && self.from_target is None
    }
}

/// The part of `chunk` that reaches the socket when the write accepts
/// `accepted`: a prefix, and nothing if the write failed.
pub open spec fn delivered(chunk: Seq<u8>, accepted: Option<nat>) -> Seq<u8> {
    match accepted {
        Some(n) => if n <= chunk.len() {
            chunk.take(n as int)
        } else {
            chunk
        },
        None => Seq::empty(),
    }
}

/// A tunnel after some steps, with the bytes that reached each socket and
/// the number of writes that fell short.
pub struct Outcome {
    pub state: TunnelState,
    pub to_client: Seq<u8>,
    pub to_target: Seq<u8>,
    pub short_writes: nat,
}

impl Outcome {
    /// Nothing written: only the tunnel.
    pub open spec fn silent(state: TunnelState) -> Outcome {
        Outcome { state, to_client: Seq::empty(), to_target: Seq::empty(), short_writes: 0 }
    }

    /// This outcome with `bytes` written to `to` before everything else.
    pub open spec fn after_write(self, to: Side, bytes: Seq<u8>, short: bool) -> Outcome {
        let short_writes = if short {
            self.short_writes + 1
        } else {
            self.short_writes
        };
        match to {
            Side::Client => Outcome { to_client: bytes + self.to_client, short_writes, ..self },
            Side::Target => Outcome { to_target: bytes + self.to_target, short_writes, ..self },
        }
    }

    /// This outcome followed by `later`.
    pub open spec fn followed_by(self, later: Outcome) -> Outcome {
        Outcome {
            state: later.state,
            to_client: self.to_client + later.to_client,
            to_target: self.to_target + later.to_target,
            short_writes: self.short_writes + later.short_writes,
        }
    }
}

/// The longest chain of steps a pass can take: two reads, two writes and
/// the settling.
pub open spec fn pass_steps() -> nat {
    5
}

/// Performs `step` and those that follow it, `budget` of them at most.
pub open spec fn follow(state: TunnelState, step: StepView, io: Traffic, budget: nat) -> Outcome
    decreases budget,
{
    if budget == 0 {
        Outcome::silent(state)
    } else {
        match step {
            StepView::Done => Outcome::silent(state),
            StepView::Read(from) => {
                let (next_state, next_step) = state.on_read(from, io.read(from));
                follow(next_state, next_step, io, (budget - 1) as nat)
            },
            StepView::Write(to, chunk) => {
                let (next_state, next_step) = state.on_written(to, io.written_at(to));
                follow(next_state, next_step, io, (budget - 1) as nat).after_write(
                    to,
                    delivered(chunk, io.accepts(to)),
                    TunnelState::fell_short(chunk.len(), io.accepts(to)),
                )
            },
            StepView::Settle => follow(
                state.settle(io.settled_at),
                StepView::Done,
                io,
                (budget - 1) as nat,
            ),
        }
    }
}

/// One pass over a tunnel.
pub open spec fn drive(state: TunnelState, io: Traffic) -> Outcome {
    follow(state, state.begin(), io, pass_steps())
}

/// One pass after another, each starting where the last one left the tunnel.
pub open spec fn drive_all(state: TunnelState, ios: Seq<Traffic>) -> Outcome
    decreases ios.len(),
{
    if ios.len() == 0 {
        Outcome::silent(state)
    } else {
        let first = drive(state, ios[0]);
        first.followed_by(drive_all(first.state, ios.drop_first()))
    }
}

/// All the bytes that arrive from `from` over the passes, in order.
pub open spec fn arrived_all(ios: Seq<Traffic>, from: Side) -> Seq<u8>
    decreases ios.len(),
{
    if ios.len() == 0 {
        Seq::empty()
    } else {
        ios[0].arrived(from) + arrived_all(ios.drop_first(), from)
    }
}

/// A pass ends within its budget: following on from where [`drive`] stops
/// changes nothing.
pub proof fn lemma_drive_completes(state: TunnelState, io: Traffic)
    ensures
        forall|more: nat|
            more >= pass_steps() ==> #[trigger] follow(state, state.begin(), io, more) == drive(
                state,
                io,
            ),
{
    reveal_with_fuel(follow, 7);
    assert forall|more: nat| more >= pass_steps() implies #[trigger] follow(
        state,
        state.begin(),
        io,
        more,
    ) == drive(state, io) by {
        lemma_follow_settles(state, state.begin(), io, more);
    }
}

/// From any step that a pass starts with, five steps reach the end.
proof fn lemma_follow_settles(state: TunnelState, step: StepView, io: Traffic, more: nat)
    requires
        more >= pass_steps(),
        step == state.begin(),
    ensures
        follow(state, step, io, more) == follow(state, step, io, pass_steps()),
{
    reveal_with_fuel(follow, 7);
}

/// A closed tunnel is not driven: nothing is read, written or changed.
pub proof fn lemma_closed_tunnel_is_left_alone(state: TunnelState, io: Traffic)
    requires
        !state.alive,
    ensures
        drive(state, io) == Outcome::silent(state),
{
    reveal_with_fuel(follow, 2);
}

/// A tunnel that has closed stays closed, whatever a pass brings.
pub proof fn lemma_never_revived(state: TunnelState, io: Traffic)
    ensures
        drive(state, io).state.alive ==> state.alive,
{
    reveal_with_fuel(follow, 7);
}

/// A client that has closed ends the pass at once: the tunnel closes, the
/// target is not read and nothing is written.
pub proof fn lemma_client_close_ends_pass(state: TunnelState, io: Traffic)
    requires
        state.alive,
        io.closed_by(Side::Client),
    ensures
        drive(state, io) == Outcome::silent(TunnelState { alive: false, ..state }),
{
    reveal_with_fuel(follow, 7);
}

/// A target that has closed closes the tunnel, after the client's bytes
/// were passed on.
pub proof fn lemma_target_close_ends_pass(state: TunnelState, io: Traffic)
    requires
        state.alive,
        !io.closed_by(Side::Client),
        io.closed_by(Side::Target),
    ensures
        !drive(state, io).state.alive,
        drive(state, io).to_client == Seq::<u8>::empty(),
        drive(state, io).to_target == delivered(io.arrived(Side::Client), io.target_accepts),
{
    reveal_with_fuel(follow, 7);
    let out = drive(state, io);
    assert(out.to_target =~= delivered(io.arrived(Side::Client), io.target_accepts));
    assert(out.to_client =~= Seq::<u8>::empty());
}

/// A pass in which neither side delivers anything writes nothing, leaves the
/// time of the last activity as it was, and closes the tunnel exactly when
/// it has been idle for longer than [`IDLE_LIMIT`].
pub proof fn lemma_quiet_pass(state: TunnelState, io: Traffic)
    requires
        state.alive,
        io.quiet(),
    ensures
        drive(state, io) == Outcome::silent(state.settle(io.settled_at)),
        drive(state, io).state.alive <==> idle_time(state.last_activity, io.settled_at)
            <= IDLE_LIMIT,
{
    reveal_with_fuel(follow, 7);
}

/// A pass that relays in either direction keeps the tunnel open if neither
/// peer has closed and the pass ends within the idle limit of its last
/// write.
pub proof fn lemma_busy_pass_keeps_open(state: TunnelState, io: Traffic)
    requires
        state.alive,
        !io.closed_by(Side::Client),
        !io.closed_by(Side::Target),
        io.from_target is Some,
        idle_time(io.client_written_at, io.settled_at) <= IDLE_LIMIT,
    ensures
        drive(state, io).state == (TunnelState { alive: true, last_activity: io.client_written_at }),
{
    reveal_with_fuel(follow, 7);
}

/// What reaches each socket in one pass is a prefix of what the other
/// side's read delivered, and all of it when the write was complete.
pub proof fn lemma_pass_relays_in_order(state: TunnelState, io: Traffic)
    requires
        state.alive,
    ensures
        drive(state, io).to_target.is_prefix_of(io.arrived(Side::Client)),
        drive(state, io).to_client.is_prefix_of(io.arrived(Side::Target)),
        drive(state, io).state.alive && io.writes_complete() ==> {
            &&& drive(state, io).to_target == io.arrived(Side::Client)
            &&& drive(state, io).to_client == io.arrived(Side::Target)
            &&& drive(state, io).short_writes == 0
        },
{
    reveal_with_fuel(follow, 7);
    let out = drive(state, io);
    let client_chunk = io.arrived(Side::Client);
    let target_chunk = io.arrived(Side::Target);
    assert(out.to_target =~= Seq::<u8>::empty() || out.to_target =~= delivered(
        client_chunk,
        io.target_accepts,
    ));
    assert(out.to_client =~= Seq::<u8>::empty() || out.to_client =~= delivered(
        target_chunk,
        io.client_accepts,
    ));
    if out.state.alive && io.writes_complete() {
        assert(client_chunk.take(client_chunk.len() as int) =~= client_chunk);
        assert(target_chunk.take(target_chunk.len() as int) =~= target_chunk);
        assert(out.to_target =~= client_chunk);
        assert(out.to_client =~= target_chunk);
    }
}

/// A tunnel that is open after a run of passes was open after each of them.
pub proof fn lemma_open_throughout(state: TunnelState, ios: Seq<Traffic>, upto: int)
    requires
        0 <= upto <= ios.len(),
        drive_all(state, ios).state.alive,
    ensures
        drive_all(state, ios.take(upto)).state.alive,
        state.alive,
    decreases ios.len(),
{
    if ios.len() == 0 {
        assert(ios.take(upto) =~= ios);
    } else {
        let first = drive(state, ios[0]);
        lemma_open_throughout(first.state, ios.drop_first(), 0);
        lemma_never_revived(state, ios[0]);
        if upto > 0 {
            lemma_open_throughout(first.state, ios.drop_first(), upto - 1);
            assert(ios.take(upto).drop_first() =~= ios.drop_first().take(upto - 1));
            assert(ios.take(upto)[0] == ios[0]);
        } else {
            assert(ios.take(0).len() == 0);
        }
    }
}

/// Bytes keep their order from end to end. Over any run of passes that
/// leaves the tunnel open, with every write complete, what reached the
/// target is exactly what arrived from the client, in the order it arrived,
/// and what reached the client is exactly what arrived from the target.
pub proof fn lemma_byte_order_preserved(state: TunnelState, ios: Seq<Traffic>)
    requires
        drive_all(state, ios).state.alive,
        forall|i: int| 0 <= i < ios.len() ==> (#[trigger] ios[i]).writes_complete(),
    ensures
        drive_all(state, ios).to_target == arrived_all(ios, Side::Client),
        drive_all(state, ios).to_client == arrived_all(ios, Side::Target),
        drive_all(state, ios).short_writes == 0,
    decreases ios.len(),
{
    if ios.len() == 0 {
    } else {
        let first = drive(state, ios[0]);
        let rest = ios.drop_first();
        lemma_open_throughout(state, ios, 1);
        assert(ios.take(1).drop_first() =~= Seq::<Traffic>::empty());
        assert(ios.take(1)[0] == ios[0]);
        assert(drive_all(first.state, ios.take(1).drop_first()) == Outcome::silent(first.state));
        assert(first.state.alive);
        lemma_pass_relays_in_order(state, ios[0]);
        assert forall|i: int| 0 <= i < rest.len() implies (#[trigger] rest[i]).writes_complete() by {
            assert(rest[i] == ios[i + 1]);
        }
        lemma_byte_order_preserved(first.state, rest);
    }
}

/// Without complete writes order still holds: what reached a socket over a
/// single pass never holds a byte that did not arrive, nor one out of place.
pub proof fn lemma_partial_write_keeps_order(chunk: Seq<u8>, accepted: Option<nat>)
    ensures
        delivered(chunk, accepted).is_prefix_of(chunk),
        !TunnelState::fell_short(chunk.len(), accepted) ==> delivered(chunk, accepted) == chunk,
{
    if !TunnelState::fell_short(chunk.len(), accepted) {
        assert(delivered(chunk, accepted) =~= chunk);
    }
}

} // verus!
