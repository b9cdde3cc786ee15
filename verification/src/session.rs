//! One connection from its first bytes to its tunnel, and what holds of
//! every connection.
//!
//! [`session`] plays the handshake through: the reply to the request, then,
//! if there is one, the dial and [`GroupView::connected`].
use crate::error::ProxyError;
use crate::group::GroupView;
use crate::request::{ok_response_bytes, parse, reply_to, tokens};
use crate::tunnel::{Side, Tunnel, TunnelState};
use vstd::prelude::*;

verus! {

/// What one connection did.
pub struct Session<S> {
    /// The group afterwards.
    pub group: GroupView<S>,
    /// Everything that was sent to the client, in order.
    pub responses: Seq<Seq<u8>>,
    /// Every target that was dialed, in order.
    pub dials: Seq<Seq<u8>>,
    /// How the handshake ended.
    pub result: Result<(), ProxyError>,
}

/// The handshake of a client that opens with `request`, at clock reading
/// `now`. `reach` stands for the network: the socket that dialing a target
/// gives, if any.
pub open spec fn session<S>(
    group: GroupView<S>,
    client: S,
    request: Seq<u8>,
    reach: spec_fn(Seq<u8>) -> Option<S>,
    now: u64,
) -> Session<S> {
    match reply_to(request) {
        Err(e) => Session { group, responses: Seq::empty(), dials: Seq::empty(), result: Err(e) },
        Ok(reply) => {
            let (after, result) = group.connected(client, reach(reply.target), now);
            Session {
                group: after,
                responses: seq![reply.response],
                dials: seq![reply.target],
                result,
            }
        },
    }
}

/// A request that names a target which can be reached is answered with the
/// one response, once, and then gets one tunnel, behind the others: open,
/// between the client and the target, and without a byte carried yet.
pub proof fn lemma_accepted_request_opens_tunnel<S>(
    group: GroupView<S>,
    client: S,
    request: Seq<u8>,
    reach: spec_fn(Seq<u8>) -> Option<S>,
    now: u64,
)
    requires
        parse(request) is Ok,
        reach(parse(request)->Ok_0) is Some,
    ensures
        session(group, client, request, reach, now).responses == seq![ok_response_bytes()],
        session(group, client, request, reach, now).dials == seq![tokens(request)[1]],
        session(group, client, request, reach, now).result == Ok::<(), ProxyError>(()),
        session(group, client, request, reach, now).group.tunnels.len() == group.tunnels.len() + 1,
        session(group, client, request, reach, now).group.tunnels.drop_last() == group.tunnels,
        session(group, client, request, reach, now).group.tunnels.last()@ == TunnelState::opened(
            now,
        ),
        session(group, client, request, reach, now).group.tunnels.last().socket_spec(Side::Client)
            == client,
        session(group, client, request, reach, now).group.tunnels.last().socket_spec(Side::Target)
            == reach(tokens(request)[1])->0,
{
    let target = parse(request)->Ok_0;
    let socket = reach(target)->0;
    Tunnel::lemma_open_between(client, socket, now);
    let after = session(group, client, request, reach, now).group;
    assert(after.tunnels.drop_last() =~= group.tunnels);
}

/// A request without a byte, and one without a second token, gets no
/// response, no dial and no tunnel: the group is as it was.
pub proof fn lemma_malformed_request_gets_nothing<S>(
    group: GroupView<S>,
    client: S,
    request: Seq<u8>,
    reach: spec_fn(Seq<u8>) -> Option<S>,
    now: u64,
)
    requires
        request.len() == 0 || tokens(request).len() < 2,
    ensures
        session(group, client, request, reach, now).responses == Seq::<Seq<u8>>::empty(),
        session(group, client, request, reach, now).dials == Seq::<Seq<u8>>::empty(),
        session(group, client, request, reach, now).group == group,
        session(group, client, request, reach, now).result is Err,
        request.len() == 0 ==> session(group, client, request, reach, now).result == Err::<
            (),
            ProxyError,
        >(ProxyError::EmptyRequest),
{
}

/// So does a request that is not UTF-8 text.
pub proof fn lemma_garbled_request_gets_nothing<S>(
    group: GroupView<S>,
    client: S,
    request: Seq<u8>,
    reach: spec_fn(Seq<u8>) -> Option<S>,
    now: u64,
)
    requires
        request.len() > 0,
        !vstd::utf8::valid_utf8(request),
    ensures
        session(group, client, request, reach, now).responses == Seq::<Seq<u8>>::empty(),
        session(group, client, request, reach, now).dials == Seq::<Seq<u8>>::empty(),
        session(group, client, request, reach, now).group == group,
        session(group, client, request, reach, now).result == Err::<(), ProxyError>(
            ProxyError::ParseError,
        ),
{
}

/// A client whose target cannot be reached has been sent the response, as
/// that goes out before the dial, and gets no tunnel.
pub proof fn lemma_unreachable_target_gets_no_tunnel<S>(
    group: GroupView<S>,
    client: S,
    request: Seq<u8>,
    reach: spec_fn(Seq<u8>) -> Option<S>,
    now: u64,
)
    requires
        parse(request) is Ok,
        reach(parse(request)->Ok_0) is None,
    ensures
        session(group, client, request, reach, now).responses == seq![ok_response_bytes()],
        session(group, client, request, reach, now).group == group,
        session(group, client, request, reach, now).result == Err::<(), ProxyError>(
            ProxyError::ConnectError,
        ),
{
}

} // verus!
