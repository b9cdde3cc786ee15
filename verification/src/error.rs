//! What can go wrong for one connection or one tunnel.
use vstd::prelude::*;

verus! {

/// A failure of the proxy. Each one ends at most a single connection or is
/// only reported; none stops the server.
#[derive(Clone, Copy, Debug, PartialEq, Eq, Structural)]
pub enum ProxyError {
    /// The source address is not on a non-empty allow-list.
    AdmissionDenied,
    /// The client closed before sending a single byte.
    EmptyRequest,
    /// The request holds no second token to name a target.
    InvalidRequest,
    /// The request is not UTF-8 text.
    ParseError,
    /// The target could not be dialed.
    ConnectError,
    /// Fewer bytes were written than had been read.
    WriteSizeMismatch,
    /// The listener failed to hand over a connection.
    AcceptError,
}

} // verus!
