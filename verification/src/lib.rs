//! A forward proxy engine without sockets.
//!
//! The engine takes what the network delivered (a source address, the bytes of
//! a request, the outcome of a read or a write, the reading of a clock) and
//! answers with what to do next. Whoever owns the sockets performs that and
//! reports back. Every decision of the proxy is made here.
//!
//! [`server`] admits sources and keeps one group for each; [`request`] reads
//! the request a client opens with; [`group`] holds the tunnels of a source
//! and the pass over them; [`tunnel`] relays between a client and its target.
//! [`arrivals`], [`session`], [`sweep`] and [`drive`] play these out in full
//! and state what holds of every run.
pub mod address;
pub mod arrivals;
pub mod drive;
pub mod error;
pub mod group;
pub mod request;
pub mod server;
pub mod session;
pub mod sweep;
pub mod tunnel;
