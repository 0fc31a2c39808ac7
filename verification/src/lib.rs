//! The verified core of an ICMP echo (ping) engine: the packet codec with
//! its checksum, the correlation of replies to in-flight requests, the
//! routing state of a shared socket's reply dispatcher, and the token-bucket
//! send limiter. Sockets, channels and tasks live outside; they feed plain
//! values in and carry the decisions out.

pub mod cache;
pub mod codec;
pub mod dispatch;
pub mod limiter;
pub mod pinger;

use vstd::prelude::*;
use crate::codec::DecodeError;

verus! {

/// The correlation token (identifier, sequence) packed into one integer key.
pub open spec fn token_key(ident: u16, seq_cnt: u16) -> u64 {
    ((ident as u64) * 65536 + (seq_cnt as u64)) as u64
}

/// Errors a ping call can end with. Socket construction and transport
/// failures are raised by the unverified I/O layer; it reports them through
/// the `Transport` variant.
#[derive(Clone, Copy, Debug, PartialEq, Eq, Structural)]
pub enum PingError {
    /// The requested payload would not fit one datagram.
    PayloadTooLarge,
    /// No matching reply arrived in time; carries the sequence number asked for.
    Timeout { seq_cnt: u16 },
    /// A received buffer could not be decoded.
    Decode(DecodeError),
    /// The underlying send or receive failed.
    Transport,
}

} // verus!
