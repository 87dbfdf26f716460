//! An in-memory substitute for stream sockets.
//!
//! A [`MemoryListener`] bound through a [`SwitchBoard`] accepts connections,
//! and a [`MemorySocket`] is one endpoint of a connected in-memory byte
//! stream, much like the standard library's `TcpListener` and `TcpStream`
//! but with all traffic carried over in-process channels.

use vstd::prelude::*;

mod addr;
mod chan;
mod poll;
mod socket;
mod switchboard;

pub use addr::Address;
pub use poll::Poll;
pub use socket::lemma_round_trip;
pub use socket::MemorySocket;
pub use switchboard::bind_inserts;
pub use switchboard::cursor_after;
pub use switchboard::probe_distance;
pub use switchboard::probe_port;
pub use switchboard::lemma_address_reusable;
pub use switchboard::lemma_port_allocation_unique;
pub use switchboard::unbind_removes;
pub use switchboard::Incoming;
pub use switchboard::IncomingStream;
pub use switchboard::MemoryListener;
pub use switchboard::SwitchBoard;
pub use switchboard::TOP_PORT;

verus! {

/// The error kinds a socket operation can report.
#[derive(Clone, Copy, Debug, PartialEq, Eq, Structural)]
pub enum SocketError {
    /// A bind collided with a live listener, or automatic port
    /// assignment found every port taken.
    AddressInUse,
    /// The address cannot be bound (the unspecified address), or a
    /// connect found no live listener behind the address.
    AddressUnavailable,
    /// A flush found the peer's receiving side gone.
    BrokenPipe,
    /// A read was made after end-of-stream had already been reported.
    UnexpectedEof,
}

} // verus!
