//! Addresses of listening points: an IPv4-style quadruple of octets plus a
//! port number. The all-zero address is the unbindable "unspecified"
//! address, and port `0` is the sentinel asking for automatic assignment.

use vstd::prelude::*;

verus! {

/// An address a listener binds to and a connect call targets.
#[derive(Clone, Copy, Debug, PartialEq, Eq, Structural)]
pub struct Address {
    /// First octet of the host part.
    pub ip0: u8,
    /// Second octet of the host part.
    pub ip1: u8,
    /// Third octet of the host part.
    pub ip2: u8,
    /// Fourth octet of the host part.
    pub ip3: u8,
    /// The port; `0` means "assign one automatically" on bind.
    pub port: u16,
}

impl Address {
    /// True when the host part is all zero; such an address is never
    /// bindable, whatever its port.
    pub open spec fn spec_is_unspecified(self) -> bool {
        self.ip0 == 0 && self.ip1 == 0 && self.ip2 == 0 && self.ip3 == 0
    }

    /// The same host with another port.
    pub open spec fn spec_with_port(self, port: u16) -> Address {
        Address { port, ..self }
    }

    /// True when two addresses name the same host, ports aside.
    pub open spec fn same_host(self, other: Address) -> bool {
        self.ip0 == other.ip0 && self.ip1 == other.ip1 && self.ip2 == other.ip2
            && self.ip3 == other.ip3
    }

    /// Builds the address `ip0.ip1.ip2.ip3:port`.
    pub fn new(ip0: u8, ip1: u8, ip2: u8, ip3: u8, port: u16) -> (r: Address)
        ensures
            r == (Address { ip0, ip1, ip2, ip3, port }),
    {
        Address { ip0, ip1, ip2, ip3, port }
    }

    /// The port part of the address.
    pub fn port(&self) -> (r: u16)
        ensures
            r == self.port,
    {
        self.port
    }

    /// The same host with another port.
    pub fn with_port(&self, port: u16) -> (r: Address)
        ensures
            r == self.spec_with_port(port),
    {
        Address { port, ..*self }
    }

    /// True when the host part is all zero.
    pub fn is_unspecified(&self) -> (r: bool)
        ensures
            r == self.spec_is_unspecified(),
    {
        self.ip0 == 0 && self.ip1 == 0 && self.ip2 == 0 && self.ip3 == 0
    }
}

} // verus!
