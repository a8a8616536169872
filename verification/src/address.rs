use vstd::prelude::*;

verus! {

/// An IP address, v4 or v6, held by its bits.
#[derive(Clone, Copy, Debug, PartialEq, Eq, Structural)]
pub enum IpAddress {
    V4(u32),
    V6(u128),
}

/// An IP address together with a port: the key under which a simulated
/// system is reachable.
#[derive(Clone, Copy, Debug, PartialEq, Eq, Structural)]
pub struct SocketAddress {
    pub ip: IpAddress,
    pub port: u16,
}

/// The transport protocol a system path names.
#[derive(Clone, Copy, Debug, PartialEq, Eq, Structural)]
pub enum Transport {
    Local,
    Tcp,
    Udp,
}

/// The address of an actor system: a transport, an IP address and a port.
#[derive(Clone, Copy, Debug, PartialEq, Eq, Structural)]
pub struct SystemPath {
    pub protocol: Transport,
    pub address: IpAddress,
    pub port: u16,
}

impl SocketAddress {
    /// The same address with its port replaced.
    pub fn with_port(&self, port: u16) -> (r: SocketAddress)
        ensures
            r == (SocketAddress { ip: self.ip, port }),
    {
        SocketAddress { ip: self.ip, port }
    }
}

impl SystemPath {
    pub fn new(protocol: Transport, address: IpAddress, port: u16) -> (r: SystemPath)
        ensures
            r == (SystemPath { protocol, address, port }),
    {
        SystemPath { protocol, address, port }
    }

    pub open spec fn spec_socket_address(self) -> SocketAddress {
        SocketAddress { ip: self.address, port: self.port }
    }

    /// The socket address that the path names.
    pub fn socket_address(&self) -> (r: SocketAddress)
        ensures
            r == self.spec_socket_address(),
    {
        SocketAddress { ip: self.address, port: self.port }
    }
}

} // verus!
