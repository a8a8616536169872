use vstd::prelude::*;

use crate::address::{SocketAddress, SystemPath, Transport};

verus! {

/// The protocol a message is routed with.
#[derive(Clone, Copy, Debug, PartialEq, Eq, Structural)]
pub enum Protocol {
    Tcp,
    Udp,
}

/// A request to the network to send `data` to an address.
pub enum DispatchEvent<D> {
    SendTcp(SocketAddress, D),
    SendUdp(SocketAddress, D),
}

/// The link between one actor system and the simulated network: the address
/// the system is bound to and the path it is known by.
pub struct SimulationBridge {
    bound_address: SocketAddress,
    system_path: SystemPath,
}

impl SimulationBridge {
    pub closed spec fn bound(&self) -> SocketAddress {
        self.bound_address
    }

    pub closed spec fn path(&self) -> SystemPath {
        self.system_path
    }

    /// A bridge bound to `addr`, whose system path names `addr` under
    /// `transport`; the bound address is returned too.
    pub fn new(addr: SocketAddress, transport: Transport) -> (r: (SimulationBridge, SocketAddress))
        ensures
            r.0.bound() == addr,
            r.0.path() == (SystemPath { protocol: transport, address: addr.ip, port: addr.port }),
            r.1 == addr,
    {
        let syspath = SystemPath::new(transport, addr.ip, addr.port);
        (SimulationBridge { bound_address: addr, system_path: syspath }, addr)
    }

    /// Replaces the system path.
    pub fn set_system_path(&mut self, syspath: SystemPath)
        ensures
            final(self).path() == syspath,
            final(self).bound() == old(self).bound(),
    {
        self.system_path = syspath;
    }

    /// The address the bridge is bound to.
    pub fn local_addr(&self) -> (r: SocketAddress)
        ensures
            r == self.bound(),
    {
        self.bound_address
    }

    /// The path the bridge's system is known by.
    pub fn system_path(&self) -> (r: SystemPath)
        ensures
            r == self.path(),
    {
        self.system_path
    }

    /// Routes `data` to `addr`: the message leaves from this bridge's system
    /// path, as a TCP or UDP send event according to `protocol`.
    pub fn route<D>(&self, addr: SocketAddress, data: D, protocol: Protocol) -> (r: (SystemPath, DispatchEvent<D>))
        ensures
            r.0 == self.path(),
            match protocol {
                Protocol::Tcp => r.1 == DispatchEvent::SendTcp(addr, data),
                Protocol::Udp => r.1 == DispatchEvent::SendUdp(addr, data),
            },
    {
        match protocol {
            Protocol::Tcp => (self.system_path(), DispatchEvent::SendTcp(addr, data)),
            Protocol::Udp => (self.system_path(), DispatchEvent::SendUdp(addr, data)),
        }
    }
}

/// A bridge stays bound where it was created: along any run of path changes
/// (each keeping the bound address, as `set_system_path` does), the last
/// bridge answers `local_addr` with the first one's address.
pub proof fn bridge_stays_bound(bridges: Seq<SimulationBridge>)
    requires
        bridges.len() > 0,
        forall|i: int| 0 <= i < bridges.len() - 1 ==> (#[trigger] bridges[i + 1]).bound() == bridges[i].bound(),
    ensures
        bridges.last().bound() == bridges[0].bound(),
    decreases bridges.len(),
{
    if bridges.len() > 1 {
        let init = bridges.drop_last();
        assert forall|i: int| 0 <= i < init.len() - 1 implies (#[trigger] init[i + 1]).bound() == init[i].bound() by {
            assert(init[i + 1] == bridges[i + 1]);
            assert(init[i] == bridges[i]);
        }
        bridge_stays_bound(init);
        let j: int = bridges.len() - 2;
        assert(bridges[j + 1].bound() == bridges[j].bound());
        assert(bridges[j + 1] == bridges.last());
        assert(bridges[j] == init.last());
        assert(init[0] == bridges[0]);
    }
}

} // verus!
