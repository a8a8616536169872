use kompact_sim::address::{IpAddress, SocketAddress, SystemPath, Transport};
use kompact_sim::bridge::{DispatchEvent, Protocol, SimulationBridge};

#[test]
fn bridge_routes_by_protocol() {
    let bound = SocketAddress { ip: IpAddress::V4(1), port: 3 };
    let (mut bridge, addr) = SimulationBridge::new(bound, Transport::Tcp);
    assert_eq!(addr, bound);
    assert_eq!(bridge.local_addr(), bound);
    assert_eq!(bridge.system_path(), SystemPath { protocol: Transport::Tcp, address: IpAddress::V4(1), port: 3 });
    let dst = SocketAddress { ip: IpAddress::V4(2), port: 1 };
    match bridge.route(dst, "ping", Protocol::Tcp) {
        (path, DispatchEvent::SendTcp(to, data)) => {
            assert_eq!(path.port, 3);
            assert_eq!(to, dst);
            assert_eq!(data, "ping");
        }
        _ => panic!("expected a TCP send"),
    }
    let newpath = SystemPath::new(Transport::Udp, IpAddress::V4(1), 0);
    bridge.set_system_path(newpath);
    match bridge.route(dst, 5u8, Protocol::Udp) {
        (path, DispatchEvent::SendUdp(to, 5)) => {
            assert_eq!(path, newpath);
            assert_eq!(to, dst);
        }
        _ => panic!("expected a UDP send"),
    }
    assert_eq!(bridge.local_addr(), bound);
}

#[test]
fn bridge_stays_bound_across_path_changes() {
    let bound = SocketAddress { ip: IpAddress::V4(7), port: 9 };
    let (mut bridge, _) = SimulationBridge::new(bound, Transport::Udp);
    for port in 0..5u16 {
        bridge.set_system_path(SystemPath::new(Transport::Tcp, IpAddress::V4(8), port));
        assert_eq!(bridge.local_addr(), bound);
    }
}
