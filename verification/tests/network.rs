use kompact_sim::address::{IpAddress, SocketAddress, SystemPath, Transport};
use kompact_sim::network::{SendOutcome, SimulationNetwork, Stat};

fn addr(last: u8, port: u16) -> SocketAddress {
    SocketAddress { ip: IpAddress::V4(0x7f00_0000 | last as u32), port }
}

fn two_systems() -> (SimulationNetwork<&'static str>, SocketAddress, SocketAddress) {
    let mut net = SimulationNetwork::new();
    let a = net.register_system(addr(1, 8080), "lookup-a", Transport::Tcp).socket_address();
    let b = net.register_system(addr(1, 8080), "lookup-b", Transport::Tcp).socket_address();
    (net, a, b)
}

#[test]
fn new_network_is_empty() {
    let net: SimulationNetwork<u32> = SimulationNetwork::new();
    assert_eq!(net.stat().msg_count, 0);
    assert_eq!(net.stat().system_count, 0);
    assert!(!net.is_registered(&addr(1, 0)));
}

#[test]
fn stat_default_is_zero() {
    let s = Stat::default();
    assert_eq!(s.msg_count, 0);
    assert_eq!(s.system_count, 0);
}

#[test]
fn registration_assigns_consecutive_ports() {
    let mut net = SimulationNetwork::new();
    let p0 = net.register_system(addr(1, 9999), 10u32, Transport::Tcp);
    let p1 = net.register_system(addr(2, 9999), 11u32, Transport::Udp);
    assert_eq!(p0, SystemPath { protocol: Transport::Tcp, address: IpAddress::V4(0x7f00_0001), port: 0 });
    assert_eq!(p1, SystemPath { protocol: Transport::Udp, address: IpAddress::V4(0x7f00_0002), port: 1 });
    assert_eq!(net.stat().system_count, 2);
    assert_eq!(net.endpoint(&p0.socket_address()), Some(&10));
    assert_eq!(net.endpoint(&p1.socket_address()), Some(&11));
    assert_eq!(net.endpoint(&addr(1, 9999)), None);
}

#[test]
fn same_ip_registered_twice_gets_two_addresses() {
    let (net, a, b) = two_systems();
    assert_ne!(a, b);
    assert_eq!(net.endpoint(&a), Some(&"lookup-a"));
    assert_eq!(net.endpoint(&b), Some(&"lookup-b"));
}

#[test]
fn delivered_messages_are_counted() {
    let (mut net, a, b) = two_systems();
    assert!(net.is_reachable(&a, &b));
    assert_eq!(net.send(a, b, false), SendOutcome::Delivered);
    assert_eq!(net.send(b, a, false), SendOutcome::Delivered);
    assert_eq!(net.stat().msg_count, 2);
}

#[test]
fn lost_packets_are_not_counted() {
    let (mut net, a, b) = two_systems();
    assert_eq!(net.send(a, b, true), SendOutcome::PacketLost);
    assert_eq!(net.stat().msg_count, 0);
}

#[test]
fn unknown_destination_is_not_connected() {
    let (mut net, a, _) = two_systems();
    assert_eq!(net.send(a, addr(9, 5), false), SendOutcome::NotConnected);
    assert_eq!(net.stat().msg_count, 0);
}

#[test]
fn clogged_system_is_cut_off_both_ways() {
    let (mut net, a, b) = two_systems();
    net.clog(a);
    assert!(!net.is_reachable(&a, &b));
    assert!(!net.is_reachable(&b, &a));
    assert_eq!(net.send(a, b, false), SendOutcome::NotConnected);
    assert_eq!(net.send(b, a, false), SendOutcome::NotConnected);
    net.clog(a);
    net.unclog(a);
    assert!(net.is_reachable(&a, &b));
    assert_eq!(net.send(b, a, false), SendOutcome::Delivered);
}

#[test]
fn clogged_link_blocks_one_direction() {
    let (mut net, a, b) = two_systems();
    net.clog_link(a, b);
    assert!(!net.is_reachable(&a, &b));
    assert!(net.is_reachable(&b, &a));
    assert_eq!(net.send(a, b, false), SendOutcome::NotConnected);
    assert_eq!(net.send(b, a, false), SendOutcome::Delivered);
    net.unclog_link(a, b);
    assert!(net.is_reachable(&a, &b));
    assert_eq!(net.send(a, b, false), SendOutcome::Delivered);
}

#[test]
fn unclog_link_of_open_link_changes_nothing() {
    let (mut net, a, b) = two_systems();
    net.unclog_link(a, b);
    assert!(net.is_reachable(&a, &b));
    net.unclog(a);
    assert!(net.is_reachable(&a, &b));
}

#[test]
fn removed_system_is_unreachable_and_unclogged() {
    let (mut net, a, b) = two_systems();
    net.clog(b);
    net.remove(&b);
    assert!(!net.is_registered(&b));
    assert!(!net.is_reachable(&a, &b));
    assert_eq!(net.send(a, b, false), SendOutcome::NotConnected);
    net.remove(&b);
    assert!(net.is_registered(&a));
}

#[test]
fn removal_does_not_reuse_ports() {
    let (mut net, _a, b) = two_systems();
    net.remove(&b);
    let c = net.register_system(addr(1, 1), "lookup-c", Transport::Tcp);
    assert_eq!(c.port, 2);
    assert_eq!(net.stat().system_count, 3);
}

#[test]
fn ipv6_addresses_are_kept() {
    let mut net = SimulationNetwork::new();
    let ip = IpAddress::V6(0x2001_0db8_0000_0000_0000_0000_0000_0001);
    let p = net.register_system(SocketAddress { ip, port: 7 }, (), Transport::Local);
    assert_eq!(p.socket_address(), SocketAddress { ip, port: 0 });
    assert!(net.is_registered(&SocketAddress { ip, port: 0 }));
}

#[test]
fn with_port_replaces_only_the_port() {
    let a = addr(3, 4);
    assert_eq!(a.with_port(99), addr(3, 99));
    assert_eq!(SystemPath::new(Transport::Udp, a.ip, 5).socket_address(), addr(3, 5));
}
