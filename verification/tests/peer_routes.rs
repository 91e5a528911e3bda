use exit_node_manager::gateway::{
    address_from_le_u32, netstat_gateway_candidates, parse_proc_net_route, route_print_gateway_candidates,
};
use exit_node_manager::ip::IpAddress;
use exit_node_manager::peer_routes::{
    get_interface_for_ip, NetworkInterface, PeerRouteAction, PeerRouteError, PeerRouteManager,
};
use exit_node_manager::route::RouteCommand;

fn v4(a: u8, b: u8, c: u8, d: u8) -> IpAddress {
    IpAddress::V4(u32::from_be_bytes([a, b, c, d]))
}

fn chars(s: &str) -> Vec<char> {
    s.chars().collect()
}

fn text(v: &[char]) -> String {
    v.iter().collect()
}

/// Run an addition to its end with the given answers.
fn add(
    manager: &mut PeerRouteManager,
    peer_id: u32,
    remote_addr: Option<&str>,
    addrs: Result<Vec<IpAddress>, String>,
    gateway: Result<Option<IpAddress>, String>,
    interface: Result<Option<String>, String>,
    outcome: Result<(), String>,
) -> (Result<(), PeerRouteError>, Vec<RouteCommand>) {
    let mut commands = Vec::new();
    let mut answers = (Some(addrs), Some(gateway), Some(interface), Some(outcome));
    let mut action = manager.add_peer_route(peer_id, remote_addr.map(|s| s.to_string()));
    loop {
        action = match action {
            PeerRouteAction::ResolveRemoteAddr(_) => manager.on_remote_addresses(answers.0.take().unwrap()),
            PeerRouteAction::FindDefaultGateway => manager.on_default_gateway(answers.1.take().unwrap()),
            PeerRouteAction::FindInterface(_) => manager.on_interface(answers.2.take().unwrap()),
            PeerRouteAction::Run(command) => {
                commands.push(command);
                manager.on_route_added(answers.3.take().unwrap())
            }
            PeerRouteAction::Done(result) => return (result, commands),
        };
    }
}

fn add_ok(manager: &mut PeerRouteManager, peer_id: u32, ip: IpAddress, interface: &str) {
    let (result, _) = add(
        manager,
        peer_id,
        Some("udp://example:11010"),
        Ok(vec![ip]),
        Ok(Some(v4(192, 168, 1, 1))),
        Ok(Some(interface.to_string())),
        Ok(()),
    );
    assert!(result.is_ok());
}

#[test]
fn test_peer_route_manager() {
    let manager = PeerRouteManager::new();
    let routes = manager.list_routes();
    assert!(routes.is_empty());
}

#[test]
fn added_peer_route_is_host_route_with_metric_100() {
    let mut manager = PeerRouteManager::default();
    let mut action = manager.add_peer_route(7, Some("udp://1.2.3.4:11010".to_string()));
    match &action {
        PeerRouteAction::ResolveRemoteAddr(url) => assert_eq!(url, "udp://1.2.3.4:11010"),
        _ => panic!("expected a resolution"),
    }
    action = manager.on_remote_addresses(Ok(vec![v4(1, 2, 3, 4), v4(5, 6, 7, 8)]));
    assert!(matches!(action, PeerRouteAction::FindDefaultGateway));
    action = manager.on_default_gateway(Ok(Some(v4(192, 168, 1, 1))));
    match action {
        PeerRouteAction::FindInterface(ip) => assert_eq!(ip, v4(1, 2, 3, 4)),
        _ => panic!("expected an interface lookup"),
    }
    action = manager.on_interface(Ok(Some("eth0".to_string())));
    match action {
        PeerRouteAction::Run(RouteCommand::AddIpv4Route { interface, address, prefix, gateway, cost }) => {
            assert_eq!(gateway, Some(v4(192, 168, 1, 1)));
            assert_eq!(interface, "eth0");
            assert_eq!(address, u32::from_be_bytes([1, 2, 3, 4]));
            assert_eq!(prefix, 32);
            assert_eq!(cost, Some(100));
        }
        _ => panic!("expected an IPv4 route addition"),
    }
    action = manager.on_route_added(Ok(()));
    assert!(matches!(action, PeerRouteAction::Done(Ok(()))));
    let routes = manager.list_routes();
    assert_eq!(routes.len(), 1);
    assert_eq!(routes[0].peer_id, 7);
    assert_eq!(routes[0].destination, v4(1, 2, 3, 4));
    assert_eq!(routes[0].interface, "eth0");
    assert_eq!(routes[0].prefix, 32);
}

#[test]
fn ipv6_peer_gets_ipv6_route() {
    let mut manager = PeerRouteManager::new();
    let (result, commands) = add(
        &mut manager,
        1,
        Some("tcp://[::1]:11010"),
        Ok(vec![IpAddress::V6(1)]),
        Ok(Some(v4(10, 0, 0, 1))),
        Ok(Some("eth1".to_string())),
        Err("exists".to_string()),
    );
    assert!(matches!(commands[0], RouteCommand::AddIpv6Route { address: 1, prefix: 32, cost: Some(100), .. }));
    match result {
        Err(PeerRouteError::RouteAdditionFailed { ipv6, message }) => {
            assert!(ipv6);
            assert_eq!(message, "exists");
        }
        _ => panic!("expected a failed route addition"),
    }
    assert!(manager.list_routes().is_empty());
}

#[test]
fn each_failure_is_reported_and_records_nothing() {
    let mut manager = PeerRouteManager::new();
    let gw = Ok(Some(v4(10, 0, 0, 1)));
    let iface = || Ok(Some("eth0".to_string()));
    let (r, _) = add(&mut manager, 1, None, Ok(vec![v4(1, 1, 1, 1)]), gw.clone(), iface(), Ok(()));
    assert!(matches!(r, Err(PeerRouteError::RemoteAddrMissing)));
    let (r, _) = add(&mut manager, 1, Some("x"), Err("bad url".to_string()), gw.clone(), iface(), Ok(()));
    assert!(matches!(r, Err(PeerRouteError::RemoteAddrUnresolvable(ref e)) if e == "bad url"));
    let (r, _) = add(&mut manager, 1, Some("x"), Ok(vec![]), gw.clone(), iface(), Ok(()));
    assert!(matches!(r, Err(PeerRouteError::NoSocketAddresses)));
    let (r, _) = add(&mut manager, 1, Some("x"), Ok(vec![v4(1, 1, 1, 1)]), Err("io".to_string()), iface(), Ok(()));
    assert!(matches!(r, Err(PeerRouteError::GatewayLookupFailed(ref e)) if e == "io"));
    let (r, _) = add(&mut manager, 1, Some("x"), Ok(vec![v4(1, 1, 1, 1)]), Ok(None), iface(), Ok(()));
    assert!(matches!(r, Err(PeerRouteError::NoDefaultGateway)));
    let (r, _) = add(&mut manager, 1, Some("x"), Ok(vec![v4(1, 1, 1, 1)]), gw.clone(), Err("sock".to_string()), Ok(()));
    assert!(matches!(r, Err(PeerRouteError::InterfaceLookupFailed(ref e)) if e == "sock"));
    let (r, _) = add(&mut manager, 1, Some("x"), Ok(vec![v4(1, 1, 1, 1)]), gw.clone(), Ok(None), Ok(()));
    assert!(matches!(r, Err(PeerRouteError::NoInterface)));
    let (r, commands) =
        add(&mut manager, 1, Some("x"), Ok(vec![v4(1, 1, 1, 1)]), gw, iface(), Err("denied".to_string()));
    assert!(matches!(r, Err(PeerRouteError::RouteAdditionFailed { ipv6: false, .. })));
    assert_eq!(commands.len(), 1);
    assert!(manager.list_routes().is_empty());
}

#[test]
fn removing_a_peer_removes_only_its_routes_in_order() {
    let mut manager = PeerRouteManager::new();
    add_ok(&mut manager, 1, v4(1, 1, 1, 1), "eth0");
    add_ok(&mut manager, 2, v4(2, 2, 2, 2), "eth0");
    add_ok(&mut manager, 1, IpAddress::V6(9), "wlan0");
    let commands = manager.remove_peer_routes(1);
    assert_eq!(commands.len(), 2);
    match &commands[0] {
        RouteCommand::RemoveIpv4Route { interface, address, prefix } => {
            assert_eq!(interface, "eth0");
            assert_eq!(*address, u32::from_be_bytes([1, 1, 1, 1]));
            assert_eq!(*prefix, 32);
        }
        _ => panic!("expected an IPv4 removal"),
    }
    match &commands[1] {
        RouteCommand::RemoveIpv6Route { interface, address, prefix } => {
            assert_eq!(interface, "wlan0");
            assert_eq!(*address, 9);
            assert_eq!(*prefix, 32);
        }
        _ => panic!("expected an IPv6 removal"),
    }
    let routes = manager.list_routes();
    assert_eq!(routes.len(), 1);
    assert_eq!(routes[0].peer_id, 2);
    assert!(manager.remove_peer_routes(1).is_empty());
}

#[test]
fn removing_a_new_peer_undoes_its_addition() {
    let mut manager = PeerRouteManager::new();
    add_ok(&mut manager, 2, v4(2, 2, 2, 2), "eth0");
    add_ok(&mut manager, 3, v4(3, 3, 3, 3), "eth0");
    add_ok(&mut manager, 4, v4(4, 4, 4, 4), "eth1");
    let commands = manager.remove_peer_routes(4);
    assert_eq!(commands.len(), 1);
    let routes = manager.list_routes();
    assert_eq!(routes.iter().map(|r| r.peer_id).collect::<Vec<_>>(), vec![2, 3]);
}

#[test]
fn interface_lookup_takes_first_interface_with_address() {
    let interfaces = vec![
        NetworkInterface { name: "lo".to_string(), ips: vec![v4(127, 0, 0, 1)] },
        NetworkInterface { name: "eth0".to_string(), ips: vec![IpAddress::V6(5), v4(192, 168, 1, 100)] },
        NetworkInterface { name: "eth1".to_string(), ips: vec![v4(192, 168, 1, 100)] },
    ];
    assert_eq!(get_interface_for_ip(&interfaces, v4(192, 168, 1, 100)), Some("eth0".to_string()));
    assert_eq!(get_interface_for_ip(&interfaces, v4(127, 0, 0, 1)), Some("lo".to_string()));
    assert_eq!(get_interface_for_ip(&interfaces, v4(10, 0, 0, 1)), None);
}

#[test]
fn proc_net_route_gives_little_endian_gateway() {
    let content = "Iface\tDestination\tGateway \tFlags\tRefCnt\tUse\tMetric\tMask\t\tMTU\tWindow\tIRTT\n\
                   eth0\t0001A8C0\t00000000\t0001\t0\t0\t100\t00FFFFFF\t0\t0\t0\n\
                   eth0\t00000000\t0101A8C0\t0003\t0\t0\t100\t00000000\t0\t0\t0\n";
    assert_eq!(parse_proc_net_route(&chars(content)), Some(v4(192, 168, 1, 1)));
    assert_eq!(address_from_le_u32(0x0101A8C0), v4(192, 168, 1, 1));
}

#[test]
fn proc_net_route_skips_header_short_lines_and_bad_gateways() {
    let header_only = "Iface\tDestination\tGateway\tFlags\tRefCnt\tUse\tMetric\tMask\n";
    assert_eq!(parse_proc_net_route(&chars(header_only)), None);
    assert_eq!(parse_proc_net_route(&chars("")), None);
    let header_looks_default = "x 00000000 0100000A a b c d e\n";
    assert_eq!(parse_proc_net_route(&chars(header_looks_default)), None);
    let content = "hdr\n\
                   eth0 00000000 0100000A 3\n\
                   eth0 00000000 zz 3 0 0 0 0\n\
                   eth1 00000000 +0200000A 3 0 0 0 0\n";
    assert_eq!(parse_proc_net_route(&chars(content)), Some(v4(10, 0, 0, 2)));
}

#[test]
fn route_print_candidates_are_third_fields() {
    let output = "===========================================================================\r\n\
                  Active Routes:\r\n\
                  Network Destination        Netmask          Gateway       Interface  Metric\r\n\
                  \x20         0.0.0.0          0.0.0.0      192.168.1.1    192.168.1.100     25\r\n\
                  0.0.0.0 x\r\n";
    let candidates = route_print_gateway_candidates(&chars(output));
    assert_eq!(candidates.iter().map(|c| text(c)).collect::<Vec<_>>(), vec!["192.168.1.1".to_string()]);
}

#[test]
fn netstat_candidates_are_second_fields_of_default_lines() {
    let output = "Routing tables\n\nInternet:\nDestination        Gateway            Flags        Netif Expire\n\
                  default            192.168.1.1        UGScg          en0\n\
                  \x20 default   fe80::1%utun0   UGcIg  utun0\n\
                  defaults\n\
                  10.0.0.0/8         link#4             UCS            en0\n";
    let candidates = netstat_gateway_candidates(&chars(output));
    assert_eq!(
        candidates.iter().map(|c| text(c)).collect::<Vec<_>>(),
        vec!["192.168.1.1".to_string(), "fe80::1%utun0".to_string()]
    );
}
