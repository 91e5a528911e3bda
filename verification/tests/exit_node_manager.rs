use exit_node_manager::ip::{IpAddress, IpMap};
use exit_node_manager::manager::{ExitNodeError, ExitNodeManager, Step};
use exit_node_manager::route::{ExitNodeConfig, Route, RouteCommand};

fn v4(a: u8, b: u8, c: u8, d: u8) -> IpAddress {
    IpAddress::V4(u32::from_be_bytes([a, b, c, d]))
}

/// What a command does, for comparisons: (added?, interface, destination, prefix).
fn describe(command: &RouteCommand) -> (bool, String, IpAddress, u8) {
    match command {
        RouteCommand::AddIpv4Route { interface, address, prefix, .. } => {
            (true, interface.clone(), IpAddress::V4(*address), *prefix)
        }
        RouteCommand::AddIpv6Route { interface, address, prefix, .. } => {
            (true, interface.clone(), IpAddress::V6(*address), *prefix)
        }
        RouteCommand::RemoveIpv4Route { interface, address, prefix } => {
            (false, interface.clone(), IpAddress::V4(*address), *prefix)
        }
        RouteCommand::RemoveIpv6Route { interface, address, prefix } => {
            (false, interface.clone(), IpAddress::V6(*address), *prefix)
        }
    }
}

/// Drive an operation to its end, answering the n-th command with `outcome(n)`.
fn drive(
    manager: &mut ExitNodeManager,
    first: Step,
    mut outcome: impl FnMut(usize) -> Result<(), String>,
) -> (Result<(), ExitNodeError>, Vec<(bool, String, IpAddress, u8)>) {
    let mut step = first;
    let mut commands = Vec::new();
    loop {
        match step {
            Step::Run(command) => {
                let n = commands.len();
                commands.push(describe(&command));
                assert!(manager.in_progress());
                step = manager.resume(outcome(n));
            }
            Step::Done(result) => {
                assert!(!manager.in_progress());
                return (result, commands);
            }
        }
    }
}

fn update(
    manager: &mut ExitNodeManager,
    ips: Vec<IpAddress>,
    outcome: impl FnMut(usize) -> Result<(), String>,
) -> (Result<(), ExitNodeError>, Vec<(bool, String, IpAddress, u8)>) {
    let first = manager.update_exit_nodes(ips);
    drive(manager, first, outcome)
}

fn config(ip: IpAddress, priority: u32) -> ExitNodeConfig {
    ExitNodeConfig { is_exit_node: true, virtual_ip: ip, real_ip: ip, priority, prevent_loop: true }
}

#[test]
fn test_exit_node_manager_basic() {
    let manager = ExitNodeManager::new("tun0".to_string());
    let status = manager.get_exit_node_status();
    assert!(status.exit_nodes.is_empty());
    assert!(status.virtual_to_real_mapping.v4.is_empty());
    assert!(status.virtual_to_real_mapping.v6.is_empty());
    assert_eq!(status.active_routes_count, 0);
    assert_eq!(manager.get_best_exit_node(), None);
    assert!(!manager.in_progress());
}

#[test]
fn update_configures_exit_nodes_in_order() {
    let mut manager = ExitNodeManager::new("tun0".to_string());
    let a = v4(10, 0, 0, 1);
    let b = v4(10, 0, 0, 2);
    let (result, commands) = update(&mut manager, vec![a, b], |_| Ok(()));
    assert!(result.is_ok());
    assert_eq!(
        commands,
        vec![(true, "tun0".to_string(), a, 32), (true, "tun0".to_string(), b, 32)]
    );
    let status = manager.get_exit_node_status();
    assert_eq!(status.exit_nodes, vec![config(a, 0), config(b, 1)]);
    assert_eq!(status.active_routes_count, 2);
    assert_eq!(manager.get_best_exit_node(), Some(config(a, 0)));
    assert!(manager.is_exit_node_ip(&a));
    assert!(manager.is_exit_node_ip(&b));
    assert!(!manager.is_exit_node_ip(&v4(10, 0, 0, 3)));
    assert_eq!(manager.get_real_ip(&b), Some(b));
    assert_eq!(manager.get_real_ip(&v4(10, 0, 0, 3)), None);
}

#[test]
fn loop_prevention_routes_have_host_prefix_and_offset_metric() {
    let mut manager = ExitNodeManager::new("tun0".to_string());
    let a = v4(192, 168, 1, 10);
    let b = IpAddress::V6(0x2001_0db8_0000_0000_0000_0000_0000_0001);
    let (result, _) = update(&mut manager, vec![a, b], |_| Ok(()));
    assert!(result.is_ok());
    let routes = manager.active_routes();
    assert_eq!(
        routes[0],
        Route {
            destination: a,
            prefix: 32,
            gateway: Some(a),
            ifindex: Some(1),
            metric: Some(100),
            exit_node_config: Some(config(a, 0)),
        }
    );
    assert_eq!(
        routes[1],
        Route {
            destination: b,
            prefix: 32,
            gateway: Some(b),
            ifindex: Some(1),
            metric: Some(101),
            exit_node_config: Some(config(b, 1)),
        }
    );
}

#[test]
fn ipv6_exit_node_uses_ipv6_command() {
    let mut manager = ExitNodeManager::new("tun1".to_string());
    let b = IpAddress::V6(1);
    let first = manager.update_exit_nodes(vec![b]);
    match first {
        Step::Run(RouteCommand::AddIpv6Route { interface, address, prefix, gateway, cost }) => {
            assert_eq!(gateway, None);
            assert_eq!(cost, None);
            assert_eq!(interface, "tun1");
            assert_eq!(address, 1);
            assert_eq!(prefix, 32);
        }
        _ => panic!("expected an IPv6 route addition"),
    }
}

#[test]
fn update_without_exit_nodes_fails() {
    let mut manager = ExitNodeManager::new("tun0".to_string());
    let (result, commands) = update(&mut manager, vec![], |_| Ok(()));
    assert!(matches!(result, Err(ExitNodeError::NoExitNodesResolved)));
    assert!(commands.is_empty());
    assert_eq!(manager.get_best_exit_node(), None);
}

#[test]
fn update_without_exit_nodes_still_removes_old_routes() {
    let mut manager = ExitNodeManager::new("tun0".to_string());
    let a = v4(10, 0, 0, 1);
    let (result, _) = update(&mut manager, vec![a], |_| Ok(()));
    assert!(result.is_ok());
    let (result, commands) = update(&mut manager, vec![], |_| Ok(()));
    assert!(matches!(result, Err(ExitNodeError::NoExitNodesResolved)));
    assert_eq!(commands, vec![(false, "tun0".to_string(), a, 32)]);
    let status = manager.get_exit_node_status();
    assert!(status.exit_nodes.is_empty());
    assert_eq!(status.active_routes_count, 0);
    assert!(!manager.is_exit_node_ip(&a));
}

#[test]
fn failed_route_addition_stops_update() {
    let mut manager = ExitNodeManager::new("tun0".to_string());
    let a = v4(10, 0, 0, 1);
    let b = v4(10, 0, 0, 2);
    let c = v4(10, 0, 0, 3);
    let (result, commands) = update(&mut manager, vec![a, b, c], |n| {
        if n == 1 { Err("permission denied".to_string()) } else { Ok(()) }
    });
    match result {
        Err(ExitNodeError::RouteAdditionFailed(message)) => assert_eq!(message, "permission denied"),
        _ => panic!("expected a failed route addition"),
    }
    assert_eq!(commands.len(), 2);
    let status = manager.get_exit_node_status();
    assert_eq!(status.exit_nodes.len(), 3);
    assert_eq!(status.active_routes_count, 1);
    assert_eq!(manager.active_routes()[0].destination, a);
    assert!(manager.is_exit_node_ip(&c));
}

#[test]
fn cleanup_removes_routes_newest_first_despite_failures() {
    let mut manager = ExitNodeManager::new("tun0".to_string());
    let a = v4(10, 0, 0, 1);
    let b = v4(10, 0, 0, 2);
    let (result, _) = update(&mut manager, vec![a, b], |_| Ok(()));
    assert!(result.is_ok());
    let first = manager.setup_default_route();
    let (result, _) = drive(&mut manager, first, |_| Ok(()));
    assert!(result.is_ok());
    let first = manager.cleanup_routes();
    let (result, commands) = drive(&mut manager, first, |_| Err("gone".to_string()));
    assert!(result.is_ok());
    assert_eq!(
        commands,
        vec![
            (false, "tun0".to_string(), IpAddress::V4(0), 0),
            (false, "tun0".to_string(), b, 32),
            (false, "tun0".to_string(), a, 32),
        ]
    );
    let status = manager.get_exit_node_status();
    assert!(status.exit_nodes.is_empty());
    assert_eq!(status.active_routes_count, 0);
    assert!(!manager.is_exit_node_ip(&a));
    assert_eq!(manager.get_best_exit_node(), None);
}

#[test]
fn update_replaces_previous_exit_nodes() {
    let mut manager = ExitNodeManager::new("tun0".to_string());
    let a = v4(10, 0, 0, 1);
    let b = v4(10, 0, 0, 2);
    let (result, _) = update(&mut manager, vec![a], |_| Ok(()));
    assert!(result.is_ok());
    let (result, commands) = update(&mut manager, vec![b], |_| Ok(()));
    assert!(result.is_ok());
    assert_eq!(
        commands,
        vec![(false, "tun0".to_string(), a, 32), (true, "tun0".to_string(), b, 32)]
    );
    assert!(!manager.is_exit_node_ip(&a));
    assert_eq!(manager.get_best_exit_node(), Some(config(b, 0)));
    assert_eq!(manager.get_exit_node_status().active_routes_count, 1);
}

#[test]
fn default_route_points_all_traffic_at_tun() {
    let mut manager = ExitNodeManager::new("tun0".to_string());
    let first = manager.setup_default_route();
    let (result, commands) = drive(&mut manager, first, |_| Ok(()));
    assert!(result.is_ok());
    assert_eq!(commands, vec![(true, "tun0".to_string(), IpAddress::V4(0), 0)]);
    assert_eq!(
        manager.active_routes()[0],
        Route {
            destination: IpAddress::V4(0),
            prefix: 0,
            gateway: None,
            ifindex: Some(1),
            metric: Some(100),
            exit_node_config: None,
        }
    );
}

#[test]
fn failed_default_route_is_not_recorded() {
    let mut manager = ExitNodeManager::new("tun0".to_string());
    let first = manager.setup_default_route();
    let (result, _) = drive(&mut manager, first, |_| Err("busy".to_string()));
    match result {
        Err(ExitNodeError::RouteAdditionFailed(message)) => assert_eq!(message, "busy"),
        _ => panic!("expected a failed route addition"),
    }
    assert_eq!(manager.get_exit_node_status().active_routes_count, 0);
}

#[test]
fn duplicate_exit_nodes_share_one_mapping_entry() {
    let mut manager = ExitNodeManager::new("tun0".to_string());
    let a = v4(10, 0, 0, 1);
    let (result, commands) = update(&mut manager, vec![a, a], |_| Ok(()));
    assert!(result.is_ok());
    assert_eq!(commands.len(), 2);
    let status = manager.get_exit_node_status();
    assert_eq!(status.exit_nodes, vec![config(a, 0), config(a, 1)]);
    assert_eq!(status.virtual_to_real_mapping.v4.len(), 1);
}

#[test]
fn ip_map_keeps_families_apart() {
    let mut map = IpMap::new();
    map.insert(IpAddress::V4(1), IpAddress::V4(2));
    map.insert(IpAddress::V6(1), IpAddress::V6(3));
    assert_eq!(map.get(&IpAddress::V4(1)), Some(IpAddress::V4(2)));
    assert_eq!(map.get(&IpAddress::V6(1)), Some(IpAddress::V6(3)));
    assert!(!map.contains_key(&IpAddress::V4(3)));
    let copy = map.snapshot();
    map.clear();
    assert!(!map.contains_key(&IpAddress::V4(1)));
    assert!(copy.contains_key(&IpAddress::V4(1)));
}

#[test]
fn route_builders_set_one_field_each() {
    let route = Route::new(v4(1, 2, 3, 4), 24)
        .with_gateway(v4(1, 2, 3, 1))
        .with_ifindex(7)
        .with_metric(5);
    assert_eq!(route.destination, v4(1, 2, 3, 4));
    assert_eq!(route.prefix, 24);
    assert_eq!(route.gateway, Some(v4(1, 2, 3, 1)));
    assert_eq!(route.ifindex, Some(7));
    assert_eq!(route.metric, Some(5));
    assert_eq!(route.exit_node_config, None);
    assert!(IpAddress::unspecified_v4().is_ipv4());
    assert!(!IpAddress::V6(0).is_ipv4());
}

#[test]
fn update_removes_default_route_and_does_not_restore_it() {
    let mut manager = ExitNodeManager::new("tun0".to_string());
    let first = manager.setup_default_route();
    let (result, _) = drive(&mut manager, first, |_| Ok(()));
    assert!(result.is_ok());
    let a = v4(10, 0, 0, 1);
    let b = v4(10, 0, 0, 2);
    let (result, commands) = update(&mut manager, vec![a, b], |_| Ok(()));
    assert!(result.is_ok());
    assert!(commands.contains(&(false, "tun0".to_string(), IpAddress::V4(0), 0)));
    assert!(commands.iter().filter(|c| c.0).all(|c| c.3 == 32));
    assert_eq!(manager.get_exit_node_status().active_routes_count, 2);
}

#[test]
fn failed_update_still_maps_exactly_the_new_nodes() {
    let mut manager = ExitNodeManager::new("tun0".to_string());
    let old = v4(10, 0, 0, 9);
    let (result, _) = update(&mut manager, vec![old], |_| Ok(()));
    assert!(result.is_ok());
    let a = v4(10, 0, 0, 1);
    let b = v4(10, 0, 0, 2);
    let (result, _) = update(&mut manager, vec![a, b], |n| if n == 1 { Err("no".to_string()) } else { Ok(()) });
    assert!(result.is_err());
    assert!(!manager.is_exit_node_ip(&old));
    assert_eq!(manager.get_real_ip(&a), Some(a));
    assert_eq!(manager.get_real_ip(&b), Some(b));
    assert_eq!(manager.get_best_exit_node(), Some(config(a, 0)));
}

#[test]
fn update_result_does_not_depend_on_earlier_state() {
    let a = v4(10, 0, 0, 1);
    let b = v4(10, 0, 0, 2);
    let mut used = ExitNodeManager::new("tun0".to_string());
    let (r1, _) = update(&mut used, vec![a], |_| Ok(()));
    assert!(r1.is_ok());
    let (r1, _) = update(&mut used, vec![b, a], |_| Ok(()));
    let mut fresh = ExitNodeManager::new("tun0".to_string());
    let (r2, _) = update(&mut fresh, vec![b, a], |_| Ok(()));
    assert_eq!(r1.is_ok(), r2.is_ok());
    let s1 = used.get_exit_node_status();
    let s2 = fresh.get_exit_node_status();
    assert_eq!(s1.exit_nodes, s2.exit_nodes);
    assert_eq!(s1.active_routes_count, s2.active_routes_count);
    assert_eq!(used.active_routes(), fresh.active_routes());
}

#[test]
fn cleanup_removes_only_routes_whose_addition_succeeded() {
    let mut manager = ExitNodeManager::new("tun0".to_string());
    let a = v4(10, 0, 0, 1);
    let b = v4(10, 0, 0, 2);
    let (result, _) = update(&mut manager, vec![a, b], |n| if n == 1 { Err("no".to_string()) } else { Ok(()) });
    assert!(result.is_err());
    let first = manager.setup_default_route();
    let (result, _) = drive(&mut manager, first, |_| Err("no".to_string()));
    assert!(result.is_err());
    let first = manager.setup_default_route();
    let (result, _) = drive(&mut manager, first, |_| Ok(()));
    assert!(result.is_ok());
    let first = manager.cleanup_routes();
    let (result, commands) = drive(&mut manager, first, |_| Ok(()));
    assert!(result.is_ok());
    assert_eq!(
        commands,
        vec![(false, "tun0".to_string(), IpAddress::V4(0), 0), (false, "tun0".to_string(), a, 32)]
    );
}
