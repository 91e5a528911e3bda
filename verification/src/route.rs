use vstd::prelude::*;
use crate::ip::IpAddress;

verus! {

/// How an exit node takes part in routing.
#[derive(Clone, Copy, Debug, PartialEq, Eq, Structural)]
pub struct ExitNodeConfig {
    pub is_exit_node: bool,
    /// Address of the exit node inside the virtual network.
    pub virtual_ip: IpAddress,
    /// Public address that the virtual address resolves to.
    pub real_ip: IpAddress,
    /// Position in the list of exit nodes: lower is preferred.
    pub priority: u32,
    pub prevent_loop: bool,
}

/// A route that the manager installs in the system routing table.
#[derive(Clone, Copy, Debug, PartialEq, Eq, Structural)]
pub struct Route {
    pub destination: IpAddress,
    pub prefix: u8,
    pub gateway: Option<IpAddress>,
    pub ifindex: Option<u32>,
    pub metric: Option<u32>,
    pub exit_node_config: Option<ExitNodeConfig>,
}

impl Route {
    /// A route to `destination/prefix` with nothing else set.
    pub fn new(destination: IpAddress, prefix: u8) -> (r: Route)
        ensures
            r == (Route {
                destination,
                prefix,
                gateway: None,
                ifindex: None,
                metric: None,
                exit_node_config: None,
            }),
    {
        Route {
            destination,
            prefix,
            gateway: None,
            ifindex: None,
            metric: None,
            exit_node_config: None,
        }
    }

    pub fn with_gateway(self, gateway: IpAddress) -> (r: Route)
        ensures
            r == (Route { gateway: Some(gateway), ..self }),
    {
        Route { gateway: Some(gateway), ..self }
    }

    pub fn with_ifindex(self, ifindex: u32) -> (r: Route)
        ensures
            r == (Route { ifindex: Some(ifindex), ..self }),
    {
        Route { ifindex: Some(ifindex), ..self }
    }

    pub fn with_metric(self, metric: u32) -> (r: Route)
        ensures
            r == (Route { metric: Some(metric), ..self }),
    {
        Route { metric: Some(metric), ..self }
    }

    pub fn with_exit_node_config(self, config: ExitNodeConfig) -> (r: Route)
        ensures
            r == (Route { exit_node_config: Some(config), ..self }),
    {
        Route { exit_node_config: Some(config), ..self }
    }
}

/// A change to the system routing table, on the interface named by `interface`.
#[allow(inconsistent_fields)]
pub enum RouteCommand {
    AddIpv4Route { interface: String, address: u32, prefix: u8, gateway: Option<IpAddress>, cost: Option<i32> },
    AddIpv6Route { interface: String, address: u128, prefix: u8, gateway: Option<IpAddress>, cost: Option<i32> },
    RemoveIpv4Route { interface: String, address: u32, prefix: u8 },
    RemoveIpv6Route { interface: String, address: u128, prefix: u8 },
}

/// Whether a command adds or removes a route.
#[derive(Clone, Copy, Debug, PartialEq, Eq, Structural)]
pub enum RouteChange {
    Add,
    Remove,
}

/// What a [`RouteCommand`] asks for, with the interface name as a sequence of characters.
pub struct RouteCommandModel {
    pub change: RouteChange,
    pub interface: Seq<char>,
    pub destination: IpAddress,
    pub prefix: u8,
    /// Gateway asked for with an addition.
    pub gateway: Option<IpAddress>,
    /// Metric asked for with an addition.
    pub cost: Option<i32>,
}

impl View for RouteCommand {
    type V = RouteCommandModel;

    open spec fn view(&self) -> RouteCommandModel {
        match self {
            RouteCommand::AddIpv4Route { interface, address, prefix, gateway, cost } => RouteCommandModel {
                change: RouteChange::Add,
                interface: interface@,
                destination: IpAddress::V4(*address),
                prefix: *prefix,
                gateway: *gateway,
                cost: *cost,
            },
            RouteCommand::AddIpv6Route { interface, address, prefix, gateway, cost } => RouteCommandModel {
                change: RouteChange::Add,
                interface: interface@,
                destination: IpAddress::V6(*address),
                prefix: *prefix,
                gateway: *gateway,
                cost: *cost,
            },
            RouteCommand::RemoveIpv4Route { interface, address, prefix } => RouteCommandModel {
                change: RouteChange::Remove,
                interface: interface@,
                destination: IpAddress::V4(*address),
                prefix: *prefix,
                gateway: None,
                cost: None,
            },
            RouteCommand::RemoveIpv6Route { interface, address, prefix } => RouteCommandModel {
                change: RouteChange::Remove,
                interface: interface@,
                destination: IpAddress::V6(*address),
                prefix: *prefix,
                gateway: None,
                cost: None,
            },
        }
    }
}

/// The command that installs `route` on `interface`. Only the destination and
/// the prefix of the route reach the routing table, with no gateway or metric.
pub open spec fn add_command(interface: Seq<char>, route: Route) -> RouteCommandModel {
    RouteCommandModel {
        change: RouteChange::Add,
        interface,
        destination: route.destination,
        prefix: route.prefix,
        gateway: None,
        cost: None,
    }
}

/// The command that takes `route` off `interface`.
pub open spec fn remove_command(interface: Seq<char>, route: Route) -> RouteCommandModel {
    RouteCommandModel {
        change: RouteChange::Remove,
        interface,
        destination: route.destination,
        prefix: route.prefix,
        gateway: None,
        cost: None,
    }
}

/// The command that installs `route` on `interface`, chosen by address family.
pub fn add_route_command(interface: &String, route: &Route) -> (c: RouteCommand)
    ensures
        c@ == add_command(interface@, *route),
{
    match route.destination {
        IpAddress::V4(address) => RouteCommand::AddIpv4Route {
            interface: interface.clone(),
            address,
            prefix: route.prefix,
            gateway: None,
            cost: None,
        },
        IpAddress::V6(address) => RouteCommand::AddIpv6Route {
            interface: interface.clone(),
            address,
            prefix: route.prefix,
            gateway: None,
            cost: None,
        },
    }
}

/// The command that removes `route` from `interface`, chosen by address family.
pub fn remove_route_command(interface: &String, route: &Route) -> (c: RouteCommand)
    ensures
        c@ == remove_command(interface@, *route),
{
    match route.destination {
        IpAddress::V4(address) => RouteCommand::RemoveIpv4Route {
            interface: interface.clone(),
            address,
            prefix: route.prefix,
        },
        IpAddress::V6(address) => RouteCommand::RemoveIpv6Route {
            interface: interface.clone(),
            address,
            prefix: route.prefix,
        },
    }
}

} // verus!
