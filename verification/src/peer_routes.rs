//! Routes to the public addresses of connected peers: one host route per
//! peer connection, through the local default gateway's interface, removed
//! again when the peer goes away.

use vstd::prelude::*;
use crate::ip::IpAddress;
use crate::route::{RouteChange, RouteCommand, RouteCommandModel};

verus! {

/// Identifier of a peer.
pub type PeerId = u32;

/// Prefix length of a peer route: a single host.
pub const PEER_ROUTE_PREFIX: u8 = 32;

/// Metric that peer routes are installed with.
pub const PEER_ROUTE_METRIC: i32 = 100;

/// A route installed for a peer connection.
pub struct PeerRoute {
    pub peer_id: PeerId,
    pub destination: IpAddress,
    pub interface: String,
    pub prefix: u8,
}

pub struct PeerRouteModel {
    pub peer_id: PeerId,
    pub destination: IpAddress,
    pub interface: Seq<char>,
    pub prefix: u8,
}

impl View for PeerRoute {
    type V = PeerRouteModel;

    open spec fn view(&self) -> PeerRouteModel {
        PeerRouteModel {
            peer_id: self.peer_id,
            destination: self.destination,
            interface: self.interface@,
            prefix: self.prefix,
        }
    }
}

impl PeerRoute {
    /// A copy of the route.
    pub fn duplicate(&self) -> (r: PeerRoute)
        ensures
            r@ == self@,
    {
        PeerRoute {
            peer_id: self.peer_id,
            destination: self.destination,
            interface: self.interface.clone(),
            prefix: self.prefix,
        }
    }
}

/// The models of a list of routes.
pub open spec fn route_models(routes: Seq<PeerRoute>) -> Seq<PeerRouteModel> {
    routes.map_values(|r: PeerRoute| r@)
}

/// A network interface of the machine and its addresses.
pub struct NetworkInterface {
    pub name: String,
    pub ips: Vec<IpAddress>,
}

/// Name of the first interface in `interfaces` that has address `ip`.
pub open spec fn interface_with_ip(interfaces: Seq<NetworkInterface>, ip: IpAddress) -> Option<Seq<char>>
    decreases interfaces.len(),
{
    if interfaces.len() == 0 {
        None
    } else if interfaces[0].ips@.contains(ip) {
        Some(interfaces[0].name@)
    } else {
        interface_with_ip(interfaces.drop_first(), ip)
    }
}

fn contains_ip(ips: &Vec<IpAddress>, ip: IpAddress) -> (r: bool)
    ensures
        r == ips@.contains(ip),
{
    let mut j: usize = 0;
    while j < ips.len()
        invariant
            j <= ips.len(),
            forall|k: int| 0 <= k < j ==> ips@[k] != ip,
        decreases ips.len() - j,
    {
        if ips[j] == ip {
            assert(ips@[j as int] == ip);
            return true;
        }
        j = j + 1;
    }
    false
}

/// Name of the first interface in `interfaces` that has address `ip`.
pub fn get_interface_for_ip(interfaces: &Vec<NetworkInterface>, ip: IpAddress) -> (r: Option<String>)
    ensures
        match r {
            Some(name) => interface_with_ip(interfaces@, ip) == Some(name@),
            None => interface_with_ip(interfaces@, ip) is None,
        },
{
    let mut i: usize = 0;
    assert(interfaces@.skip(0) =~= interfaces@);
    while i < interfaces.len()
        invariant
            i <= interfaces.len(),
            interface_with_ip(interfaces@, ip) == interface_with_ip(interfaces@.skip(i as int), ip),
        decreases interfaces.len() - i,
    {
        let ghost rest = interfaces@.skip(i as int);
        assert(rest[0] == interfaces@[i as int]);
        assert(rest.drop_first() =~= interfaces@.skip(i + 1));
        let iface = &interfaces[i];
        if contains_ip(&iface.ips, ip) {
            return Some(iface.name.clone());
        }
        i = i + 1;
    }
    assert(interfaces@.skip(i as int).len() == 0);
    None
}

/// Why adding a peer route failed.
pub enum PeerRouteError {
    /// The tunnel information holds no remote address.
    RemoteAddrMissing,
    /// The remote address could not be turned into socket addresses.
    RemoteAddrUnresolvable(String),
    /// The remote address gave no socket address.
    NoSocketAddresses,
    /// Looking for the default gateway failed.
    GatewayLookupFailed(String),
    /// The system has no default gateway.
    NoDefaultGateway,
    /// Looking for the interface of the destination failed.
    InterfaceLookupFailed(String),
    /// No interface reaches the destination.
    NoInterface,
    /// The routing table refused the route.
    RouteAdditionFailed { ipv6: bool, message: String },
}

pub enum PeerRouteErrorModel {
    RemoteAddrMissing,
    RemoteAddrUnresolvable(Seq<char>),
    NoSocketAddresses,
    GatewayLookupFailed(Seq<char>),
    NoDefaultGateway,
    InterfaceLookupFailed(Seq<char>),
    NoInterface,
    RouteAdditionFailed { ipv6: bool, message: Seq<char> },
}

impl View for PeerRouteError {
    type V = PeerRouteErrorModel;

    open spec fn view(&self) -> PeerRouteErrorModel {
        match self {
            PeerRouteError::RemoteAddrMissing => PeerRouteErrorModel::RemoteAddrMissing,
            PeerRouteError::RemoteAddrUnresolvable(e) => PeerRouteErrorModel::RemoteAddrUnresolvable(e@),
            PeerRouteError::NoSocketAddresses => PeerRouteErrorModel::NoSocketAddresses,
            PeerRouteError::GatewayLookupFailed(e) => PeerRouteErrorModel::GatewayLookupFailed(e@),
            PeerRouteError::NoDefaultGateway => PeerRouteErrorModel::NoDefaultGateway,
            PeerRouteError::InterfaceLookupFailed(e) => PeerRouteErrorModel::InterfaceLookupFailed(e@),
            PeerRouteError::NoInterface => PeerRouteErrorModel::NoInterface,
            PeerRouteError::RouteAdditionFailed { ipv6, message } => PeerRouteErrorModel::RouteAdditionFailed {
                ipv6: *ipv6,
                message: message@,
            },
        }
    }
}

/// What adding a peer route asks its caller to do next.
pub enum PeerRouteAction {
    /// Turn the remote address into socket addresses and report them with
    /// [`PeerRouteManager::on_remote_addresses`].
    ResolveRemoteAddr(String),
    /// Look for the default gateway and report it with
    /// [`PeerRouteManager::on_default_gateway`].
    FindDefaultGateway,
    /// Look for the interface that reaches the address and report it with
    /// [`PeerRouteManager::on_interface`].
    FindInterface(IpAddress),
    /// Carry out the command and report its outcome with
    /// [`PeerRouteManager::on_route_added`].
    Run(RouteCommand),
    /// The operation is over.
    Done(Result<(), PeerRouteError>),
}

pub enum PeerRouteActionModel {
    ResolveRemoteAddr(Seq<char>),
    FindDefaultGateway,
    FindInterface(IpAddress),
    Run(RouteCommandModel),
    Done(Result<(), PeerRouteErrorModel>),
}

impl View for PeerRouteAction {
    type V = PeerRouteActionModel;

    open spec fn view(&self) -> PeerRouteActionModel {
        match self {
            PeerRouteAction::ResolveRemoteAddr(u) => PeerRouteActionModel::ResolveRemoteAddr(u@),
            PeerRouteAction::FindDefaultGateway => PeerRouteActionModel::FindDefaultGateway,
            PeerRouteAction::FindInterface(ip) => PeerRouteActionModel::FindInterface(*ip),
            PeerRouteAction::Run(c) => PeerRouteActionModel::Run(c@),
            PeerRouteAction::Done(Ok(())) => PeerRouteActionModel::Done(Ok(())),
            PeerRouteAction::Done(Err(e)) => PeerRouteActionModel::Done(Err(e@)),
        }
    }
}

/// The step that adding a peer route has reached.
pub enum PendingModel {
    Idle,
    Resolving { peer_id: PeerId },
    FindingGateway { peer_id: PeerId, remote_ip: IpAddress },
    FindingInterface { peer_id: PeerId, remote_ip: IpAddress, gateway: IpAddress },
    Adding { peer_id: PeerId, remote_ip: IpAddress, gateway: IpAddress, interface: Seq<char> },
}

/// The state of a peer-route manager.
pub struct PeerRouteManagerModel {
    /// Routes installed, in the order they were added.
    pub routes: Seq<PeerRouteModel>,
    pub pending: PendingModel,
}

/// The command that installs the host route to `destination` via `gateway`
/// on `interface`, with the peer-route metric.
pub open spec fn peer_route_add_command(interface: Seq<char>, destination: IpAddress, gateway: IpAddress) -> RouteCommandModel {
    RouteCommandModel {
        change: RouteChange::Add,
        interface,
        destination,
        prefix: PEER_ROUTE_PREFIX,
        gateway: Some(gateway),
        cost: Some(PEER_ROUTE_METRIC),
    }
}

/// The command that takes `route` off its interface.
pub open spec fn peer_route_remove_command(route: PeerRouteModel) -> RouteCommandModel {
    RouteCommandModel {
        change: RouteChange::Remove,
        interface: route.interface,
        destination: route.destination,
        prefix: route.prefix,
        gateway: None,
        cost: None,
    }
}

impl PeerRouteManagerModel {
    /// Every recorded route is a host route.
    pub open spec fn wf(self) -> bool {
        forall|i: int| 0 <= i < self.routes.len() ==> (#[trigger] self.routes[i]).prefix == PEER_ROUTE_PREFIX
    }

    /// Start adding a route for peer `peer_id`, whose connection has remote
    /// address `remote_addr` (a URL), if any.
    pub open spec fn start_add(self, peer_id: PeerId, remote_addr: Option<Seq<char>>) -> (
        PeerRouteManagerModel,
        PeerRouteActionModel,
    ) {
        match remote_addr {
            None => (
                PeerRouteManagerModel { pending: PendingModel::Idle, ..self },
                PeerRouteActionModel::Done(Err(PeerRouteErrorModel::RemoteAddrMissing)),
            ),
            Some(url) => (
                PeerRouteManagerModel { pending: PendingModel::Resolving { peer_id }, ..self },
                PeerRouteActionModel::ResolveRemoteAddr(url),
            ),
        }
    }

    /// Go on with the socket addresses of the remote address: the first one is the destination.
    pub open spec fn on_remote_addresses(self, peer_id: PeerId, result: Result<Seq<IpAddress>, Seq<char>>) -> (
        PeerRouteManagerModel,
        PeerRouteActionModel,
    ) {
        let idle = PeerRouteManagerModel { pending: PendingModel::Idle, ..self };
        match result {
            Err(e) => (idle, PeerRouteActionModel::Done(Err(PeerRouteErrorModel::RemoteAddrUnresolvable(e)))),
            Ok(addrs) => if addrs.len() == 0 {
                (idle, PeerRouteActionModel::Done(Err(PeerRouteErrorModel::NoSocketAddresses)))
            } else {
                (
                    PeerRouteManagerModel {
                        pending: PendingModel::FindingGateway { peer_id, remote_ip: addrs[0] },
                        ..self
                    },
                    PeerRouteActionModel::FindDefaultGateway,
                )
            },
        }
    }

    /// Go on with the default gateway: one must exist.
    pub open spec fn on_default_gateway(
        self,
        peer_id: PeerId,
        remote_ip: IpAddress,
        result: Result<Option<IpAddress>, Seq<char>>,
    ) -> (PeerRouteManagerModel, PeerRouteActionModel) {
        let idle = PeerRouteManagerModel { pending: PendingModel::Idle, ..self };
        match result {
            Err(e) => (idle, PeerRouteActionModel::Done(Err(PeerRouteErrorModel::GatewayLookupFailed(e)))),
            Ok(None) => (idle, PeerRouteActionModel::Done(Err(PeerRouteErrorModel::NoDefaultGateway))),
            Ok(Some(gateway)) => (
                PeerRouteManagerModel {
                    pending: PendingModel::FindingInterface { peer_id, remote_ip, gateway },
                    ..self
                },
                PeerRouteActionModel::FindInterface(remote_ip),
            ),
        }
    }

    /// Go on with the interface that reaches the destination: install the route there.
    pub open spec fn on_interface(
        self,
        peer_id: PeerId,
        remote_ip: IpAddress,
        gateway: IpAddress,
        result: Result<Option<Seq<char>>, Seq<char>>,
    ) -> (PeerRouteManagerModel, PeerRouteActionModel) {
        let idle = PeerRouteManagerModel { pending: PendingModel::Idle, ..self };
        match result {
            Err(e) => (idle, PeerRouteActionModel::Done(Err(PeerRouteErrorModel::InterfaceLookupFailed(e)))),
            Ok(None) => (idle, PeerRouteActionModel::Done(Err(PeerRouteErrorModel::NoInterface))),
            Ok(Some(interface)) => (
                PeerRouteManagerModel {
                    pending: PendingModel::Adding { peer_id, remote_ip, gateway, interface },
                    ..self
                },
                PeerRouteActionModel::Run(peer_route_add_command(interface, remote_ip, gateway)),
            ),
        }
    }

    /// Finish with the outcome of installing the route: record it on success.
    pub open spec fn on_route_added(
        self,
        peer_id: PeerId,
        remote_ip: IpAddress,
        interface: Seq<char>,
        outcome: Result<(), Seq<char>>,
    ) -> (PeerRouteManagerModel, PeerRouteActionModel) {
        match outcome {
            Err(e) => (
                PeerRouteManagerModel { pending: PendingModel::Idle, ..self },
                PeerRouteActionModel::Done(
                    Err(PeerRouteErrorModel::RouteAdditionFailed { ipv6: remote_ip is V6, message: e }),
                ),
            ),
            Ok(()) => (
                PeerRouteManagerModel {
                    routes: self.routes.push(
                        PeerRouteModel {
                            peer_id,
                            destination: remote_ip,
                            interface,
                            prefix: PEER_ROUTE_PREFIX,
                        },
                    ),
                    pending: PendingModel::Idle,
                },
                PeerRouteActionModel::Done(Ok(())),
            ),
        }
    }

    /// Forget the routes of `peer_id`; gives the commands that remove them, in order.
    pub open spec fn remove_peer(self, peer_id: PeerId) -> (PeerRouteManagerModel, Seq<RouteCommandModel>) {
        (
            PeerRouteManagerModel {
                routes: self.routes.filter(|r: PeerRouteModel| r.peer_id != peer_id),
                ..self
            },
            self.routes.filter(|r: PeerRouteModel| r.peer_id == peer_id).map_values(
                |r: PeerRouteModel| peer_route_remove_command(r),
            ),
        )
    }
}

/// The models of a list of commands.
pub open spec fn command_models(commands: Seq<RouteCommand>) -> Seq<RouteCommandModel> {
    commands.map_values(|c: RouteCommand| c@)
}

enum PendingAdd {
    Idle,
    Resolving { peer_id: PeerId },
    FindingGateway { peer_id: PeerId, remote_ip: IpAddress },
    FindingInterface { peer_id: PeerId, remote_ip: IpAddress, gateway: IpAddress },
    Adding { peer_id: PeerId, remote_ip: IpAddress, gateway: IpAddress, interface: String },
}

impl PendingAdd {
    spec fn model(&self) -> PendingModel {
        match self {
            PendingAdd::Idle => PendingModel::Idle,
            PendingAdd::Resolving { peer_id } => PendingModel::Resolving { peer_id: *peer_id },
            PendingAdd::FindingGateway { peer_id, remote_ip } => PendingModel::FindingGateway {
                peer_id: *peer_id,
                remote_ip: *remote_ip,
            },
            PendingAdd::FindingInterface { peer_id, remote_ip, gateway } => PendingModel::FindingInterface {
                peer_id: *peer_id,
                remote_ip: *remote_ip,
                gateway: *gateway,
            },
            PendingAdd::Adding { peer_id, remote_ip, gateway, interface } => PendingModel::Adding {
                peer_id: *peer_id,
                remote_ip: *remote_ip,
                gateway: *gateway,
                interface: interface@,
            },
        }
    }
}

/// Peer route manager: keeps track of the routes installed for peer connections.
pub struct PeerRouteManager {
    routes: Vec<PeerRoute>,
    pending: PendingAdd,
}

impl View for PeerRouteManager {
    type V = PeerRouteManagerModel;

    closed spec fn view(&self) -> PeerRouteManagerModel {
        PeerRouteManagerModel { routes: route_models(self.routes@), pending: self.pending.model() }
    }
}

/// The command that installs a peer route to `destination` via `gateway` on `interface`.
fn peer_route_command(interface: &String, destination: IpAddress, gateway: IpAddress) -> (c: RouteCommand)
    ensures
        c@ == peer_route_add_command(interface@, destination, gateway),
{
    match destination {
        IpAddress::V4(address) => RouteCommand::AddIpv4Route {
            interface: interface.clone(),
            address,
            prefix: PEER_ROUTE_PREFIX,
            gateway: Some(gateway),
            cost: Some(PEER_ROUTE_METRIC),
        },
        IpAddress::V6(address) => RouteCommand::AddIpv6Route {
            interface: interface.clone(),
            address,
            prefix: PEER_ROUTE_PREFIX,
            gateway: Some(gateway),
            cost: Some(PEER_ROUTE_METRIC),
        },
    }
}

/// The command that takes `route` off its interface.
fn peer_route_removal(route: &PeerRoute) -> (c: RouteCommand)
    ensures
        c@ == peer_route_remove_command(route@),
{
    match route.destination {
        IpAddress::V4(address) => RouteCommand::RemoveIpv4Route {
            interface: route.interface.clone(),
            address,
            prefix: route.prefix,
        },
        IpAddress::V6(address) => RouteCommand::RemoveIpv6Route {
            interface: route.interface.clone(),
            address,
            prefix: route.prefix,
        },
    }
}

impl PeerRouteManager {
    /// A manager with no route.
    pub fn new() -> (r: PeerRouteManager)
        ensures
            r@ == (PeerRouteManagerModel { routes: Seq::empty(), pending: PendingModel::Idle }),
    {
        let r = PeerRouteManager { routes: Vec::new(), pending: PendingAdd::Idle };
        assert(r@.routes =~= Seq::<PeerRouteModel>::empty());
        r
    }

    /// Start adding the route for peer `peer_id`, whose connection has remote
    /// address `remote_addr` (a URL), if any.
    pub fn add_peer_route(&mut self, peer_id: PeerId, remote_addr: Option<String>) -> (a: PeerRouteAction)
        requires
            old(self)@.pending is Idle,
        ensures
            (final(self)@, a@) == old(self)@.start_add(
                peer_id,
                match remote_addr {
                    Some(u) => Some(u@),
                    None => None,
                },
            ),
    {
        match remote_addr {
            None => {
                self.pending = PendingAdd::Idle;
                PeerRouteAction::Done(Err(PeerRouteError::RemoteAddrMissing))
            },
            Some(url) => {
                self.pending = PendingAdd::Resolving { peer_id };
                PeerRouteAction::ResolveRemoteAddr(url)
            },
        }
    }

    /// Whether an addition waits for an answer.
    pub fn in_progress(&self) -> (r: bool)
        ensures
            r == !(self@.pending is Idle),
    {
        match self.pending {
            PendingAdd::Idle => false,
            _ => true,
        }
    }

    /// Go on with the socket addresses that the remote address resolved to.
    pub fn on_remote_addresses(&mut self, result: Result<Vec<IpAddress>, String>) -> (a: PeerRouteAction)
        requires
            old(self)@.pending is Resolving,
        ensures
            (final(self)@, a@) == old(self)@.on_remote_addresses(
                old(self)@.pending->Resolving_peer_id,
                match result {
                    Ok(v) => Ok(v@),
                    Err(e) => Err(e@),
                },
            ),
    {
        let peer_id = match self.pending {
            PendingAdd::Resolving { peer_id } => peer_id,
            _ => 0,
        };
        match result {
            Err(e) => {
                self.pending = PendingAdd::Idle;
                PeerRouteAction::Done(Err(PeerRouteError::RemoteAddrUnresolvable(e)))
            },
            Ok(addrs) => {
                if addrs.len() == 0 {
                    self.pending = PendingAdd::Idle;
                    PeerRouteAction::Done(Err(PeerRouteError::NoSocketAddresses))
                } else {
                    self.pending = PendingAdd::FindingGateway { peer_id, remote_ip: addrs[0] };
                    PeerRouteAction::FindDefaultGateway
                }
            },
        }
    }

    /// Go on with the default gateway that was found, if any.
    pub fn on_default_gateway(&mut self, result: Result<Option<IpAddress>, String>) -> (a: PeerRouteAction)
        requires
            old(self)@.pending is FindingGateway,
        ensures
            (final(self)@, a@) == old(self)@.on_default_gateway(
                old(self)@.pending->FindingGateway_peer_id,
                old(self)@.pending->FindingGateway_remote_ip,
                match result {
                    Ok(g) => Ok(g),
                    Err(e) => Err(e@),
                },
            ),
    {
        let (peer_id, remote_ip) = match self.pending {
            PendingAdd::FindingGateway { peer_id, remote_ip } => (peer_id, remote_ip),
            _ => (0, IpAddress::V4(0)),
        };
        match result {
            Err(e) => {
                self.pending = PendingAdd::Idle;
                PeerRouteAction::Done(Err(PeerRouteError::GatewayLookupFailed(e)))
            },
            Ok(None) => {
                self.pending = PendingAdd::Idle;
                PeerRouteAction::Done(Err(PeerRouteError::NoDefaultGateway))
            },
            Ok(Some(gateway)) => {
                self.pending = PendingAdd::FindingInterface { peer_id, remote_ip, gateway };
                PeerRouteAction::FindInterface(remote_ip)
            },
        }
    }

    /// Go on with the interface that reaches the destination, if any.
    pub fn on_interface(&mut self, result: Result<Option<String>, String>) -> (a: PeerRouteAction)
        requires
            old(self)@.pending is FindingInterface,
        ensures
            (final(self)@, a@) == old(self)@.on_interface(
                old(self)@.pending->FindingInterface_peer_id,
                old(self)@.pending->FindingInterface_remote_ip,
                old(self)@.pending->FindingInterface_gateway,
                match result {
                    Ok(Some(name)) => Ok(Some(name@)),
                    Ok(None) => Ok(None),
                    Err(e) => Err(e@),
                },
            ),
    {
        let (peer_id, remote_ip, gateway) = match self.pending {
            PendingAdd::FindingInterface { peer_id, remote_ip, gateway } => (peer_id, remote_ip, gateway),
            _ => (0, IpAddress::V4(0), IpAddress::V4(0)),
        };
        match result {
            Err(e) => {
                self.pending = PendingAdd::Idle;
                PeerRouteAction::Done(Err(PeerRouteError::InterfaceLookupFailed(e)))
            },
            Ok(None) => {
                self.pending = PendingAdd::Idle;
                PeerRouteAction::Done(Err(PeerRouteError::NoInterface))
            },
            Ok(Some(interface)) => {
                let command = peer_route_command(&interface, remote_ip, gateway);
                self.pending = PendingAdd::Adding { peer_id, remote_ip, gateway, interface };
                PeerRouteAction::Run(command)
            },
        }
    }

    /// Finish with the outcome of installing the route.
    pub fn on_route_added(&mut self, outcome: Result<(), String>) -> (a: PeerRouteAction)
        requires
            old(self)@.pending is Adding,
        ensures
            (final(self)@, a@) == old(self)@.on_route_added(
                old(self)@.pending->Adding_peer_id,
                old(self)@.pending->Adding_remote_ip,
                old(self)@.pending->Adding_interface,
                match outcome {
                    Ok(()) => Ok(()),
                    Err(e) => Err(e@),
                },
            ),
    {
        let mut pending = PendingAdd::Idle;
        std::mem::swap(&mut pending, &mut self.pending);
        match pending {
            PendingAdd::Adding { peer_id, remote_ip, gateway: _, interface } => match outcome {
                Err(e) => PeerRouteAction::Done(
                    Err(PeerRouteError::RouteAdditionFailed { ipv6: !remote_ip.is_ipv4(), message: e }),
                ),
                Ok(()) => {
                    let route = PeerRoute {
                        peer_id,
                        destination: remote_ip,
                        interface,
                        prefix: PEER_ROUTE_PREFIX,
                    };
                    self.routes.push(route);
                    assert(route_models(self.routes@) =~= old(self)@.routes.push(route@));
                    PeerRouteAction::Done(Ok(()))
                },
            },
            _ => PeerRouteAction::Done(Ok(())),
        }
    }

    /// Forget every route of peer `peer_id`; gives the commands that remove
    /// them from the routing table, in the order the routes were added.
    pub fn remove_peer_routes(&mut self, peer_id: PeerId) -> (commands: Vec<RouteCommand>)
        ensures
            (final(self)@, command_models(commands@)) == old(self)@.remove_peer(peer_id),
    {
        let ghost all = route_models(self.routes@);
        let ghost keep = |r: PeerRouteModel| r.peer_id != peer_id;
        let ghost drop = |r: PeerRouteModel| r.peer_id == peer_id;
        let mut kept: Vec<PeerRoute> = Vec::new();
        let mut commands: Vec<RouteCommand> = Vec::new();
        let mut i: usize = 0;
        proof {
            reveal_with_fuel(Seq::<_>::filter, 1);
            assert(all.take(0) =~= Seq::<PeerRouteModel>::empty());
            assert(route_models(kept@) =~= Seq::<PeerRouteModel>::empty());
            assert(command_models(commands@) =~= Seq::<RouteCommandModel>::empty());
        }
        while i < self.routes.len()
            invariant
                i <= self.routes.len(),
                all == route_models(self.routes@),
                keep == (|r: PeerRouteModel| r.peer_id != peer_id),
                drop == (|r: PeerRouteModel| r.peer_id == peer_id),
                route_models(kept@) == all.take(i as int).filter(keep),
                command_models(commands@) == all.take(i as int).filter(drop).map_values(
                    |r: PeerRouteModel| peer_route_remove_command(r),
                ),
            decreases self.routes.len() - i,
        {
            let route = &self.routes[i];
            proof {
                reveal_with_fuel(Seq::<_>::filter, 1);
                assert(all.take(i + 1).drop_last() =~= all.take(i as int));
                assert(all.take(i + 1).last() == route@);
            }
            if route.peer_id == peer_id {
                let command = peer_route_removal(route);
                let ghost before = commands@;
                commands.push(command);
                proof {
                    let f = |r: PeerRouteModel| peer_route_remove_command(r);
                    let prev = all.take(i as int).filter(drop);
                    assert(all.take(i + 1).filter(drop) == prev.push(route@));
                    assert(prev.push(route@).map_values(f) =~= prev.map_values(f).push(f(route@)));
                    assert(command_models(commands@) =~= command_models(before).push(command@));
                    assert(command_models(commands@) =~= all.take(i + 1).filter(drop).map_values(
                        |r: PeerRouteModel| peer_route_remove_command(r),
                    ));
                    assert(route_models(kept@) =~= all.take(i + 1).filter(keep));
                }
            } else {
                kept.push(route.duplicate());
                proof {
                    assert(route_models(kept@) =~= all.take(i + 1).filter(keep));
                    assert(command_models(commands@) =~= all.take(i + 1).filter(drop).map_values(
                        |r: PeerRouteModel| peer_route_remove_command(r),
                    ));
                }
            }
            i = i + 1;
        }
        assert(all.take(i as int) =~= all);
        self.routes = kept;
        commands
    }

    /// The routes installed, in the order they were added.
    pub fn list_routes(&self) -> (r: Vec<PeerRoute>)
        ensures
            route_models(r@) == self@.routes,
    {
        let mut r: Vec<PeerRoute> = Vec::new();
        let mut i: usize = 0;
        while i < self.routes.len()
            invariant
                i <= self.routes.len(),
                route_models(r@) == route_models(self.routes@).take(i as int),
            decreases self.routes.len() - i,
        {
            let copy = self.routes[i].duplicate();
            let ghost before = r@;
            r.push(copy);
            proof {
                let all = route_models(self.routes@);
                assert(all[i as int] == copy@);
                assert(route_models(r@) =~= route_models(before).push(copy@));
                assert(all.take(i + 1) =~= all.take(i as int).push(copy@));
            }
            i = i + 1;
        }
        assert(route_models(self.routes@).take(i as int) =~= route_models(self.routes@));
        r
    }
}

impl Default for PeerRouteManager {
    fn default() -> (r: PeerRouteManager)
        ensures
            r@ == (PeerRouteManagerModel { routes: Seq::empty(), pending: PendingModel::Idle }),
    {
        PeerRouteManager::new()
    }
}

} // verus!
