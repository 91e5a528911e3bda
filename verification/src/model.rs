//! The mathematical model of the exit-node manager: its state, the steps it
//! hands out, and the transition that each operation makes.

use vstd::prelude::*;
use crate::ip::IpAddress;
use crate::route::{ExitNodeConfig, Route, RouteCommandModel, add_command, remove_command};

verus! {

/// The largest number of exit nodes that one update accepts: the metric of
/// every loop-prevention route (priority plus [`LOOP_ROUTE_METRIC_OFFSET`]) must fit in a `u32`.
pub const MAX_EXIT_NODES: usize = 4294967196;

/// Added to an exit node's priority to give the metric of its loop-prevention route.
pub const LOOP_ROUTE_METRIC_OFFSET: u32 = 100;

/// Metric of the default route to the TUN interface.
pub const DEFAULT_ROUTE_METRIC: u32 = 100;

/// Interface index that routes are bound to.
pub const TUN_INTERFACE_INDEX: u32 = 1;

/// Prefix length of a route to a single host.
pub const HOST_ROUTE_PREFIX: u8 = 32;

/// What an operation ended with.
pub enum ExitNodeErrorModel {
    NoExitNodesResolved,
    RouteAdditionFailed(Seq<char>),
}

/// What the manager asks for next.
pub enum StepModel {
    /// Carry out this change to the routing table, then report how it went.
    Run(RouteCommandModel),
    /// The operation is over.
    Done(Result<(), ExitNodeErrorModel>),
}

/// The operation in progress.
pub enum TaskModel {
    Idle,
    /// Removing routes: `queue` holds those still to go, the last one next.
    /// `then` holds the exit nodes to install once they are gone, if any.
    Removing { queue: Seq<Route>, then: Option<Seq<IpAddress>> },
    /// Installing the loop-prevention route of exit node `next`.
    AddingExitRoutes { next: nat },
    /// Installing the default route.
    AddingDefaultRoute,
}

/// The state of an exit-node manager.
pub struct ManagerModel {
    /// Virtual address of each exit node to the real address it resolved to.
    pub mapping: Map<IpAddress, IpAddress>,
    /// Exit nodes, most preferred first.
    pub exit_nodes: Seq<ExitNodeConfig>,
    /// Routes that were installed and not yet removed, oldest first.
    pub active_routes: Seq<Route>,
    /// Name of the TUN interface that the routes go through.
    pub tun_interface: Seq<char>,
    pub task: TaskModel,
}

/// The real address that a virtual exit-node address resolves to: for now, itself.
pub open spec fn resolve(virtual_ip: IpAddress) -> IpAddress {
    virtual_ip
}

/// The configuration of the exit node at position `index` of the list given to an update.
pub open spec fn exit_node_config(virtual_ip: IpAddress, index: int) -> ExitNodeConfig {
    ExitNodeConfig {
        is_exit_node: true,
        virtual_ip,
        real_ip: resolve(virtual_ip),
        priority: index as u32,
        prevent_loop: true,
    }
}

/// The configurations of a list of exit-node addresses, in list order.
pub open spec fn exit_node_configs(ips: Seq<IpAddress>) -> Seq<ExitNodeConfig> {
    Seq::new(ips.len(), |i: int| exit_node_config(ips[i], i))
}

/// The virtual addresses of a list of configurations.
pub open spec fn virtual_ips(configs: Seq<ExitNodeConfig>) -> Seq<IpAddress> {
    configs.map_values(|c: ExitNodeConfig| c.virtual_ip)
}

/// Each address of `ips` to the address it resolves to.
pub open spec fn resolution_map(ips: Seq<IpAddress>) -> Map<IpAddress, IpAddress> {
    Map::new(|k: IpAddress| ips.contains(k), |k: IpAddress| resolve(k))
}

/// The host route that keeps traffic for an exit node's virtual address off the tunnel.
pub open spec fn loop_prevention_route(c: ExitNodeConfig) -> Route {
    Route {
        destination: c.virtual_ip,
        prefix: HOST_ROUTE_PREFIX,
        gateway: Some(c.real_ip),
        ifindex: Some(TUN_INTERFACE_INDEX),
        metric: Some((c.priority + LOOP_ROUTE_METRIC_OFFSET) as u32),
        exit_node_config: Some(c),
    }
}

/// The loop-prevention routes of a list of exit nodes, in list order.
pub open spec fn loop_prevention_routes(configs: Seq<ExitNodeConfig>) -> Seq<Route> {
    configs.map_values(|c: ExitNodeConfig| loop_prevention_route(c))
}

/// The route `0.0.0.0/0` that sends all traffic to the TUN interface.
pub open spec fn default_route() -> Route {
    Route {
        destination: IpAddress::V4(0),
        prefix: 0,
        gateway: None,
        ifindex: Some(TUN_INTERFACE_INDEX),
        metric: Some(DEFAULT_ROUTE_METRIC),
        exit_node_config: None,
    }
}

/// The first configuration in `configs` has the lowest priority of all.
pub open spec fn sorted_by_priority(configs: Seq<ExitNodeConfig>) -> bool {
    forall|i: int, j: int| 0 <= i <= j < configs.len() ==> configs[i].priority <= configs[j].priority
}

impl ManagerModel {
    /// A manager with nothing configured.
    pub open spec fn initial(tun_interface: Seq<char>) -> ManagerModel {
        ManagerModel {
            mapping: Map::empty(),
            exit_nodes: Seq::empty(),
            active_routes: Seq::empty(),
            tun_interface,
            task: TaskModel::Idle,
        }
    }

    /// A route that this manager may have installed: the default route or the
    /// loop-prevention route of one of its exit nodes.
    pub open spec fn is_managed_route(self, r: Route) -> bool {
        ||| r == default_route()
        ||| exists|i: int| 0 <= i < self.exit_nodes.len() && r == loop_prevention_route(#[trigger] self.exit_nodes[i])
    }

    /// The invariant that every operation keeps.
    pub open spec fn wf(self) -> bool {
        &&& self.exit_nodes.len() <= MAX_EXIT_NODES
        &&& self.exit_nodes == exit_node_configs(virtual_ips(self.exit_nodes))
        &&& self.mapping == resolution_map(virtual_ips(self.exit_nodes))
        &&& forall|i: int| 0 <= i < self.active_routes.len() ==> self.is_managed_route(#[trigger] self.active_routes[i])
        &&& match self.task {
            TaskModel::Idle => true,
            TaskModel::Removing { queue, then } => {
                &&& self.active_routes.len() == 0
                &&& forall|i: int| 0 <= i < queue.len() ==> self.is_managed_route(#[trigger] queue[i])
                &&& then matches Some(ips) ==> ips.len() <= MAX_EXIT_NODES
            },
            TaskModel::AddingExitRoutes { next } => {
                &&& next < self.exit_nodes.len()
                &&& self.active_routes == loop_prevention_routes(self.exit_nodes.take(next as int))
            },
            TaskModel::AddingDefaultRoute => true,
        }
    }

    /// Nothing configured, but the same interface and routes.
    pub open spec fn without_exit_nodes(self) -> ManagerModel {
        ManagerModel { mapping: Map::empty(), exit_nodes: Seq::empty(), ..self }
    }

    /// Configure the exit nodes `ips` and start installing their routes.
    pub open spec fn install(self, ips: Seq<IpAddress>) -> (ManagerModel, StepModel) {
        if ips.len() == 0 {
            (
                ManagerModel { task: TaskModel::Idle, ..self },
                StepModel::Done(Err(ExitNodeErrorModel::NoExitNodesResolved)),
            )
        } else {
            let configs = exit_node_configs(ips);
            (
                ManagerModel {
                    mapping: resolution_map(ips),
                    exit_nodes: configs,
                    task: TaskModel::AddingExitRoutes { next: 0 },
                    ..self
                },
                StepModel::Run(add_command(self.tun_interface, loop_prevention_route(configs[0]))),
            )
        }
    }

    /// All routes are removed: forget the exit nodes, then go on with `then`.
    pub open spec fn after_removals(self, then: Option<Seq<IpAddress>>) -> (ManagerModel, StepModel) {
        let m = self.without_exit_nodes();
        match then {
            None => (ManagerModel { task: TaskModel::Idle, ..m }, StepModel::Done(Ok(()))),
            Some(ips) => m.install(ips),
        }
    }

    /// Remove the last route of `queue`, or go on once it is empty.
    pub open spec fn next_removal(self, queue: Seq<Route>, then: Option<Seq<IpAddress>>) -> (ManagerModel, StepModel) {
        if queue.len() == 0 {
            self.after_removals(then)
        } else {
            (
                ManagerModel { task: TaskModel::Removing { queue: queue.drop_last(), then }, ..self },
                StepModel::Run(remove_command(self.tun_interface, queue.last())),
            )
        }
    }

    /// Start removing every active route, newest first, and forget the exit nodes.
    pub open spec fn start_cleanup(self) -> (ManagerModel, StepModel) {
        ManagerModel { active_routes: Seq::empty(), ..self }.next_removal(self.active_routes, None)
    }

    /// Start replacing the exit nodes by `ips`: clean up, configure, install routes.
    pub open spec fn start_update(self, ips: Seq<IpAddress>) -> (ManagerModel, StepModel) {
        ManagerModel { active_routes: Seq::empty(), ..self }.next_removal(self.active_routes, Some(ips))
    }

    /// Start installing the default route.
    pub open spec fn start_default_route(self) -> (ManagerModel, StepModel) {
        (
            ManagerModel { task: TaskModel::AddingDefaultRoute, ..self },
            StepModel::Run(add_command(self.tun_interface, default_route())),
        )
    }

    /// Go on after the last command ended with `outcome` (an error message on failure).
    pub open spec fn resume(self, outcome: Result<(), Seq<char>>) -> (ManagerModel, StepModel) {
        match self.task {
            TaskModel::Idle => (self, StepModel::Done(Ok(()))),
            TaskModel::Removing { queue, then } => self.next_removal(queue, then),
            TaskModel::AddingExitRoutes { next } => match outcome {
                Ok(_) => {
                    let routes = self.active_routes.push(loop_prevention_route(self.exit_nodes[next as int]));
                    if next + 1 < self.exit_nodes.len() {
                        (
                            ManagerModel {
                                active_routes: routes,
                                task: TaskModel::AddingExitRoutes { next: next + 1 },
                                ..self
                            },
                            StepModel::Run(
                                add_command(self.tun_interface, loop_prevention_route(self.exit_nodes[next + 1 as int])),
                            ),
                        )
                    } else {
                        (
                            ManagerModel { active_routes: routes, task: TaskModel::Idle, ..self },
                            StepModel::Done(Ok(())),
                        )
                    }
                },
                Err(e) => (
                    ManagerModel { task: TaskModel::Idle, ..self },
                    StepModel::Done(Err(ExitNodeErrorModel::RouteAdditionFailed(e))),
                ),
            },
            TaskModel::AddingDefaultRoute => match outcome {
                Ok(_) => (
                    ManagerModel {
                        active_routes: self.active_routes.push(default_route()),
                        task: TaskModel::Idle,
                        ..self
                    },
                    StepModel::Done(Ok(())),
                ),
                Err(e) => (
                    ManagerModel { task: TaskModel::Idle, ..self },
                    StepModel::Done(Err(ExitNodeErrorModel::RouteAdditionFailed(e))),
                ),
            },
        }
    }

    /// The first exit node, if any: the most preferred one.
    pub open spec fn best_exit_node(self) -> Option<ExitNodeConfig> {
        if self.exit_nodes.len() > 0 {
            Some(self.exit_nodes[0])
        } else {
            None
        }
    }
}

/// The commands that take `routes` off `interface`, the last route first.
pub open spec fn removal_commands(interface: Seq<char>, routes: Seq<Route>) -> Seq<RouteCommandModel> {
    routes.reverse().map_values(|r: Route| remove_command(interface, r))
}

/// The commands that install the loop-prevention routes of `configs` on
/// `interface`, in order.
pub open spec fn exit_route_commands(interface: Seq<char>, configs: Seq<ExitNodeConfig>) -> Seq<RouteCommandModel> {
    loop_prevention_routes(configs).map_values(|r: Route| add_command(interface, r))
}

/// Drive the operation that asked for `step` from state `m`, handing it the
/// outcomes one by one for as long as it asks for commands. Gives the state
/// reached, the last step, and every command asked for on the way.
pub open spec fn run(
    m: ManagerModel,
    step: StepModel,
    outcomes: Seq<Result<(), Seq<char>>>,
) -> (ManagerModel, StepModel, Seq<RouteCommandModel>)
    decreases outcomes.len(),
{
    match step {
        StepModel::Done(_) => (m, step, Seq::empty()),
        StepModel::Run(c) => {
            if outcomes.len() == 0 {
                (m, step, seq![c])
            } else {
                let (m2, s2) = m.resume(outcomes[0]);
                let (m3, s3, cs) = run(m2, s2, outcomes.drop_first());
                (m3, s3, seq![c] + cs)
            }
        },
    }
}

} // verus!
