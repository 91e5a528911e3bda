//! The exit-node manager: state, operations and queries.

use vstd::prelude::*;
use crate::ip::{IpAddress, IpMap};
use crate::route::{
    ExitNodeConfig, Route, RouteCommand, add_route_command, remove_route_command,
};
use crate::laws::{
    lemma_drain_keeps_wf, lemma_next_removal_keeps_wf, lemma_resume_keeps_wf,
    lemma_start_default_route_keeps_wf,
};
use crate::model::{
    DEFAULT_ROUTE_METRIC, ExitNodeErrorModel, HOST_ROUTE_PREFIX, LOOP_ROUTE_METRIC_OFFSET,
    MAX_EXIT_NODES, ManagerModel, StepModel, TUN_INTERFACE_INDEX, TaskModel, default_route,
    exit_node_config, exit_node_configs, loop_prevention_route, loop_prevention_routes,
    resolution_map, resolve, sorted_by_priority, virtual_ips,
};

verus! {

/// Why an operation failed.
pub enum ExitNodeError {
    /// No address in the list given to an update could be resolved.
    NoExitNodesResolved,
    /// The routing table refused a route; the message says why.
    RouteAdditionFailed(String),
}

impl View for ExitNodeError {
    type V = ExitNodeErrorModel;

    open spec fn view(&self) -> ExitNodeErrorModel {
        match self {
            ExitNodeError::NoExitNodesResolved => ExitNodeErrorModel::NoExitNodesResolved,
            ExitNodeError::RouteAdditionFailed(m) => ExitNodeErrorModel::RouteAdditionFailed(m@),
        }
    }
}

/// What the manager asks its caller to do next.
pub enum Step {
    /// Carry out the command and hand its outcome to [`ExitNodeManager::resume`].
    Run(RouteCommand),
    /// The operation is over, with this result.
    Done(Result<(), ExitNodeError>),
}

impl View for Step {
    type V = StepModel;

    open spec fn view(&self) -> StepModel {
        match self {
            Step::Run(c) => StepModel::Run(c@),
            Step::Done(Ok(())) => StepModel::Done(Ok(())),
            Step::Done(Err(e)) => StepModel::Done(Err(e@)),
        }
    }
}

/// The outcome of a command as the model sees it: the error message on failure.
pub open spec fn outcome_model(outcome: Result<(), String>) -> Result<(), Seq<char>> {
    match outcome {
        Ok(()) => Ok(()),
        Err(e) => Err(e@),
    }
}

enum AfterCleanup {
    Finish,
    Install(Vec<IpAddress>),
}

enum Task {
    Idle,
    Removing { queue: Vec<Route>, then: AfterCleanup },
    AddingExitRoutes { next: usize },
    AddingDefaultRoute,
}

impl AfterCleanup {
    spec fn model(&self) -> Option<Seq<IpAddress>> {
        match self {
            AfterCleanup::Finish => None,
            AfterCleanup::Install(ips) => Some(ips@),
        }
    }
}

impl Task {
    spec fn model(&self) -> TaskModel {
        match self {
            Task::Idle => TaskModel::Idle,
            Task::Removing { queue, then } => TaskModel::Removing {
                queue: queue@,
                then: then.model(),
            },
            Task::AddingExitRoutes { next } => TaskModel::AddingExitRoutes { next: *next as nat },
            Task::AddingDefaultRoute => TaskModel::AddingDefaultRoute,
        }
    }
}

/// Exit-node manager: maps virtual exit-node addresses to real ones and keeps
/// track of the routes installed for them.
pub struct ExitNodeManager {
    virtual_to_real_mapping: IpMap,
    exit_nodes: Vec<ExitNodeConfig>,
    active_routes: Vec<Route>,
    tun_interface: String,
    task: Task,
}

impl View for ExitNodeManager {
    type V = ManagerModel;

    closed spec fn view(&self) -> ManagerModel {
        ManagerModel {
            mapping: self.virtual_to_real_mapping@,
            exit_nodes: self.exit_nodes@,
            active_routes: self.active_routes@,
            tun_interface: self.tun_interface@,
            task: self.task.model(),
        }
    }
}

/// A snapshot of the manager for monitoring.
#[derive(Clone, Debug)]
pub struct ExitNodeStatus {
    pub exit_nodes: Vec<ExitNodeConfig>,
    pub virtual_to_real_mapping: IpMap,
    pub active_routes_count: usize,
}

/// Resolve a virtual exit-node address to its real address.
fn resolve_real_ip(virtual_ip: &IpAddress) -> (r: Result<IpAddress, ExitNodeError>)
    ensures
        r matches Ok(real_ip) && real_ip == resolve(*virtual_ip),
{
    Ok(*virtual_ip)
}

/// Sort exit-node configurations by priority, keeping the order of equal
/// priorities (insertion sort).
fn sort_by_priority(configs: &mut Vec<ExitNodeConfig>)
    ensures
        sorted_by_priority(final(configs)@),
        final(configs)@.to_multiset() == old(configs)@.to_multiset(),
        sorted_by_priority(old(configs)@) ==> final(configs)@ == old(configs)@,
{
    broadcast use vstd::seq_lib::group_to_multiset_ensures, vstd::multiset::group_multiset_properties;

    let n: usize = configs.len();
    let mut i: usize = 0;
    while i < n
        invariant
            n == configs.len(),
            i <= n,
            sorted_by_priority(configs@.take(i as int)),
            configs@.to_multiset() == old(configs)@.to_multiset(),
            sorted_by_priority(old(configs)@) ==> configs@ == old(configs)@,
        decreases n - i,
    {
        let mut j: usize = i;
        proof {
            let t = configs@.take(i as int);
            assert forall|a: int, b: int| 0 <= a <= b < i implies
                #[trigger] configs@[a].priority <= #[trigger] configs@[b].priority by {
                assert(t[a] == configs@[a] && t[b] == configs@[b]);
            }
        }
        while j > 0 && configs[j - 1].priority > configs[j].priority
            invariant
                n == configs.len(),
                j <= i < n,
                forall|a: int, b: int|
                    0 <= a <= b <= i && a != j && b != j ==> #[trigger] configs@[a].priority
                        <= #[trigger] configs@[b].priority,
                forall|b: int| j < b <= i ==> configs@[j as int].priority <= #[trigger] configs@[b].priority,
                configs@.to_multiset() == old(configs)@.to_multiset(),
                sorted_by_priority(old(configs)@) ==> j == i && configs@ == old(configs)@,
            decreases j,
        {
            let left = configs[j - 1];
            let right = configs[j];
            let ghost before = configs@;
            configs.set(j - 1, right);
            configs.set(j, left);
            proof {
                let mid = before.update(j - 1, right);
                assert(configs@ == mid.update(j as int, left));
                assert(mid[j as int] == right);
                vstd::seq_lib::to_multiset_update(before, j - 1, right);
                vstd::seq_lib::to_multiset_update(mid, j as int, left);
                let m = before.to_multiset();
                assert(before[j - 1] == left);
                assert(before.contains(left));
                vstd::seq_lib::to_multiset_contains(before, left);
                assert(m.count(left) > 0);
                assert(m.insert(right).remove(left).insert(left).remove(right) =~= m);
            }
            j = j - 1;
        }
        proof {
            let v = configs@;
            assert forall|a: int, b: int| 0 <= a <= b < i + 1 implies
                #[trigger] v.take(i + 1)[a].priority <= #[trigger] v.take(i + 1)[b].priority by {
                if a != j && b != j {
                } else if a == j && b == j {
                } else if a == j {
                } else {
                    assert(v[a].priority <= v[j - 1].priority);
                }
            }
        }
        i = i + 1;
    }
    proof {
        assert(configs@.take(n as int) =~= configs@);
    }
}

impl ExitNodeManager {
    /// The manager's state is consistent.
    pub open spec fn wf(&self) -> bool {
        self@.wf()
    }

    /// A manager for the TUN interface `tun_interface`, with nothing configured.
    pub fn new(tun_interface: String) -> (r: ExitNodeManager)
        ensures
            r@ == ManagerModel::initial(tun_interface@),
            r.wf(),
    {
        let r = ExitNodeManager {
            virtual_to_real_mapping: IpMap::new(),
            exit_nodes: Vec::new(),
            active_routes: Vec::new(),
            tun_interface,
            task: Task::Idle,
        };
        assert(r@.exit_nodes =~= exit_node_configs(virtual_ips(r@.exit_nodes)));
        assert(r@.mapping =~= resolution_map(virtual_ips(r@.exit_nodes)));
        r
    }

    /// Index of the TUN interface.
    fn get_interface_index(&self) -> (r: u32)
        ensures
            r == TUN_INTERFACE_INDEX,
    {
        TUN_INTERFACE_INDEX
    }

    /// The loop-prevention route of exit node `config`.
    fn build_loop_prevention_route(&self, config: &ExitNodeConfig) -> (r: Route)
        requires
            config.priority + LOOP_ROUTE_METRIC_OFFSET <= u32::MAX,
        ensures
            r == loop_prevention_route(*config),
    {
        Route::new(config.virtual_ip, HOST_ROUTE_PREFIX)
            .with_gateway(config.real_ip)
            .with_ifindex(self.get_interface_index())
            .with_metric(config.priority + LOOP_ROUTE_METRIC_OFFSET)
            .with_exit_node_config(*config)
    }

    /// The default route to the TUN interface.
    fn build_default_route(&self) -> (r: Route)
        ensures
            r == default_route(),
    {
        Route::new(IpAddress::unspecified_v4(), 0)
            .with_ifindex(self.get_interface_index())
            .with_metric(DEFAULT_ROUTE_METRIC)
    }

    /// Remove the last route of `queue`, or go on with `then` once it is empty.
    fn next_removal(&mut self, queue: Vec<Route>, then: AfterCleanup) -> (step: Step)
        requires
            (ManagerModel {
                task: TaskModel::Removing { queue: queue@, then: then.model() },
                ..old(self)@
            }).wf(),
        ensures
            (final(self)@, step@) == old(self)@.next_removal(queue@, then.model()),
            final(self).wf(),
    {
        proof {
            lemma_next_removal_keeps_wf(
                old(self)@,
                queue@,
                then.model(),
            );
        }
        let mut queue = queue;
        match queue.pop() {
            Some(route) => {
                let command = remove_route_command(&self.tun_interface, &route);
                self.task = Task::Removing { queue, then };
                Step::Run(command)
            },
            None => self.after_removals(then),
        }
    }

    /// Every route is removed: forget the exit nodes, then go on with `then`.
    fn after_removals(&mut self, then: AfterCleanup) -> (step: Step)
        requires
            (ManagerModel {
                task: TaskModel::Removing { queue: Seq::empty(), then: then.model() },
                ..old(self)@
            }).wf(),
        ensures
            (final(self)@, step@) == old(self)@.after_removals(then.model()),
    {
        self.virtual_to_real_mapping.clear();
        self.exit_nodes = Vec::new();
        match then {
            AfterCleanup::Finish => {
                self.task = Task::Idle;
                Step::Done(Ok(()))
            },
            AfterCleanup::Install(ips) => self.install(ips),
        }
    }

    /// Configure the exit nodes `ips`, most preferred first, and ask for the
    /// route of the first one.
    fn install(&mut self, ips: Vec<IpAddress>) -> (step: Step)
        requires
            ips.len() <= MAX_EXIT_NODES,
            old(self)@.exit_nodes.len() == 0,
            old(self)@.mapping == Map::<IpAddress, IpAddress>::empty(),
        ensures
            (final(self)@, step@) == old(self)@.install(ips@),
    {
        let mut configs: Vec<ExitNodeConfig> = Vec::new();
        let mut mapping = IpMap::new();
        let mut successful_resolutions: usize = 0;
        let mut index: usize = 0;
        while index < ips.len()
            invariant
                index <= ips.len(),
                ips.len() <= MAX_EXIT_NODES,
                configs@ == exit_node_configs(ips@.take(index as int)),
                mapping@ == resolution_map(ips@.take(index as int)),
                successful_resolutions == configs.len(),
            decreases ips.len() - index,
        {
            let virtual_ip = ips[index];
            match resolve_real_ip(&virtual_ip) {
                Ok(real_ip) => {
                    let config = ExitNodeConfig {
                        is_exit_node: true,
                        virtual_ip,
                        real_ip,
                        priority: index as u32,
                        prevent_loop: true,
                    };
                    configs.push(config);
                    mapping.insert(virtual_ip, real_ip);
                    successful_resolutions = successful_resolutions + 1;
                },
                Err(_) => {},
            }
            index = index + 1;
            proof {
                let taken = ips@.take(index as int);
                let before = ips@.take(index - 1);
                assert(configs@ =~= exit_node_configs(taken));
                assert(taken =~= before.push(virtual_ip));
                assert forall|k: IpAddress| #[trigger] taken.contains(k) <==> (before.contains(k) || k == virtual_ip) by {
                    if taken.contains(k) {
                        let j: int = choose|j: int| 0 <= j < taken.len() && taken[j] == k;
                        if j < before.len() {
                            assert(before[j] == k);
                        }
                    }
                    if before.contains(k) {
                        let j: int = choose|j: int| 0 <= j < before.len() && before[j] == k;
                        assert(taken[j] == k);
                    }
                    if k == virtual_ip {
                        assert(taken[before.len() as int] == k);
                    }
                }
                assert(mapping@ =~= resolution_map(taken));
            }
        }
        proof {
            assert(ips@.take(index as int) =~= ips@);
        }
        if successful_resolutions == 0 {
            proof {
                assert(mapping@ =~= old(self)@.mapping);
            }
            self.virtual_to_real_mapping = mapping;
            self.task = Task::Idle;
            return Step::Done(Err(ExitNodeError::NoExitNodesResolved));
        }
        self.virtual_to_real_mapping = mapping;
        proof {
            assert forall|a: int, b: int| 0 <= a <= b < configs@.len() implies
                #[trigger] configs@[a].priority <= #[trigger] configs@[b].priority by {
                assert(configs@[a] == exit_node_config(ips@[a], a));
                assert(configs@[b] == exit_node_config(ips@[b], b));
            }
        }
        sort_by_priority(&mut configs);
        self.exit_nodes = configs;
        self.task = Task::AddingExitRoutes { next: 0 };
        let route = self.build_loop_prevention_route(&self.exit_nodes[0]);
        Step::Run(add_route_command(&self.tun_interface, &route))
    }

    /// Remove every route that this manager installed, newest first, and
    /// forget the exit nodes.
    pub fn cleanup_routes(&mut self) -> (step: Step)
        requires
            old(self).wf(),
            old(self)@.task is Idle,
        ensures
            (final(self)@, step@) == old(self)@.start_cleanup(),
            final(self).wf(),
    {
        let mut queue: Vec<Route> = Vec::new();
        proof {
            lemma_drain_keeps_wf(old(self)@, None);
        }
        std::mem::swap(&mut queue, &mut self.active_routes);
        self.next_removal(queue, AfterCleanup::Finish)
    }

    /// Replace the exit nodes by `exit_nodes`, the first the most preferred:
    /// remove the old routes, configure the new nodes, install their routes.
    pub fn update_exit_nodes(&mut self, exit_nodes: Vec<IpAddress>) -> (step: Step)
        requires
            old(self).wf(),
            old(self)@.task is Idle,
            exit_nodes.len() <= MAX_EXIT_NODES,
        ensures
            (final(self)@, step@) == old(self)@.start_update(exit_nodes@),
            final(self).wf(),
    {
        let mut queue: Vec<Route> = Vec::new();
        proof {
            lemma_drain_keeps_wf(old(self)@, Some(exit_nodes@));
        }
        std::mem::swap(&mut queue, &mut self.active_routes);
        self.next_removal(queue, AfterCleanup::Install(exit_nodes))
    }

    /// Install the default route `0.0.0.0/0` to the TUN interface.
    pub fn setup_default_route(&mut self) -> (step: Step)
        requires
            old(self).wf(),
            old(self)@.task is Idle,
        ensures
            (final(self)@, step@) == old(self)@.start_default_route(),
            final(self).wf(),
    {
        proof {
            lemma_start_default_route_keeps_wf(old(self)@);
        }
        self.task = Task::AddingDefaultRoute;
        let route = self.build_default_route();
        Step::Run(add_route_command(&self.tun_interface, &route))
    }

    /// Whether an operation waits for the outcome of a command.
    pub fn in_progress(&self) -> (r: bool)
        ensures
            r == !(self@.task is Idle),
    {
        match self.task {
            Task::Idle => false,
            _ => true,
        }
    }

    /// Go on with the operation in progress, now that the last command it
    /// asked for ended with `outcome` (its error message on failure).
    pub fn resume(&mut self, outcome: Result<(), String>) -> (step: Step)
        requires
            old(self).wf(),
            !(old(self)@.task is Idle),
        ensures
            (final(self)@, step@) == old(self)@.resume(outcome_model(outcome)),
            final(self).wf(),
    {
        proof {
            lemma_resume_keeps_wf(old(self)@, outcome_model(outcome));
        }
        let mut task = Task::Idle;
        std::mem::swap(&mut task, &mut self.task);
        match task {
            Task::Idle => Step::Done(Ok(())),
            Task::Removing { queue, then } => self.next_removal(queue, then),
            Task::AddingExitRoutes { next } => match outcome {
                Ok(()) => {
                    let route = self.build_loop_prevention_route(&self.exit_nodes[next]);
                    self.active_routes.push(route);
                    if next + 1 < self.exit_nodes.len() {
                        self.task = Task::AddingExitRoutes { next: next + 1 };
                        let route = self.build_loop_prevention_route(&self.exit_nodes[next + 1]);
                        Step::Run(add_route_command(&self.tun_interface, &route))
                    } else {
                        Step::Done(Ok(()))
                    }
                },
                Err(e) => Step::Done(Err(ExitNodeError::RouteAdditionFailed(e))),
            },
            Task::AddingDefaultRoute => match outcome {
                Ok(()) => {
                    let route = self.build_default_route();
                    self.active_routes.push(route);
                    Step::Done(Ok(()))
                },
                Err(e) => Step::Done(Err(ExitNodeError::RouteAdditionFailed(e))),
            },
        }
    }

    /// The most preferred exit node, if any: the one with the lowest priority.
    pub fn get_best_exit_node(&self) -> (r: Option<ExitNodeConfig>)
        requires
            self.wf(),
        ensures
            r == self@.best_exit_node(),
            r matches Some(best) ==> forall|i: int|
                0 <= i < self@.exit_nodes.len() ==> best.priority <= #[trigger] self@.exit_nodes[i].priority,
    {
        if self.exit_nodes.len() > 0 {
            Some(self.exit_nodes[0])
        } else {
            None
        }
    }

    /// Whether `ip` is the virtual address of an exit node.
    pub fn is_exit_node_ip(&self, ip: &IpAddress) -> (r: bool)
        ensures
            r == self@.mapping.contains_key(*ip),
    {
        self.virtual_to_real_mapping.contains_key(ip)
    }

    /// The real address of the exit node with virtual address `virtual_ip`.
    pub fn get_real_ip(&self, virtual_ip: &IpAddress) -> (r: Option<IpAddress>)
        ensures
            r == (if self@.mapping.contains_key(*virtual_ip) {
                Some(self@.mapping[*virtual_ip])
            } else {
                None::<IpAddress>
            }),
    {
        self.virtual_to_real_mapping.get(virtual_ip)
    }

    /// The routes installed and not yet removed, oldest first.
    pub fn active_routes(&self) -> (r: &Vec<Route>)
        ensures
            r@ == self@.active_routes,
    {
        &self.active_routes
    }

    /// Exit nodes, address mapping and number of active routes, for monitoring.
    pub fn get_exit_node_status(&self) -> (r: ExitNodeStatus)
        ensures
            r.exit_nodes@ == self@.exit_nodes,
            r.virtual_to_real_mapping@ == self@.mapping,
            r.active_routes_count == self@.active_routes.len(),
    {
        ExitNodeStatus {
            exit_nodes: self.exit_nodes.clone(),
            virtual_to_real_mapping: self.virtual_to_real_mapping.snapshot(),
            active_routes_count: self.active_routes.len(),
        }
    }
}

} // verus!
