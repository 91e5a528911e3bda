//! Properties of the exit-node and peer-route managers that span operations,
//! and the lemmas that prove them.

use vstd::prelude::*;
use crate::ip::IpAddress;
use crate::route::{ExitNodeConfig, Route, RouteChange, RouteCommandModel, add_command, remove_command};
use crate::peer_routes::{
    PEER_ROUTE_PREFIX, PeerId, PeerRouteActionModel, PeerRouteManagerModel, PeerRouteModel,
    PendingModel, peer_route_add_command, peer_route_remove_command, NetworkInterface, interface_with_ip,
    PeerRouteErrorModel,
};
use crate::model::{
    DEFAULT_ROUTE_METRIC, ExitNodeErrorModel, LOOP_ROUTE_METRIC_OFFSET, MAX_EXIT_NODES,
    ManagerModel, StepModel, TaskModel, default_route, exit_node_config, exit_node_configs,
    exit_route_commands, loop_prevention_route, loop_prevention_routes, removal_commands,
    resolution_map, run, virtual_ips,
};

verus! {

/// The virtual addresses of the configurations built from `ips` are `ips`.
pub proof fn lemma_virtual_ips_of_configs(ips: Seq<IpAddress>)
    ensures
        virtual_ips(exit_node_configs(ips)) == ips,
{
    assert(virtual_ips(exit_node_configs(ips)) =~= ips);
}

/// Configuring the exit nodes `ips` on a manager without exit nodes, mapping
/// or routes leaves it consistent.
pub proof fn lemma_install_keeps_wf(m: ManagerModel, ips: Seq<IpAddress>)
    requires
        m.exit_nodes.len() == 0,
        m.mapping == Map::<IpAddress, IpAddress>::empty(),
        m.active_routes.len() == 0,
        ips.len() <= MAX_EXIT_NODES,
    ensures
        m.install(ips).0.wf(),
{
    let r = m.install(ips).0;
    lemma_virtual_ips_of_configs(ips);
    lemma_virtual_ips_of_configs(Seq::empty());
    assert(m.exit_nodes =~= exit_node_configs(Seq::empty()));
    assert(Map::<IpAddress, IpAddress>::empty() =~= resolution_map(Seq::empty()));
    if ips.len() > 0 {
        assert(r.active_routes =~= loop_prevention_routes(r.exit_nodes.take(0)));
    }
}

/// Removing the next queued route, or finishing the removals, keeps the
/// manager consistent.
pub proof fn lemma_next_removal_keeps_wf(m: ManagerModel, queue: Seq<Route>, then: Option<Seq<IpAddress>>)
    requires
        (ManagerModel { task: TaskModel::Removing { queue, then }, ..m }).wf(),
    ensures
        m.next_removal(queue, then).0.wf(),
{
    let pre = ManagerModel { task: TaskModel::Removing { queue, then }, ..m };
    if queue.len() == 0 {
        let cleared = m.without_exit_nodes();
        lemma_virtual_ips_of_configs(Seq::empty());
        assert(cleared.exit_nodes =~= exit_node_configs(Seq::empty()));
        assert(cleared.mapping =~= resolution_map(Seq::empty()));
        match then {
            None => {},
            Some(ips) => lemma_install_keeps_wf(cleared, ips),
        }
    } else {
        let r = m.next_removal(queue, then).0;
        let rest = queue.drop_last();
        assert(r.task == TaskModel::Removing { queue: rest, then });
        assert forall|i: int| 0 <= i < rest.len() implies r.is_managed_route(#[trigger] rest[i]) by {
            assert(rest[i] == queue[i]);
            if let TaskModel::Removing { queue: q, then: _ } = pre.task {
                assert(q == queue);
                assert(pre.is_managed_route(q[i]));
            }
        }
    }
}

/// Every operation in progress goes on without breaking the invariant.
pub proof fn lemma_resume_keeps_wf(m: ManagerModel, outcome: Result<(), Seq<char>>)
    requires
        m.wf(),
    ensures
        m.resume(outcome).0.wf(),
{
    match m.task {
        TaskModel::Idle => {},
        TaskModel::Removing { queue, then } => {
            assert(m == ManagerModel { task: TaskModel::Removing { queue, then }, ..m });
            lemma_next_removal_keeps_wf(m, queue, then);
        },
        TaskModel::AddingExitRoutes { next } => {
            match outcome {
                Ok(_) => {
                    let r = m.resume(outcome).0;
                    let n: int = next as int;
                    assert(m.exit_nodes.take(n + 1) =~= m.exit_nodes.take(n).push(m.exit_nodes[n]));
                    assert(r.active_routes =~= loop_prevention_routes(m.exit_nodes.take(n + 1)));
                    assert forall|i: int| 0 <= i < r.active_routes.len() implies
                        r.is_managed_route(#[trigger] r.active_routes[i]) by {
                        assert(r.active_routes[i] == loop_prevention_route(r.exit_nodes[i]));
                    }
                },
                Err(_) => {},
            }
        },
        TaskModel::AddingDefaultRoute => {
            match outcome {
                Ok(_) => {
                    let r = m.resume(outcome).0;
                    assert forall|i: int| 0 <= i < r.active_routes.len() implies
                        r.is_managed_route(#[trigger] r.active_routes[i]) by {
                        if i < m.active_routes.len() {
                            assert(m.is_managed_route(m.active_routes[i]));
                        }
                    }
                },
                Err(_) => {},
            }
        },
    }
}

/// Taking the active routes off a consistent manager to remove them, with
/// `then` to follow, leaves it consistent.
pub proof fn lemma_drain_keeps_wf(m: ManagerModel, then: Option<Seq<IpAddress>>)
    requires
        m.wf(),
        then matches Some(ips) ==> ips.len() <= MAX_EXIT_NODES,
    ensures
        (ManagerModel {
            active_routes: Seq::empty(),
            task: TaskModel::Removing { queue: m.active_routes, then },
            ..m
        }).wf(),
{
    let pre = ManagerModel {
        active_routes: Seq::empty(),
        task: TaskModel::Removing { queue: m.active_routes, then },
        ..m
    };
    assert forall|i: int| 0 <= i < m.active_routes.len() implies
        pre.is_managed_route(#[trigger] m.active_routes[i]) by {
        assert(m.is_managed_route(m.active_routes[i]));
    }
}

/// Starting a cleanup keeps the manager consistent.
pub proof fn lemma_start_cleanup_keeps_wf(m: ManagerModel)
    requires
        m.wf(),
    ensures
        m.start_cleanup().0.wf(),
{
    lemma_drain_keeps_wf(m, None);
    lemma_next_removal_keeps_wf(ManagerModel { active_routes: Seq::empty(), ..m }, m.active_routes, None);
}

/// Starting an update with at most [`MAX_EXIT_NODES`] addresses keeps the
/// manager consistent.
pub proof fn lemma_start_update_keeps_wf(m: ManagerModel, ips: Seq<IpAddress>)
    requires
        m.wf(),
        ips.len() <= MAX_EXIT_NODES,
    ensures
        m.start_update(ips).0.wf(),
{
    lemma_drain_keeps_wf(m, Some(ips));
    lemma_next_removal_keeps_wf(ManagerModel { active_routes: Seq::empty(), ..m }, m.active_routes, Some(ips));
}

/// Starting to install the default route keeps the manager consistent.
pub proof fn lemma_start_default_route_keeps_wf(m: ManagerModel)
    requires
        m.wf(),
    ensures
        m.start_default_route().0.wf(),
{
}

/// Removing the queued routes `queue` one by one asks for their removal,
/// newest first, whatever the outcomes, and then goes on with `then`.
pub proof fn lemma_run_removals(
    m: ManagerModel,
    queue: Seq<Route>,
    then: Option<Seq<IpAddress>>,
    outcomes: Seq<Result<(), Seq<char>>>,
)
    requires
        outcomes.len() >= queue.len(),
    ensures
        ({
            let (m1, s1) = m.next_removal(queue, then);
            let (m2, s2) = m.after_removals(then);
            let (m3, s3, cs) = run(m2, s2, outcomes.skip(queue.len() as int));
            run(m1, s1, outcomes) == (m3, s3, removal_commands(m.tun_interface, queue) + cs)
        }),
    decreases queue.len(),
{
    if queue.len() == 0 {
        assert(outcomes.skip(0) =~= outcomes);
        assert(removal_commands(m.tun_interface, queue) =~= Seq::empty());
        let (m2, s2) = m.after_removals(then);
        let (m3, s3, cs) = run(m2, s2, outcomes);
        assert(removal_commands(m.tun_interface, queue) + cs =~= cs);
    } else {
        let rest = queue.drop_last();
        let mr = ManagerModel { task: TaskModel::Removing { queue: rest, then }, ..m };
        lemma_run_removals(mr, rest, then, outcomes.drop_first());
        assert(mr.after_removals(then) == m.after_removals(then));
        assert(outcomes.drop_first().skip(rest.len() as int) =~= outcomes.skip(queue.len() as int));
        assert(removal_commands(m.tun_interface, queue) =~= seq![remove_command(m.tun_interface, queue.last())]
            + removal_commands(m.tun_interface, rest));
        let (m2, s2) = m.after_removals(then);
        let (m3, s3, cs) = run(m2, s2, outcomes.skip(queue.len() as int));
        assert(seq![remove_command(m.tun_interface, queue.last())] + (removal_commands(m.tun_interface, rest) + cs)
            =~= removal_commands(m.tun_interface, queue) + cs);
    }
}

/// Installing the remaining loop-prevention routes, with every addition
/// succeeding, leaves the routes of all exit nodes active.
pub proof fn lemma_run_exit_routes(m: ManagerModel, outcomes: Seq<Result<(), Seq<char>>>)
    requires
        m.wf(),
        m.task is AddingExitRoutes,
        outcomes.len() == m.exit_nodes.len() - m.task->next,
        forall|i: int| 0 <= i < outcomes.len() ==> #[trigger] outcomes[i] is Ok,
    ensures
        ({
            let next: int = m.task->next as int;
            run(m, StepModel::Run(add_command(m.tun_interface, loop_prevention_route(m.exit_nodes[next]))), outcomes)
                == (
                    ManagerModel {
                        active_routes: loop_prevention_routes(m.exit_nodes),
                        task: TaskModel::Idle,
                        ..m
                    },
                    StepModel::Done(Ok(())),
                    exit_route_commands(m.tun_interface, m.exit_nodes.skip(next)),
                )
        }),
    decreases m.exit_nodes.len() - m.task->next,
{
    reveal_with_fuel(run, 2);
    let next: int = m.task->next as int;
    let n: int = m.exit_nodes.len() as int;
    let c = add_command(m.tun_interface, loop_prevention_route(m.exit_nodes[next]));
    lemma_resume_keeps_wf(m, outcomes[0]);
    let (m2, s2) = m.resume(outcomes[0]);
    assert(m.exit_nodes.take(next + 1) =~= m.exit_nodes.take(next).push(m.exit_nodes[next]));
    assert(m2.active_routes =~= loop_prevention_routes(m.exit_nodes.take(next + 1)));
    if next + 1 < n {
        assert forall|i: int| 0 <= i < outcomes.drop_first().len() implies #[trigger] outcomes.drop_first()[i] is Ok by {
            assert(outcomes.drop_first()[i] == outcomes[i + 1]);
        }
        lemma_run_exit_routes(m2, outcomes.drop_first());
        assert(exit_route_commands(m.tun_interface, m.exit_nodes.skip(next)) =~= seq![c]
            + exit_route_commands(m.tun_interface, m.exit_nodes.skip(next + 1)));
    } else {
        assert(m.exit_nodes.take(next + 1) =~= m.exit_nodes);
        assert(exit_route_commands(m.tun_interface, m.exit_nodes.skip(next)) =~= seq![c]);
        assert(seq![c] + Seq::<RouteCommandModel>::empty() =~= seq![c]);
    }
}

/// Installing the remaining loop-prevention routes stops at the first
/// addition that fails: the routes added before it stay active.
pub proof fn lemma_run_exit_routes_failing(
    m: ManagerModel,
    k: int,
    e: Seq<char>,
    outcomes: Seq<Result<(), Seq<char>>>,
)
    requires
        m.wf(),
        m.task is AddingExitRoutes,
        0 <= k < m.exit_nodes.len() - m.task->next,
        outcomes.len() == k + 1,
        forall|i: int| 0 <= i < k ==> #[trigger] outcomes[i] is Ok,
        outcomes[k] == Err::<(), Seq<char>>(e),
    ensures
        ({
            let next: int = m.task->next as int;
            run(m, StepModel::Run(add_command(m.tun_interface, loop_prevention_route(m.exit_nodes[next]))), outcomes)
                == (
                    ManagerModel {
                        active_routes: loop_prevention_routes(m.exit_nodes.take(next + k)),
                        task: TaskModel::Idle,
                        ..m
                    },
                    StepModel::Done(Err(ExitNodeErrorModel::RouteAdditionFailed(e))),
                    exit_route_commands(m.tun_interface, m.exit_nodes.subrange(next, next + k + 1)),
                )
        }),
    decreases k,
{
    reveal_with_fuel(run, 2);
    let next: int = m.task->next as int;
    let c = add_command(m.tun_interface, loop_prevention_route(m.exit_nodes[next]));
    lemma_resume_keeps_wf(m, outcomes[0]);
    let (m2, s2) = m.resume(outcomes[0]);
    if k == 0 {
        assert(outcomes.drop_first().len() == 0);
        assert(m.exit_nodes.take(next + 0) =~= m.exit_nodes.take(next));
        assert(exit_route_commands(m.tun_interface, m.exit_nodes.subrange(next, next + 1)) =~= seq![c]);
        assert(seq![c] + Seq::<RouteCommandModel>::empty() =~= seq![c]);
    } else {
        assert(m.exit_nodes.take(next + 1) =~= m.exit_nodes.take(next).push(m.exit_nodes[next]));
        assert(m2.active_routes =~= loop_prevention_routes(m.exit_nodes.take(next + 1)));
        assert forall|i: int| 0 <= i < k - 1 implies #[trigger] outcomes.drop_first()[i] is Ok by {
            assert(outcomes.drop_first()[i] == outcomes[i + 1]);
        }
        lemma_run_exit_routes_failing(m2, k - 1, e, outcomes.drop_first());
        assert(exit_route_commands(m.tun_interface, m.exit_nodes.subrange(next, next + k + 1)) =~= seq![c]
            + exit_route_commands(m.tun_interface, m.exit_nodes.subrange(next + 1, next + 1 + k)));
    }
}

/// A cleanup asks for the removal of every active route, newest first, and
/// ends successfully with no exit node, no address mapping and no active
/// route, whatever the outcomes of the removals.
pub proof fn law_cleanup_removes_every_route(m: ManagerModel, outcomes: Seq<Result<(), Seq<char>>>)
    requires
        m.wf(),
        outcomes.len() == m.active_routes.len(),
    ensures
        ({
            let (m1, s1) = m.start_cleanup();
            run(m1, s1, outcomes) == (
                ManagerModel {
                    mapping: Map::empty(),
                    exit_nodes: Seq::empty(),
                    active_routes: Seq::empty(),
                    tun_interface: m.tun_interface,
                    task: TaskModel::Idle,
                },
                StepModel::Done(Ok(())),
                removal_commands(m.tun_interface, m.active_routes),
            )
        }),
{
    let me = ManagerModel { active_routes: Seq::empty(), ..m };
    lemma_run_removals(me, m.active_routes, None, outcomes);
    let cs = removal_commands(m.tun_interface, m.active_routes);
    assert(cs + Seq::<RouteCommandModel>::empty() =~= cs);
}

/// An update with exit nodes `ips`, in which every route addition succeeds,
/// first removes every active route (newest first, whatever the outcomes),
/// then configures the nodes in list order with their priorities, maps each
/// virtual address to its real address, and installs one loop-prevention route
/// per node, in list order. It ends successfully.
pub proof fn law_update_installs_exit_nodes(
    m: ManagerModel,
    ips: Seq<IpAddress>,
    outcomes: Seq<Result<(), Seq<char>>>,
)
    requires
        m.wf(),
        0 < ips.len() <= MAX_EXIT_NODES,
        outcomes.len() == m.active_routes.len() + ips.len(),
        forall|i: int| m.active_routes.len() <= i < outcomes.len() ==> #[trigger] outcomes[i] is Ok,
    ensures
        ({
            let (m1, s1) = m.start_update(ips);
            let configs = exit_node_configs(ips);
            run(m1, s1, outcomes) == (
                ManagerModel {
                    mapping: resolution_map(ips),
                    exit_nodes: configs,
                    active_routes: loop_prevention_routes(configs),
                    tun_interface: m.tun_interface,
                    task: TaskModel::Idle,
                },
                StepModel::Done(Ok(())),
                removal_commands(m.tun_interface, m.active_routes) + exit_route_commands(m.tun_interface, configs),
            )
        }),
{
    let me = ManagerModel { active_routes: Seq::empty(), ..m };
    let n: int = m.active_routes.len() as int;
    lemma_run_removals(me, m.active_routes, Some(ips), outcomes);
    let cleared = me.without_exit_nodes();
    lemma_install_keeps_wf(cleared, ips);
    let (mi, si) = cleared.install(ips);
    let rest = outcomes.skip(n);
    assert forall|i: int| 0 <= i < rest.len() implies #[trigger] rest[i] is Ok by {
        assert(rest[i] == outcomes[n + i]);
    }
    lemma_run_exit_routes(mi, rest);
    assert(mi.exit_nodes.skip(0) =~= mi.exit_nodes);
}

/// An update with no exit node removes every active route and then fails
/// with `NoExitNodesResolved`, leaving nothing configured.
pub proof fn law_update_without_exit_nodes_fails(m: ManagerModel, outcomes: Seq<Result<(), Seq<char>>>)
    requires
        m.wf(),
        outcomes.len() == m.active_routes.len(),
    ensures
        ({
            let (m1, s1) = m.start_update(Seq::empty());
            run(m1, s1, outcomes) == (
                ManagerModel {
                    mapping: Map::empty(),
                    exit_nodes: Seq::empty(),
                    active_routes: Seq::empty(),
                    tun_interface: m.tun_interface,
                    task: TaskModel::Idle,
                },
                StepModel::Done(Err(ExitNodeErrorModel::NoExitNodesResolved)),
                removal_commands(m.tun_interface, m.active_routes),
            )
        }),
{
    let me = ManagerModel { active_routes: Seq::empty(), ..m };
    lemma_run_removals(me, m.active_routes, Some(Seq::empty()), outcomes);
    let cs = removal_commands(m.tun_interface, m.active_routes);
    assert(cs + Seq::<RouteCommandModel>::empty() =~= cs);
}

/// When the route of the exit node at position `k` cannot be added, an update
/// stops there with `RouteAdditionFailed`: the nodes stay configured and the
/// routes of the nodes before position `k` stay active.
pub proof fn law_update_stops_at_failed_route(
    m: ManagerModel,
    ips: Seq<IpAddress>,
    k: int,
    e: Seq<char>,
    outcomes: Seq<Result<(), Seq<char>>>,
)
    requires
        m.wf(),
        ips.len() <= MAX_EXIT_NODES,
        0 <= k < ips.len(),
        outcomes.len() == m.active_routes.len() + k + 1,
        forall|i: int| m.active_routes.len() <= i < m.active_routes.len() + k ==> #[trigger] outcomes[i] is Ok,
        outcomes[m.active_routes.len() + k] == Err::<(), Seq<char>>(e),
    ensures
        ({
            let (m1, s1) = m.start_update(ips);
            let configs = exit_node_configs(ips);
            run(m1, s1, outcomes) == (
                ManagerModel {
                    mapping: resolution_map(ips),
                    exit_nodes: configs,
                    active_routes: loop_prevention_routes(configs.take(k)),
                    tun_interface: m.tun_interface,
                    task: TaskModel::Idle,
                },
                StepModel::Done(Err(ExitNodeErrorModel::RouteAdditionFailed(e))),
                removal_commands(m.tun_interface, m.active_routes)
                    + exit_route_commands(m.tun_interface, configs.take(k + 1)),
            )
        }),
{
    let me = ManagerModel { active_routes: Seq::empty(), ..m };
    let n: int = m.active_routes.len() as int;
    lemma_run_removals(me, m.active_routes, Some(ips), outcomes);
    let cleared = me.without_exit_nodes();
    lemma_install_keeps_wf(cleared, ips);
    let (mi, si) = cleared.install(ips);
    let rest = outcomes.skip(n);
    assert forall|i: int| 0 <= i < k implies #[trigger] rest[i] is Ok by {
        assert(rest[i] == outcomes[n + i]);
    }
    assert(rest[k] == outcomes[n + k]);
    lemma_run_exit_routes_failing(mi, k, e, rest);
    assert(mi.exit_nodes.take(0 + k) =~= mi.exit_nodes.take(k));
    assert(mi.exit_nodes.subrange(0, 0 + k + 1) =~= mi.exit_nodes.take(k + 1));
}

/// Setting up the default route asks for `0.0.0.0/0` on the TUN interface;
/// on success the route joins the active routes, on failure nothing changes
/// but the error is reported.
pub proof fn law_default_route(m: ManagerModel, outcome: Result<(), Seq<char>>)
    ensures
        ({
            let (m1, s1) = m.start_default_route();
            run(m1, s1, seq![outcome]) == (
                ManagerModel {
                    active_routes: if outcome is Ok {
                        m.active_routes.push(default_route())
                    } else {
                        m.active_routes
                    },
                    task: TaskModel::Idle,
                    ..m
                },
                match outcome {
                    Ok(_) => StepModel::Done(Ok(())),
                    Err(e) => StepModel::Done(Err(ExitNodeErrorModel::RouteAdditionFailed(e))),
                },
                seq![add_command(m.tun_interface, default_route())],
            )
        }),
{
    reveal_with_fuel(run, 2);
    let c = add_command(m.tun_interface, default_route());
    assert(seq![outcome].drop_first() =~= Seq::<Result<(), Seq<char>>>::empty());
    assert(seq![c] + Seq::<RouteCommandModel>::empty() =~= seq![c]);
}

/// In a consistent manager an address is an exit-node address exactly when
/// some configured exit node has it as virtual address, and it maps to that
/// node's real address.
pub proof fn law_exit_node_lookup(m: ManagerModel, ip: IpAddress)
    requires
        m.wf(),
    ensures
        m.mapping.contains_key(ip) <==> exists|i: int|
            0 <= i < m.exit_nodes.len() && (#[trigger] m.exit_nodes[i]).virtual_ip == ip,
        forall|i: int|
            0 <= i < m.exit_nodes.len() && (#[trigger] m.exit_nodes[i]).virtual_ip == ip
                ==> m.mapping[ip] == m.exit_nodes[i].real_ip,
{
    let vips = virtual_ips(m.exit_nodes);
    if m.mapping.contains_key(ip) {
        let j: int = choose|j: int| 0 <= j < vips.len() && vips[j] == ip;
        assert(m.exit_nodes[j].virtual_ip == ip);
    }
    assert forall|i: int| 0 <= i < m.exit_nodes.len() && (#[trigger] m.exit_nodes[i]).virtual_ip == ip
        implies m.mapping.contains_key(ip) && m.mapping[ip] == m.exit_nodes[i].real_ip by {
        assert(vips[i] == ip);
        assert(m.exit_nodes[i] == exit_node_config(vips[i], i));
    }
}

/// In a consistent manager the exit nodes are ordered by priority, the
/// priority of each is its position, and its loop-prevention route is a host
/// route through its real address whose metric never beats the default
/// route's.
pub proof fn law_exit_node_routes(m: ManagerModel)
    requires
        m.wf(),
    ensures
        forall|i: int, j: int|
            0 <= i <= j < m.exit_nodes.len() ==> m.exit_nodes[i].priority <= m.exit_nodes[j].priority,
        forall|i: int| 0 <= i < m.exit_nodes.len() ==> {
            let r = loop_prevention_route(#[trigger] m.exit_nodes[i]);
            &&& m.exit_nodes[i].priority == i
            &&& r.destination == m.exit_nodes[i].virtual_ip
            &&& r.prefix == 32
            &&& r.gateway == Some(m.exit_nodes[i].real_ip)
            &&& r.metric == Some((i + LOOP_ROUTE_METRIC_OFFSET) as u32)
            &&& DEFAULT_ROUTE_METRIC <= i + LOOP_ROUTE_METRIC_OFFSET
        },
{
    let vips = virtual_ips(m.exit_nodes);
    assert forall|i: int| 0 <= i < m.exit_nodes.len() implies #[trigger] m.exit_nodes[i].priority == i by {
        assert(m.exit_nodes[i] == exit_node_config(vips[i], i));
    }
}

/// Filtering keeps every element when all pass.
pub proof fn lemma_filter_all<A>(s: Seq<A>, pred: spec_fn(A) -> bool)
    requires
        forall|i: int| 0 <= i < s.len() ==> pred(#[trigger] s[i]),
    ensures
        s.filter(pred) == s,
    decreases s.len(),
{
    reveal_with_fuel(Seq::<_>::filter, 1);
    if s.len() > 0 {
        let shorter = s.drop_last();
        assert forall|i: int| 0 <= i < shorter.len() implies pred(#[trigger] shorter[i]) by {
            assert(shorter[i] == s[i]);
        }
        lemma_filter_all(shorter, pred);
        assert(pred(s[s.len() - 1]));
        assert(shorter.push(s.last()) =~= s);
    }
}

/// Filtering keeps nothing when no element passes.
pub proof fn lemma_filter_none<A>(s: Seq<A>, pred: spec_fn(A) -> bool)
    requires
        forall|i: int| 0 <= i < s.len() ==> !pred(#[trigger] s[i]),
    ensures
        s.filter(pred) == Seq::<A>::empty(),
    decreases s.len(),
{
    reveal_with_fuel(Seq::<_>::filter, 1);
    if s.len() > 0 {
        let shorter = s.drop_last();
        assert forall|i: int| 0 <= i < shorter.len() implies !pred(#[trigger] shorter[i]) by {
            assert(shorter[i] == s[i]);
        }
        lemma_filter_none(shorter, pred);
        assert(!pred(s[s.len() - 1]));
    }
}

/// A property of every element holds of every element that a filter keeps.
pub proof fn lemma_filter_keeps_property<A>(s: Seq<A>, pred: spec_fn(A) -> bool, q: spec_fn(A) -> bool)
    requires
        forall|i: int| 0 <= i < s.len() ==> q(#[trigger] s[i]),
    ensures
        forall|i: int| 0 <= i < s.filter(pred).len() ==> q(#[trigger] s.filter(pred)[i]),
    decreases s.len(),
{
    reveal_with_fuel(Seq::<_>::filter, 1);
    if s.len() > 0 {
        let shorter = s.drop_last();
        assert forall|i: int| 0 <= i < shorter.len() implies q(#[trigger] shorter[i]) by {
            assert(shorter[i] == s[i]);
        }
        lemma_filter_keeps_property(shorter, pred, q);
        assert(q(s[s.len() - 1]));
        let f = s.filter(pred);
        let g = shorter.filter(pred);
        assert forall|i: int| 0 <= i < f.len() implies q(#[trigger] f[i]) by {
            if i < g.len() {
                assert(f[i] == g[i]);
            }
        }
    }
}

/// Adding the route of a peer whose remote address resolves to `addrs`,
/// with a default gateway and an interface `interface` that reaches the first
/// address, asks in turn to resolve the address, find the gateway, find the
/// interface of the first address, and install a host route to it there via
/// the gateway with the peer-route metric; once that succeeds the route is
/// recorded after the existing ones.
pub proof fn law_peer_route_added(
    m: PeerRouteManagerModel,
    peer_id: PeerId,
    url: Seq<char>,
    addrs: Seq<IpAddress>,
    gateway: IpAddress,
    interface: Seq<char>,
)
    requires
        addrs.len() > 0,
    ensures
        ({
            let remote_ip = addrs[0];
            let (m1, a1) = m.start_add(peer_id, Some(url));
            let (m2, a2) = m1.on_remote_addresses(peer_id, Ok(addrs));
            let (m3, a3) = m2.on_default_gateway(peer_id, remote_ip, Ok(Some(gateway)));
            let (m4, a4) = m3.on_interface(peer_id, remote_ip, gateway, Ok(Some(interface)));
            let (m5, a5) = m4.on_route_added(peer_id, remote_ip, interface, Ok(()));
            &&& a1 == PeerRouteActionModel::ResolveRemoteAddr(url)
            &&& m1.pending == PendingModel::Resolving { peer_id }
            &&& a2 == PeerRouteActionModel::FindDefaultGateway
            &&& m2.pending == PendingModel::FindingGateway { peer_id, remote_ip }
            &&& a3 == PeerRouteActionModel::FindInterface(remote_ip)
            &&& m3.pending == PendingModel::FindingInterface { peer_id, remote_ip, gateway }
            &&& a4 == PeerRouteActionModel::Run(peer_route_add_command(interface, remote_ip, gateway))
            &&& m4.pending == PendingModel::Adding { peer_id, remote_ip, gateway, interface }
            &&& a5 == PeerRouteActionModel::Done(Ok(()))
            &&& m5 == PeerRouteManagerModel {
                routes: m.routes.push(
                    PeerRouteModel { peer_id, destination: remote_ip, interface, prefix: PEER_ROUTE_PREFIX },
                ),
                pending: PendingModel::Idle,
            }
        }),
{
}

/// Only a successful route addition changes the recorded routes: every
/// failure leaves them as they were.
pub proof fn law_failed_peer_route_changes_nothing(
    m: PeerRouteManagerModel,
    peer_id: PeerId,
    remote_addr: Option<Seq<char>>,
    addrs: Result<Seq<IpAddress>, Seq<char>>,
    remote_ip: IpAddress,
    gateway: Result<Option<IpAddress>, Seq<char>>,
    gateway_ip: IpAddress,
    found: Result<Option<Seq<char>>, Seq<char>>,
    interface: Seq<char>,
    e: Seq<char>,
)
    ensures
        m.start_add(peer_id, remote_addr).0.routes == m.routes,
        m.on_remote_addresses(peer_id, addrs).0.routes == m.routes,
        m.on_default_gateway(peer_id, remote_ip, gateway).0.routes == m.routes,
        m.on_interface(peer_id, remote_ip, gateway_ip, found).0.routes == m.routes,
        m.on_route_added(peer_id, remote_ip, interface, Err(e)).0.routes == m.routes,
{
}

/// An addition is over exactly when the manager is idle again: each step
/// hands back `Done` if and only if it leaves no addition pending, and the
/// outcome of installing the route, success or failure, always ends it. So a
/// failed addition never blocks the next one.
pub proof fn law_peer_route_addition_ends_idle(
    m: PeerRouteManagerModel,
    peer_id: PeerId,
    remote_addr: Option<Seq<char>>,
    addrs: Result<Seq<IpAddress>, Seq<char>>,
    remote_ip: IpAddress,
    gateway: Result<Option<IpAddress>, Seq<char>>,
    gateway_ip: IpAddress,
    found: Result<Option<Seq<char>>, Seq<char>>,
    interface: Seq<char>,
    outcome: Result<(), Seq<char>>,
)
    ensures
        (m.start_add(peer_id, remote_addr).1 is Done) == (m.start_add(peer_id, remote_addr).0.pending is Idle),
        (m.on_remote_addresses(peer_id, addrs).1 is Done) == (m.on_remote_addresses(peer_id, addrs).0.pending is Idle),
        (m.on_default_gateway(peer_id, remote_ip, gateway).1 is Done) == (m.on_default_gateway(
            peer_id,
            remote_ip,
            gateway,
        ).0.pending is Idle),
        (m.on_interface(peer_id, remote_ip, gateway_ip, found).1 is Done) == (m.on_interface(
            peer_id,
            remote_ip,
            gateway_ip,
            found,
        ).0.pending is Idle),
        m.on_route_added(peer_id, remote_ip, interface, outcome).1 is Done,
        m.on_route_added(peer_id, remote_ip, interface, outcome).0.pending is Idle,
        addrs is Err ==> m.on_remote_addresses(peer_id, addrs).0.pending is Idle,
        gateway is Err || gateway == Ok::<Option<IpAddress>, Seq<char>>(None) ==> m.on_default_gateway(
            peer_id,
            remote_ip,
            gateway,
        ).0.pending is Idle,
        found is Err || found == Ok::<Option<Seq<char>>, Seq<char>>(None) ==> m.on_interface(
            peer_id,
            remote_ip,
            gateway_ip,
            found,
        ).0.pending is Idle,
{
}

/// The interface lookup gives the name of the first interface that holds the
/// address, at whatever position among that interface's addresses.
pub proof fn law_interface_lookup_finds_first_holder(interfaces: Seq<NetworkInterface>, ip: IpAddress, k: int, j: int)
    requires
        0 <= k < interfaces.len(),
        0 <= j < interfaces[k].ips@.len(),
        interfaces[k].ips@[j] == ip,
        forall|i: int, l: int|
            0 <= i < k && 0 <= l < interfaces[i].ips@.len() ==> #[trigger] interfaces[i].ips@[l] != ip,
    ensures
        interface_with_ip(interfaces, ip) == Some(interfaces[k].name@),
    decreases k,
{
    if k == 0 {
        assert(interfaces[0].ips@.contains(ip));
    } else {
        assert(!interfaces[0].ips@.contains(ip)) by {
            if interfaces[0].ips@.contains(ip) {
                let l = choose|l: int| 0 <= l < interfaces[0].ips@.len() && interfaces[0].ips@[l] == ip;
                assert(interfaces[0].ips@[l] != ip);
            }
        }
        let rest = interfaces.drop_first();
        assert(rest[k - 1] == interfaces[k]);
        assert forall|i: int, l: int| 0 <= i < k - 1 && 0 <= l < rest[i].ips@.len() implies #[trigger] rest[i].ips@[l]
            != ip by {
            assert(rest[i] == interfaces[i + 1]);
            assert(interfaces[i + 1].ips@[l] != ip);
        }
        law_interface_lookup_finds_first_holder(rest, ip, k - 1, j);
    }
}

/// The interface lookup gives nothing when no interface holds the address.
pub proof fn law_interface_lookup_without_holder(interfaces: Seq<NetworkInterface>, ip: IpAddress)
    requires
        forall|i: int, l: int|
            0 <= i < interfaces.len() && 0 <= l < interfaces[i].ips@.len() ==> #[trigger] interfaces[i].ips@[l] != ip,
    ensures
        interface_with_ip(interfaces, ip) is None,
    decreases interfaces.len(),
{
    if interfaces.len() > 0 {
        assert(!interfaces[0].ips@.contains(ip)) by {
            if interfaces[0].ips@.contains(ip) {
                let l = choose|l: int| 0 <= l < interfaces[0].ips@.len() && interfaces[0].ips@[l] == ip;
                assert(interfaces[0].ips@[l] != ip);
            }
        }
        let rest = interfaces.drop_first();
        assert forall|i: int, l: int| 0 <= i < rest.len() && 0 <= l < rest[i].ips@.len() implies #[trigger] rest[i].ips@[l]
            != ip by {
            assert(rest[i] == interfaces[i + 1]);
            assert(interfaces[i + 1].ips@[l] != ip);
        }
        law_interface_lookup_without_holder(rest, ip);
    }
}

/// Removing the routes of a peer keeps exactly the routes of the other peers,
/// in order, and asks for the removal of each route of that peer from its
/// interface, in the order they were added.
pub proof fn law_remove_peer_routes(m: PeerRouteManagerModel, peer_id: PeerId)
    ensures
        ({
            let (m1, commands) = m.remove_peer(peer_id);
            let removed = m.routes.filter(|r: PeerRouteModel| r.peer_id == peer_id);
            &&& forall|i: int| 0 <= i < m1.routes.len() ==> (#[trigger] m1.routes[i]).peer_id != peer_id
            &&& forall|i: int| 0 <= i < removed.len() ==> (#[trigger] removed[i]).peer_id == peer_id
            &&& forall|i: int|
                0 <= i < m.routes.len() && m.routes[i].peer_id != peer_id ==> m1.routes.contains(#[trigger] m.routes[i])
            &&& commands.len() == removed.len()
            &&& forall|i: int| 0 <= i < commands.len() ==> #[trigger] commands[i] == peer_route_remove_command(removed[i])
            &&& m1.pending == m.pending
        }),
{
    let keep = |r: PeerRouteModel| r.peer_id != peer_id;
    let drop = |r: PeerRouteModel| r.peer_id == peer_id;
    let (m1, commands) = m.remove_peer(peer_id);
    assert forall|i: int| 0 <= i < m1.routes.len() implies (#[trigger] m1.routes[i]).peer_id != peer_id by {
        m.routes.lemma_filter_pred(keep, i);
    }
    let removed = m.routes.filter(drop);
    assert forall|i: int| 0 <= i < removed.len() implies (#[trigger] removed[i]).peer_id == peer_id by {
        m.routes.lemma_filter_pred(drop, i);
    }
    assert forall|i: int| 0 <= i < m.routes.len() && m.routes[i].peer_id != peer_id implies
        m1.routes.contains(#[trigger] m.routes[i]) by {
        m.routes.lemma_filter_contains(keep, i);
    }
}

/// Removing the routes of a peer right after one was added for it, when it
/// had none before, gives back the routes there were before the addition
/// and asks for the removal of the added route alone.
pub proof fn law_remove_undoes_add(
    m: PeerRouteManagerModel,
    peer_id: PeerId,
    remote_ip: IpAddress,
    interface: Seq<char>,
)
    requires
        forall|i: int| 0 <= i < m.routes.len() ==> (#[trigger] m.routes[i]).peer_id != peer_id,
    ensures
        ({
            let added = m.on_route_added(peer_id, remote_ip, interface, Ok(())).0;
            let (m2, commands) = added.remove_peer(peer_id);
            &&& m2.routes == m.routes
            &&& commands == seq![
                peer_route_remove_command(
                    PeerRouteModel { peer_id, destination: remote_ip, interface, prefix: PEER_ROUTE_PREFIX },
                ),
            ]
        }),
{
    reveal_with_fuel(Seq::<_>::filter, 1);
    let keep = |r: PeerRouteModel| r.peer_id != peer_id;
    let drop = |r: PeerRouteModel| r.peer_id == peer_id;
    let route = PeerRouteModel { peer_id, destination: remote_ip, interface, prefix: PEER_ROUTE_PREFIX };
    let routes = m.routes.push(route);
    lemma_filter_all(m.routes, keep);
    lemma_filter_none(m.routes, drop);
    assert(routes.drop_last() =~= m.routes);
    assert(routes.filter(keep) == m.routes);
    assert(routes.filter(drop) == seq![route]);
    let f = |r: PeerRouteModel| peer_route_remove_command(r);
    assert(seq![route].map_values(f) =~= seq![f(route)]);
}

/// Every recorded peer route is a host route, whatever is added or removed.
pub proof fn law_peer_routes_are_host_routes(
    m: PeerRouteManagerModel,
    peer_id: PeerId,
    remote_ip: IpAddress,
    interface: Seq<char>,
    outcome: Result<(), Seq<char>>,
)
    requires
        m.wf(),
    ensures
        m.on_route_added(peer_id, remote_ip, interface, outcome).0.wf(),
        m.remove_peer(peer_id).0.wf(),
{
    let r = m.on_route_added(peer_id, remote_ip, interface, outcome).0;
    assert forall|i: int| 0 <= i < r.routes.len() implies (#[trigger] r.routes[i]).prefix == PEER_ROUTE_PREFIX by {
        if i < m.routes.len() {
            assert(r.routes[i] == m.routes[i]);
        }
    }
    let keep = |x: PeerRouteModel| x.peer_id != peer_id;
    let host = |x: PeerRouteModel| x.prefix == PEER_ROUTE_PREFIX;
    assert forall|i: int| 0 <= i < m.routes.len() implies host(#[trigger] m.routes[i]) by {}
    lemma_filter_keeps_property(m.routes, keep, host);
}

/// The routes and route commands have the shapes the managers are documented
/// with. The exit node at position `i` of an update is its own real address,
/// with priority `i`. Its loop-prevention route is the /32 route to its virtual
/// address via its real address, on interface index 1, with metric priority
/// plus 100. The default route is `0.0.0.0/0` on interface index 1 with metric
/// 100. The routing table is asked to add or remove a route by interface,
/// destination and prefix alone. A peer route is a /32 host route to the peer
/// via the default gateway with metric 100.
pub proof fn law_route_shapes(
    ip: IpAddress,
    i: int,
    c: ExitNodeConfig,
    interface: Seq<char>,
    r: Route,
    destination: IpAddress,
    gateway: IpAddress,
)
    requires
        0 <= i <= u32::MAX,
        c.priority + 100 <= u32::MAX,
    ensures
        exit_node_config(ip, i) == (ExitNodeConfig {
            is_exit_node: true,
            virtual_ip: ip,
            real_ip: ip,
            priority: i as u32,
            prevent_loop: true,
        }),
        loop_prevention_route(c) == (Route {
            destination: c.virtual_ip,
            prefix: 32,
            gateway: Some(c.real_ip),
            ifindex: Some(1),
            metric: Some((c.priority + 100) as u32),
            exit_node_config: Some(c),
        }),
        default_route() == (Route {
            destination: IpAddress::V4(0),
            prefix: 0,
            gateway: None,
            ifindex: Some(1),
            metric: Some(100),
            exit_node_config: None,
        }),
        add_command(interface, r) == (RouteCommandModel {
            change: RouteChange::Add,
            interface,
            destination: r.destination,
            prefix: r.prefix,
            gateway: None,
            cost: None,
        }),
        remove_command(interface, r) == (RouteCommandModel {
            change: RouteChange::Remove,
            interface,
            destination: r.destination,
            prefix: r.prefix,
            gateway: None,
            cost: None,
        }),
        peer_route_add_command(interface, destination, gateway) == (RouteCommandModel {
            change: RouteChange::Add,
            interface,
            destination,
            prefix: 32,
            gateway: Some(gateway),
            cost: Some(100),
        }),
{
}

/// Each way an addition can fail is reported as itself: no remote address,
/// an address that does not resolve (with the resolver's message), no socket
/// address, a failed gateway lookup (with its message), no default gateway, a
/// failed interface lookup (with its message), no interface, and a failed
/// route installation, which tells whether the destination is IPv6 and
/// carries the configurator's message.
pub proof fn law_peer_route_failures_reported(
    m: PeerRouteManagerModel,
    peer_id: PeerId,
    remote_ip: IpAddress,
    gateway: IpAddress,
    interface: Seq<char>,
    e: Seq<char>,
)
    ensures
        m.start_add(peer_id, None).1 == PeerRouteActionModel::Done(Err(PeerRouteErrorModel::RemoteAddrMissing)),
        m.on_remote_addresses(peer_id, Err(e)).1 == PeerRouteActionModel::Done(
            Err(PeerRouteErrorModel::RemoteAddrUnresolvable(e)),
        ),
        m.on_remote_addresses(peer_id, Ok(Seq::empty())).1 == PeerRouteActionModel::Done(
            Err(PeerRouteErrorModel::NoSocketAddresses),
        ),
        m.on_default_gateway(peer_id, remote_ip, Err(e)).1 == PeerRouteActionModel::Done(
            Err(PeerRouteErrorModel::GatewayLookupFailed(e)),
        ),
        m.on_default_gateway(peer_id, remote_ip, Ok(None)).1 == PeerRouteActionModel::Done(
            Err(PeerRouteErrorModel::NoDefaultGateway),
        ),
        m.on_interface(peer_id, remote_ip, gateway, Err(e)).1 == PeerRouteActionModel::Done(
            Err(PeerRouteErrorModel::InterfaceLookupFailed(e)),
        ),
        m.on_interface(peer_id, remote_ip, gateway, Ok(None)).1 == PeerRouteActionModel::Done(
            Err(PeerRouteErrorModel::NoInterface),
        ),
        m.on_route_added(peer_id, remote_ip, interface, Err(e)).1 == PeerRouteActionModel::Done(
            Err(PeerRouteErrorModel::RouteAdditionFailed { ipv6: !(remote_ip is V4), message: e }),
        ),
{
}

} // verus!
