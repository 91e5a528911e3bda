//! Laws about exit-node operations whatever their outcomes, and about whole
//! histories of operations.

use vstd::prelude::*;
use crate::ip::IpAddress;
use crate::route::{RouteChange, RouteCommandModel, add_command, remove_command};
use crate::model::{
    ExitNodeErrorModel, HOST_ROUTE_PREFIX, MAX_EXIT_NODES, ManagerModel, StepModel, TaskModel,
    default_route, exit_node_config, exit_node_configs, exit_route_commands, loop_prevention_route,
    loop_prevention_routes, removal_commands, resolution_map, run,
};
use crate::laws::{
    law_cleanup_removes_every_route, law_update_installs_exit_nodes, law_update_stops_at_failed_route,
    law_update_without_exit_nodes_fails, lemma_resume_keeps_wf, lemma_start_cleanup_keeps_wf,
    lemma_start_default_route_keeps_wf, lemma_start_update_keeps_wf, lemma_virtual_ips_of_configs,
};

verus! {

/// What a command that the routing table answered ended with: the error
/// message on failure.
pub type Outcome = Result<(), Seq<char>>;

/// Answers beyond the end of an operation are not looked at.
pub proof fn lemma_run_ignores_later_outcomes(
    m: ManagerModel,
    s: StepModel,
    first: Seq<Outcome>,
    later: Seq<Outcome>,
)
    requires
        run(m, s, first).1 is Done,
    ensures
        run(m, s, first + later) == run(m, s, first),
    decreases first.len(),
{
    match s {
        StepModel::Done(_) => {},
        StepModel::Run(c) => {
            if first.len() > 0 {
                let (m2, s2) = m.resume(first[0]);
                assert((first + later)[0] == first[0]);
                assert((first + later).drop_first() =~= first.drop_first() + later);
                lemma_run_ignores_later_outcomes(m2, s2, first.drop_first(), later);
            }
        },
    }
}

/// Every addition that an update of `n` exit nodes asks for, after the `a`
/// removals, succeeds among `outcomes`.
pub open spec fn additions_succeed(outcomes: Seq<Outcome>, a: int, n: int) -> bool {
    forall|j: int| 0 <= j < n ==> #[trigger] outcomes[a + j] is Ok
}

/// However its route commands end, given an answer for each of them, an update
/// with exit nodes `ips` configures exactly `ips`, in list order with their
/// positions as priorities, maps each of them to itself and nothing else, and
/// ends idle. It fails exactly when `ips` is empty or a route addition fails
/// (removal failures never matter); the routes of the nodes before the first
/// failed addition stay active; the most preferred exit node is the first of
/// the list.
pub proof fn law_update_ends(m: ManagerModel, ips: Seq<IpAddress>, outcomes: Seq<Outcome>)
    requires
        m.wf(),
        ips.len() <= MAX_EXIT_NODES,
        outcomes.len() >= m.active_routes.len() + ips.len(),
    ensures
        ({
            let (m1, s1) = m.start_update(ips);
            let (m2, s2, commands) = run(m1, s1, outcomes);
            let configs = exit_node_configs(ips);
            let a = m.active_routes.len() as int;
            let n = ips.len() as int;
            let removals = removal_commands(m.tun_interface, m.active_routes);
            &&& m2.mapping == resolution_map(ips)
            &&& m2.exit_nodes == configs
            &&& forall|i: int| 0 <= i < n ==> #[trigger] m2.exit_nodes[i] == exit_node_config(ips[i], i)
            &&& m2.tun_interface == m.tun_interface
            &&& m2.task == TaskModel::Idle
            &&& s2 is Done
            &&& (s2->Done_0 is Err <==> (n == 0 || exists|j: int| 0 <= j < n && #[trigger] outcomes[a + j] is Err))
            &&& n > 0 ==> m2.best_exit_node() == Some(exit_node_config(ips[0], 0))
            &&& n == 0 ==> {
                &&& s2 == StepModel::Done(Err(ExitNodeErrorModel::NoExitNodesResolved))
                &&& m2.active_routes.len() == 0
                &&& commands == removals
            }
            &&& (n > 0 && additions_succeed(outcomes, a, n)) ==> {
                &&& s2 == StepModel::Done(Ok(()))
                &&& m2.active_routes == loop_prevention_routes(configs)
                &&& commands == removals + exit_route_commands(m.tun_interface, configs)
            }
            &&& forall|k: int|
                0 <= k < n && additions_succeed(outcomes, a, k) && (#[trigger] outcomes[a + k]) is Err
                    ==> {
                    &&& s2 == StepModel::Done(
                        Err(ExitNodeErrorModel::RouteAdditionFailed(outcomes[a + k]->Err_0)),
                    )
                    &&& m2.active_routes == loop_prevention_routes(configs.take(k))
                    &&& commands == removals + exit_route_commands(m.tun_interface, configs.take(k + 1))
                }
        }),
{
    let (m1, s1) = m.start_update(ips);
    let configs = exit_node_configs(ips);
    let a = m.active_routes.len() as int;
    let n = ips.len() as int;
    let tun = m.tun_interface;
    if n == 0 {
        assert(ips =~= Seq::<IpAddress>::empty());
        let head = outcomes.take(a);
        law_update_without_exit_nodes_fails(m, head);
        lemma_run_ignores_later_outcomes(m1, s1, head, outcomes.skip(a));
        assert(head + outcomes.skip(a) =~= outcomes);
        assert(configs =~= Seq::<crate::route::ExitNodeConfig>::empty());
        assert(resolution_map(ips) =~= Map::<IpAddress, IpAddress>::empty());
    } else if additions_succeed(outcomes, a, n) {
        let head = outcomes.take(a + n);
        assert forall|i: int| a <= i < head.len() implies #[trigger] head[i] is Ok by {
            assert(head[i] == outcomes[a + (i - a)]);
        }
        law_update_installs_exit_nodes(m, ips, head);
        lemma_run_ignores_later_outcomes(m1, s1, head, outcomes.skip(a + n));
        assert(head + outcomes.skip(a + n) =~= outcomes);
        assert(forall|j: int| 0 <= j < n ==> #[trigger] outcomes[a + j] is Ok);
        assert forall|k: int|
            0 <= k < n && additions_succeed(outcomes, a, k) && (#[trigger] outcomes[a + k]) is Err
            implies false by {
            assert(outcomes[a + k] is Ok);
        }
    } else {
        let k = choose|k: int| 0 <= k < n && !(#[trigger] outcomes[a + k] is Ok);
        let k0 = first_failure(outcomes, a, k);
        let e = outcomes[a + k0]->Err_0;
        let head = outcomes.take(a + k0 + 1);
        assert forall|i: int| a <= i < a + k0 implies #[trigger] head[i] is Ok by {
            assert(head[i] == outcomes[a + (i - a)]);
        }
        assert(head[a + k0] == outcomes[a + k0]);
        law_update_stops_at_failed_route(m, ips, k0, e, head);
        lemma_run_ignores_later_outcomes(m1, s1, head, outcomes.skip(a + k0 + 1));
        assert(head + outcomes.skip(a + k0 + 1) =~= outcomes);
        assert(outcomes[a + k0] == Err::<(), Seq<char>>(e));
        assert forall|k2: int|
            0 <= k2 < n && additions_succeed(outcomes, a, k2) && (#[trigger] outcomes[a + k2]) is Err
            implies k2 == k0 by {
            if k2 < k0 {
                assert(outcomes[a + k2] is Ok);
            } else if k2 > k0 {
                assert(outcomes[a + k0] is Ok);
            }
        }
    }
}

/// The first addition at or before position `k` whose outcome is a failure.
pub proof fn first_failure(outcomes: Seq<Outcome>, a: int, k: int) -> (k0: int)
    requires
        0 <= k,
        a >= 0,
        a + k < outcomes.len(),
        !(outcomes[a + k] is Ok),
    ensures
        0 <= k0 <= k,
        !(outcomes[a + k0] is Ok),
        additions_succeed(outcomes, a, k0),
    decreases k,
{
    if additions_succeed(outcomes, a, k) {
        k
    } else {
        let j = choose|j: int| 0 <= j < k && !(#[trigger] outcomes[a + j] is Ok);
        first_failure(outcomes, a, j)
    }
}

/// An update whose route additions all succeed leaves the same state and
/// result from any consistent manager with the same interface: an update
/// replaces what was configured, and never adds to it.
pub proof fn law_update_replaces(
    m1: ManagerModel,
    o1: Seq<Outcome>,
    m2: ManagerModel,
    o2: Seq<Outcome>,
    ips: Seq<IpAddress>,
)
    requires
        m1.wf(),
        m2.wf(),
        m1.tun_interface == m2.tun_interface,
        ips.len() <= MAX_EXIT_NODES,
        o1.len() >= m1.active_routes.len() + ips.len(),
        o2.len() >= m2.active_routes.len() + ips.len(),
        additions_succeed(o1, m1.active_routes.len() as int, ips.len() as int),
        additions_succeed(o2, m2.active_routes.len() as int, ips.len() as int),
    ensures
        ({
            let (a1, b1) = m1.start_update(ips);
            let (a2, b2) = m2.start_update(ips);
            let r1 = run(a1, b1, o1);
            let r2 = run(a2, b2, o2);
            r1.0 == r2.0 && r1.1 == r2.1
        }),
{
    law_update_ends(m1, ips, o1);
    law_update_ends(m2, ips, o2);
    let (a1, b1) = m1.start_update(ips);
    let (a2, b2) = m2.start_update(ips);
    let r1 = run(a1, b1, o1);
    let r2 = run(a2, b2, o2);
    if ips.len() == 0 {
        assert(r1.0.active_routes =~= r2.0.active_routes);
    }
}

/// An update removes a default route that was installed, and asks for no
/// route but the host routes of its exit nodes: the default route does not
/// come back. When every addition succeeds, there is one active route per
/// exit node.
pub proof fn law_update_removes_default_route(m: ManagerModel, ips: Seq<IpAddress>, outcomes: Seq<Outcome>)
    requires
        m.wf(),
        ips.len() <= MAX_EXIT_NODES,
        outcomes.len() >= m.active_routes.len() + ips.len(),
        m.active_routes.contains(default_route()),
    ensures
        ({
            let (m1, s1) = m.start_update(ips);
            let (m2, s2, commands) = run(m1, s1, outcomes);
            &&& commands.contains(remove_command(m.tun_interface, default_route()))
            &&& forall|i: int|
                0 <= i < commands.len() && (#[trigger] commands[i]).change == RouteChange::Add
                    ==> commands[i].prefix == HOST_ROUTE_PREFIX
            &&& additions_succeed(outcomes, m.active_routes.len() as int, ips.len() as int)
                ==> m2.active_routes.len() == ips.len()
        }),
{
    law_update_ends(m, ips, outcomes);
    let (m1, s1) = m.start_update(ips);
    let (m2, s2, commands) = run(m1, s1, outcomes);
    let tun = m.tun_interface;
    let configs = exit_node_configs(ips);
    let a = m.active_routes.len() as int;
    let n = ips.len() as int;
    let removals = removal_commands(tun, m.active_routes);
    let i0 = choose|i: int| 0 <= i < m.active_routes.len() && m.active_routes[i] == default_route();
    assert(removals[a - 1 - i0] == remove_command(tun, default_route()));
    assert forall|t: int| 0 <= t <= n implies
        forall|i: int| 0 <= i < (#[trigger] exit_route_commands(tun, configs.take(t))).len()
            ==> exit_route_commands(tun, configs.take(t))[i] == add_command(tun, loop_prevention_route(configs.take(t)[i])) by {
    }
    if n == 0 {
        assert(commands[a - 1 - i0] == removals[a - 1 - i0]);
    } else if additions_succeed(outcomes, a, n) {
        let adds = exit_route_commands(tun, configs);
        assert(commands == removals + adds);
        assert(commands[a - 1 - i0] == removals[a - 1 - i0]);
        assert forall|i: int| 0 <= i < commands.len() && (#[trigger] commands[i]).change == RouteChange::Add
            implies commands[i].prefix == HOST_ROUTE_PREFIX by {
            if i >= a {
                assert(commands[i] == adds[i - a]);
            }
        }
        assert(m2.active_routes.len() == loop_prevention_routes(configs).len());
    } else {
        let k = choose|k: int| 0 <= k < n && !(#[trigger] outcomes[a + k] is Ok);
        let k0 = first_failure(outcomes, a, k);
        let e = outcomes[a + k0]->Err_0;
        assert(outcomes[a + k0] == Err::<(), Seq<char>>(e));
        let adds = exit_route_commands(tun, configs.take(k0 + 1));
        assert(commands == removals + adds);
        assert(commands[a - 1 - i0] == removals[a - 1 - i0]);
        assert forall|i: int| 0 <= i < commands.len() && (#[trigger] commands[i]).change == RouteChange::Add
            implies commands[i].prefix == HOST_ROUTE_PREFIX by {
            if i >= a {
                assert(commands[i] == adds[i - a]);
            }
        }
    }
}

/// An operation of the exit-node manager.
pub enum Operation {
    Cleanup,
    Update(Seq<IpAddress>),
    DefaultRoute,
}

/// Start operation `op` on `m`.
pub open spec fn start_operation(m: ManagerModel, op: Operation) -> (ManagerModel, StepModel) {
    match op {
        Operation::Cleanup => m.start_cleanup(),
        Operation::Update(ips) => m.start_update(ips),
        Operation::DefaultRoute => m.start_default_route(),
    }
}

/// The route additions among `commands` whose outcome, the answer at the same
/// position of `outcomes`, is a success; in order.
pub open spec fn succeeded_additions(commands: Seq<RouteCommandModel>, outcomes: Seq<Outcome>) -> Seq<
    RouteCommandModel,
>
    decreases commands.len(),
{
    if commands.len() == 0 || outcomes.len() == 0 {
        Seq::empty()
    } else {
        let rest = succeeded_additions(commands.drop_first(), outcomes.drop_first());
        if commands[0].change == RouteChange::Add && outcomes[0] is Ok {
            seq![commands[0]] + rest
        } else {
            rest
        }
    }
}

/// The state after running each operation of `history` in turn from `m`,
/// each with its answers.
pub open spec fn replay(m: ManagerModel, history: Seq<(Operation, Seq<Outcome>)>) -> ManagerModel
    decreases history.len(),
{
    if history.len() == 0 {
        m
    } else {
        let (op, outcomes) = history.last();
        let (m1, s1) = start_operation(replay(m, history.drop_last()), op);
        run(m1, s1, outcomes).0
    }
}

/// Every operation of `history` ends with its answers, and no update has
/// more than [`MAX_EXIT_NODES`] exit nodes.
pub open spec fn completes(m: ManagerModel, history: Seq<(Operation, Seq<Outcome>)>) -> bool
    decreases history.len(),
{
    if history.len() == 0 {
        true
    } else {
        let (op, outcomes) = history.last();
        let (m1, s1) = start_operation(replay(m, history.drop_last()), op);
        &&& completes(m, history.drop_last())
        &&& (op matches Operation::Update(ips) ==> ips.len() <= MAX_EXIT_NODES)
        &&& run(m1, s1, outcomes).1 is Done
    }
}

/// The route additions that succeeded during `history` since the last
/// cleanup or update started (both take every route down first), in order.
pub open spec fn additions_since_drain(m: ManagerModel, history: Seq<(Operation, Seq<Outcome>)>) -> Seq<
    RouteCommandModel,
>
    decreases history.len(),
{
    if history.len() == 0 {
        Seq::empty()
    } else {
        let (op, outcomes) = history.last();
        let (m1, s1) = start_operation(replay(m, history.drop_last()), op);
        let before = if op is DefaultRoute {
            additions_since_drain(m, history.drop_last())
        } else {
            Seq::empty()
        };
        before + succeeded_additions(run(m1, s1, outcomes).2, outcomes)
    }
}

/// The addition commands of `routes` on `interface`.
pub open spec fn addition_commands(interface: Seq<char>, routes: Seq<crate::route::Route>) -> Seq<RouteCommandModel> {
    routes.map_values(|r: crate::route::Route| add_command(interface, r))
}

/// The removal that undoes an addition.
pub open spec fn undoing(c: RouteCommandModel) -> RouteCommandModel {
    RouteCommandModel { change: RouteChange::Remove, gateway: None, cost: None, ..c }
}

/// The manager waits for the outcome of `c`.
spec fn awaits(m: ManagerModel, c: RouteCommandModel) -> bool {
    match m.task {
        TaskModel::Idle => false,
        TaskModel::Removing { .. } => c.change == RouteChange::Remove,
        TaskModel::AddingExitRoutes { next } => next < m.exit_nodes.len() && c == add_command(
            m.tun_interface,
            loop_prevention_route(m.exit_nodes[next as int]),
        ),
        TaskModel::AddingDefaultRoute => c == add_command(m.tun_interface, default_route()),
    }
}

proof fn lemma_addition_commands_push(interface: Seq<char>, routes: Seq<crate::route::Route>, r: crate::route::Route)
    ensures
        addition_commands(interface, routes.push(r)) == addition_commands(interface, routes).push(
            add_command(interface, r),
        ),
{
    assert(addition_commands(interface, routes.push(r)) =~= addition_commands(interface, routes).push(
        add_command(interface, r),
    ));
}

/// One answer: the route that was added, if any, is the command answered.
proof fn lemma_resume_records(m: ManagerModel, c: RouteCommandModel, outcome: Outcome)
    requires
        m.wf(),
        awaits(m, c),
    ensures
        ({
            let (m2, s2) = m.resume(outcome);
            let tun = m.tun_interface;
            &&& m2.tun_interface == tun
            &&& (s2 matches StepModel::Run(c2) ==> awaits(m2, c2))
            &&& addition_commands(tun, m2.active_routes) == addition_commands(tun, m.active_routes) + (if c.change
                == RouteChange::Add && outcome is Ok {
                seq![c]
            } else {
                Seq::empty()
            })
        }),
{
    let tun = m.tun_interface;
    let (m2, s2) = m.resume(outcome);
    let before = addition_commands(tun, m.active_routes);
    match m.task {
        TaskModel::Removing { queue, then } => {
            assert(before + Seq::<RouteCommandModel>::empty() =~= before);
            if queue.len() == 0 {
                match then {
                    None => {},
                    Some(ips) => {
                        if ips.len() > 0 {
                            assert(exit_node_configs(ips).len() > 0);
                        }
                    },
                }
            }
        },
        TaskModel::AddingExitRoutes { next } => {
            match outcome {
                Ok(_) => {
                    lemma_addition_commands_push(
                        tun,
                        m.active_routes,
                        loop_prevention_route(m.exit_nodes[next as int]),
                    );
                    assert(before.push(c) =~= before + seq![c]);
                },
                Err(_) => {
                    assert(before + Seq::<RouteCommandModel>::empty() =~= before);
                },
            }
        },
        TaskModel::AddingDefaultRoute => {
            match outcome {
                Ok(_) => {
                    lemma_addition_commands_push(tun, m.active_routes, default_route());
                    assert(before.push(c) =~= before + seq![c]);
                },
                Err(_) => {
                    assert(before + Seq::<RouteCommandModel>::empty() =~= before);
                },
            }
        },
        TaskModel::Idle => {},
    }
}

/// Driving an operation to its end adds to the active routes exactly the
/// additions that succeeded.
proof fn lemma_run_records(m: ManagerModel, c: RouteCommandModel, outcomes: Seq<Outcome>)
    requires
        m.wf(),
        awaits(m, c),
        run(m, StepModel::Run(c), outcomes).1 is Done,
    ensures
        ({
            let (m3, s3, commands) = run(m, StepModel::Run(c), outcomes);
            let tun = m.tun_interface;
            &&& m3.wf()
            &&& m3.tun_interface == tun
            &&& addition_commands(tun, m3.active_routes) == addition_commands(tun, m.active_routes)
                + succeeded_additions(commands, outcomes)
        }),
    decreases outcomes.len(),
{
    let tun = m.tun_interface;
    let (m2, s2) = m.resume(outcomes[0]);
    lemma_resume_records(m, c, outcomes[0]);
    lemma_resume_keeps_wf(m, outcomes[0]);
    let rest = outcomes.drop_first();
    let head = if c.change == RouteChange::Add && outcomes[0] is Ok {
        seq![c]
    } else {
        Seq::<RouteCommandModel>::empty()
    };
    match s2 {
        StepModel::Done(_) => {
            assert(run(m2, s2, rest) == (m2, s2, Seq::<RouteCommandModel>::empty()));
            let commands = seq![c] + Seq::<RouteCommandModel>::empty();
            assert(commands =~= seq![c]);
            assert(commands.drop_first() =~= Seq::<RouteCommandModel>::empty());
            assert(succeeded_additions(commands.drop_first(), rest) == Seq::<RouteCommandModel>::empty());
            assert(commands[0] == c);
            assert(head + Seq::<RouteCommandModel>::empty() =~= head);
            assert(succeeded_additions(commands, outcomes) == head);
        },
        StepModel::Run(c2) => {
            lemma_run_records(m2, c2, rest);
            let (m3, s3, later) = run(m2, s2, rest);
            let commands = seq![c] + later;
            assert(commands.drop_first() =~= later);
            assert(commands[0] == c);
            let a0 = addition_commands(tun, m.active_routes);
            assert(a0 + head + succeeded_additions(later, rest) =~= a0 + (head + succeeded_additions(later, rest)));
            if !(c.change == RouteChange::Add && outcomes[0] is Ok) {
                assert(head + succeeded_additions(later, rest) =~= succeeded_additions(later, rest));
            }
        },
    }
}

/// One operation: a cleanup or an update leaves active exactly the additions
/// that succeeded during it; setting up the default route adds to the routes
/// before it the addition that succeeded, if it did.
proof fn lemma_operation_records(m: ManagerModel, op: Operation, outcomes: Seq<Outcome>)
    requires
        m.wf(),
        op matches Operation::Update(ips) ==> ips.len() <= MAX_EXIT_NODES,
        run(start_operation(m, op).0, start_operation(m, op).1, outcomes).1 is Done,
    ensures
        ({
            let (m1, s1) = start_operation(m, op);
            let (m3, s3, commands) = run(m1, s1, outcomes);
            let tun = m.tun_interface;
            let before = if op is DefaultRoute {
                addition_commands(tun, m.active_routes)
            } else {
                Seq::empty()
            };
            &&& m3.wf()
            &&& m3.tun_interface == tun
            &&& addition_commands(tun, m3.active_routes) == before + succeeded_additions(commands, outcomes)
        }),
{
    let tun = m.tun_interface;
    let (m1, s1) = start_operation(m, op);
    let emptied = ManagerModel { active_routes: Seq::empty(), ..m };
    match op {
        Operation::Cleanup => lemma_start_cleanup_keeps_wf(m),
        Operation::Update(ips) => {
            lemma_start_update_keeps_wf(m, ips);
            if m.active_routes.len() == 0 && ips.len() > 0 {
                assert(exit_node_configs(ips).len() > 0);
            }
        },
        Operation::DefaultRoute => lemma_start_default_route_keeps_wf(m),
    }
    let before = if op is DefaultRoute {
        addition_commands(tun, m.active_routes)
    } else {
        Seq::empty()
    };
    if !(op is DefaultRoute) {
        assert(m1.active_routes.len() == 0);
        assert(addition_commands(tun, m1.active_routes) =~= before);
    }
    match s1 {
        StepModel::Done(_) => {
            assert(before + Seq::<RouteCommandModel>::empty() =~= before);
        },
        StepModel::Run(c) => {
            lemma_run_records(m1, c, outcomes);
        },
    }
}

/// The manager with nothing configured is consistent.
pub proof fn lemma_initial_wf(tun: Seq<char>)
    ensures
        ManagerModel::initial(tun).wf(),
{
    let m = ManagerModel::initial(tun);
    lemma_virtual_ips_of_configs(Seq::empty());
    assert(m.exit_nodes =~= exit_node_configs(Seq::empty()));
    assert(m.mapping =~= resolution_map(Seq::empty()));
}

/// After any history of completed operations on a new manager, the active
/// routes are exactly those whose addition succeeded since the last cleanup
/// or update started, in the order they were added.
pub proof fn law_active_routes_are_successful_additions(tun: Seq<char>, history: Seq<(Operation, Seq<Outcome>)>)
    requires
        completes(ManagerModel::initial(tun), history),
    ensures
        ({
            let m = replay(ManagerModel::initial(tun), history);
            &&& m.wf()
            &&& m.tun_interface == tun
            &&& addition_commands(tun, m.active_routes) == additions_since_drain(ManagerModel::initial(tun), history)
        }),
    decreases history.len(),
{
    let init = ManagerModel::initial(tun);
    if history.len() == 0 {
        lemma_initial_wf(tun);
        assert(addition_commands(tun, init.active_routes) =~= Seq::<RouteCommandModel>::empty());
    } else {
        let (op, outcomes) = history.last();
        law_active_routes_are_successful_additions(tun, history.drop_last());
        let prev = replay(init, history.drop_last());
        lemma_operation_records(prev, op, outcomes);
    }
}

/// After any history of completed operations on a new manager, a cleanup
/// removes exactly the routes whose addition succeeded since the last cleanup
/// or update started, newest first, and no other route, whatever the
/// outcomes of the removals.
pub proof fn law_cleanup_removes_successful_additions(
    tun: Seq<char>,
    history: Seq<(Operation, Seq<Outcome>)>,
    outcomes: Seq<Outcome>,
)
    requires
        completes(ManagerModel::initial(tun), history),
        outcomes.len() == replay(ManagerModel::initial(tun), history).active_routes.len(),
    ensures
        ({
            let m = replay(ManagerModel::initial(tun), history);
            let (m1, s1) = m.start_cleanup();
            let (m2, s2, commands) = run(m1, s1, outcomes);
            &&& s2 == StepModel::Done(Ok(()))
            &&& m2.active_routes.len() == 0
            &&& commands == additions_since_drain(ManagerModel::initial(tun), history).reverse().map_values(
                |c: RouteCommandModel| undoing(c),
            )
        }),
{
    law_active_routes_are_successful_additions(tun, history);
    let m = replay(ManagerModel::initial(tun), history);
    law_cleanup_removes_every_route(m, outcomes);
    let adds = addition_commands(tun, m.active_routes);
    assert(removal_commands(tun, m.active_routes) =~= adds.reverse().map_values(|c: RouteCommandModel| undoing(c)));
}

} // verus!
