//! From start to exit: what the process does, in which order, and with which code it ends.

use crate::config::Config;
use crate::text;
use vstd::prelude::*;

verus! {

/// One step in the life of the process.
#[derive(Debug, Clone, Copy, PartialEq, Eq, Structural)]
pub enum Action {
    /// Start logging.
    StartLogging,
    /// Open the store and recover what was leased.
    OpenStore,
    /// Read the address for requests.
    ReadListenAddress,
    /// Install the metrics recorder.
    InstallRecorder,
    /// Read the address for administration.
    ReadAdminAddress,
    /// Bind the address for requests and serve there.
    StartServer,
    /// Bind the address for administration and serve there.
    StartAdmin,
    /// Start syncing, pushing and sweeping in the background.
    StartLoops,
    /// Tell clients that the services serve.
    ReportServing,
    /// Become ready.
    SetReady,
    /// Tell the service manager that the process is ready, and that it stays alive.
    NotifyReady,
    /// Wait until the process is asked to stop.
    AwaitSignal,
    /// Stop being ready.
    SetDraining,
    /// Tell clients that the services do not serve any more.
    ReportNotServing,
    /// Tell the service manager that the process stops.
    NotifyStopping,
    /// Wait for requests under way, for as long as is granted to them.
    Drain,
    /// Wait until the background has come to an end.
    AwaitLoops,
    /// Sync the store a last time.
    SyncStore,
    /// End the process with a code.
    Exit(u8),
}

/// What the configuration asks for.
#[derive(Debug, Clone, Copy, PartialEq, Eq, Structural)]
pub struct Plan {
    /// The store is on disk.
    pub on_disk: bool,
    /// Metrics are recorded.
    pub metrics: bool,
    /// There is an address of its own for administration.
    pub admin: bool,
}

/// The exit code of a process that ended as it should.
pub const EXIT_OK: u8 = 0;

/// The exit code for an error at run time, such as a store that cannot be opened.
pub const EXIT_RUNTIME: u8 = 1;

/// The exit code for a configuration or an environment in which the process cannot start.
pub const EXIT_CONFIG: u8 = 2;

/// The place of an action in the order in which they are done.
pub open spec fn order(a: Action) -> int {
    match a {
        Action::StartLogging => 0,
        Action::OpenStore => 1,
        Action::ReadListenAddress => 2,
        Action::InstallRecorder => 3,
        Action::ReadAdminAddress => 4,
        Action::StartServer => 5,
        Action::StartAdmin => 6,
        Action::StartLoops => 7,
        Action::ReportServing => 8,
        Action::SetReady => 9,
        Action::NotifyReady => 10,
        Action::AwaitSignal => 11,
        Action::SetDraining => 12,
        Action::ReportNotServing => 13,
        Action::NotifyStopping => 14,
        Action::Drain => 15,
        Action::AwaitLoops => 16,
        Action::SyncStore => 17,
        Action::Exit(_) => 18,
    }
}

/// Whether an action is done when nothing fails.
pub open spec fn planned(plan: Plan, a: Action) -> bool {
    match a {
        Action::InstallRecorder => plan.metrics,
        Action::ReadAdminAddress => plan.admin,
        Action::StartAdmin => plan.admin,
        Action::Exit(code) => code == EXIT_OK,
        _ => true,
    }
}

/// The exit code when an action fails; none for one that the process goes on without.
pub open spec fn code_on_failure(a: Action) -> Option<u8> {
    match a {
        Action::StartLogging => Some(EXIT_RUNTIME),
        Action::OpenStore => Some(EXIT_RUNTIME),
        Action::ReadListenAddress => Some(EXIT_CONFIG),
        Action::ReadAdminAddress => Some(EXIT_CONFIG),
        Action::StartServer => Some(EXIT_CONFIG),
        Action::StartAdmin => Some(EXIT_CONFIG),
        _ => None,
    }
}

/// `b` is the first planned action after `a`.
pub open spec fn follows(plan: Plan, a: Action, b: Action) -> bool {
    &&& planned(plan, b)
    &&& order(a) < order(b)
    &&& forall|c: Action| #[trigger]
        planned(plan, c) && order(a) < order(c) ==> order(b) <= order(c)
}

/// `b` is what comes after `a`, which succeeded or not.
pub open spec fn comes_next(plan: Plan, a: Action, ok: bool, b: Action) -> bool {
    if a is Exit {
        b == a
    } else if !ok && code_on_failure(a) is Some {
        b == Action::Exit(code_on_failure(a)->0)
    } else {
        follows(plan, a, b)
    }
}

/// What the configuration asks for.
pub fn plan(cfg: &Config) -> (r: Plan)
    ensures
        r.on_disk == !cfg.storage.ephemeral,
        r.metrics == cfg.metrics.enabled,
        r.admin == !text::is_blank(cfg.server.admin_listen@),
{
    Plan {
        on_disk: !cfg.storage.ephemeral,
        metrics: cfg.metrics.enabled,
        admin: !text::blank(cfg.server.admin_listen.as_str()),
    }
}

/// The exit code when an action fails, if the process ends then.
fn failure_code(a: Action) -> (r: Option<u8>)
    ensures
        r == code_on_failure(a),
{
    match a {
        Action::StartLogging | Action::OpenStore => Some(EXIT_RUNTIME),
        Action::ReadListenAddress
        | Action::ReadAdminAddress
        | Action::StartServer
        | Action::StartAdmin => Some(EXIT_CONFIG),
        _ => None,
    }
}

/// The first action.
pub fn first() -> (r: Action)
    ensures
        r == Action::StartLogging,
        order(r) == 0,
{
    Action::StartLogging
}

/// What the process does after an action that succeeded or not.
pub fn next(plan: &Plan, action: Action, ok: bool) -> (r: Action)
    ensures
        comes_next(*plan, action, ok, r),
{
    if !ok {
        if let Some(code) = failure_code(action) {
            return Action::Exit(code);
        }
    }
    match action {
        Action::StartLogging => Action::OpenStore,
        Action::OpenStore => Action::ReadListenAddress,
        Action::ReadListenAddress => if plan.metrics {
            Action::InstallRecorder
        } else if plan.admin {
            Action::ReadAdminAddress
        } else {
            Action::StartServer
        },
        Action::InstallRecorder => if plan.admin {
            Action::ReadAdminAddress
        } else {
            Action::StartServer
        },
        Action::ReadAdminAddress => Action::StartServer,
        Action::StartServer => if plan.admin {
            Action::StartAdmin
        } else {
            Action::StartLoops
        },
        Action::StartAdmin => Action::StartLoops,
        Action::StartLoops => Action::ReportServing,
        Action::ReportServing => Action::SetReady,
        Action::SetReady => Action::NotifyReady,
        Action::NotifyReady => Action::AwaitSignal,
        Action::AwaitSignal => Action::SetDraining,
        Action::SetDraining => Action::ReportNotServing,
        Action::ReportNotServing => Action::NotifyStopping,
        Action::NotifyStopping => Action::Drain,
        Action::Drain => Action::AwaitLoops,
        Action::AwaitLoops => Action::SyncStore,
        Action::SyncStore => Action::Exit(EXIT_OK),
        Action::Exit(code) => Action::Exit(code),
    }
}

/// The actions of a process, and for each whether it succeeded.
pub open spec fn is_run(plan: Plan, actions: Seq<Action>, oks: Seq<bool>) -> bool {
    &&& oks.len() == actions.len()
    &&& actions.len() > 0 ==> actions[0] == Action::StartLogging
    &&& forall|i: int, j: int|
        #![trigger actions[i], actions[j]]
        0 <= i && j == i + 1 && j < actions.len() ==> comes_next(
            plan,
            actions[i],
            oks[i],
            actions[j],
        )
}

/// An action was done before the `n`-th, and the process could go on from it.
pub open spec fn done_before(actions: Seq<Action>, oks: Seq<bool>, n: int, a: Action) -> bool {
    exists|i: int|
        0 <= i < n && #[trigger] actions[i] == a && (oks[i] || code_on_failure(a) is None)
}

/// Each step but the last gets closer to the end, so every run comes to one.
pub proof fn law_every_run_ends(plan: Plan, a: Action, ok: bool, b: Action)
    requires
        comes_next(plan, a, ok, b),
    ensures
        0 <= order(a) <= order(Action::Exit(EXIT_OK)),
        a is Exit ==> b == a,
        !(a is Exit) ==> order(a) < order(b),
{
}

/// What comes next is settled by the plan, the action and whether it succeeded.
pub proof fn law_next_is_unique(plan: Plan, a: Action, ok: bool, b: Action, c: Action)
    requires
        comes_next(plan, a, ok, b),
        comes_next(plan, a, ok, c),
    ensures
        b == c,
{
    if !(a is Exit) && !(!ok && code_on_failure(a) is Some) {
        assert(planned(plan, b) && planned(plan, c));
        assert(order(b) == order(c));
    }
}

/// Where no failure has ended a run, all that was planned before an action was done before it.
pub proof fn law_actions_are_done_in_order(
    plan: Plan,
    actions: Seq<Action>,
    oks: Seq<bool>,
    n: int,
    a: Action,
)
    requires
        is_run(plan, actions, oks),
        0 <= n < actions.len(),
        planned(plan, actions[n]),
        planned(plan, a),
        order(a) < order(actions[n]),
    ensures
        done_before(actions, oks, n, a),
    decreases n,
{
    if n > 0 {
        let previous = actions[n - 1];
        assert(comes_next(plan, previous, oks[n - 1], actions[n]));
        if previous is Exit {
            assert(order(a) < order(previous));
            law_actions_are_done_in_order(plan, actions, oks, n - 1, a);
        } else {
            lemma_planned(plan, actions, oks, n - 1);
            assert(order(a) <= order(previous)) by {
                if order(previous) < order(a) {
                    assert(planned(plan, a));
                }
            }
            if order(a) == order(previous) {
                assert(a == previous);
                assert(actions[n - 1] == a);
            } else {
                law_actions_are_done_in_order(plan, actions, oks, n - 1, a);
            }
        }
    }
}

/// Whatever is not an exit was planned.
proof fn lemma_planned(plan: Plan, actions: Seq<Action>, oks: Seq<bool>, n: int)
    requires
        is_run(plan, actions, oks),
        0 <= n < actions.len(),
        !(actions[n] is Exit),
    ensures
        planned(plan, actions[n]),
{
    if n > 0 {
        assert(comes_next(plan, actions[n - 1], oks[n - 1], actions[n]));
    }
}

/// The process is ready only once its store is open, its listeners are bound and its clients can be
/// told that it serves.
pub proof fn law_ready_when_started(plan: Plan, actions: Seq<Action>, oks: Seq<bool>, n: int)
    requires
        is_run(plan, actions, oks),
        0 <= n < actions.len(),
        actions[n] == Action::SetReady,
    ensures
        done_before(actions, oks, n, Action::OpenStore),
        done_before(actions, oks, n, Action::StartServer),
        plan.admin ==> done_before(actions, oks, n, Action::StartAdmin),
        done_before(actions, oks, n, Action::ReportServing),
{
    law_actions_are_done_in_order(plan, actions, oks, n, Action::OpenStore);
    law_actions_are_done_in_order(plan, actions, oks, n, Action::StartServer);
    if plan.admin {
        law_actions_are_done_in_order(plan, actions, oks, n, Action::StartAdmin);
    }
    law_actions_are_done_in_order(plan, actions, oks, n, Action::ReportServing);
}

/// By the time that the process waits for requests under way, whoever asks is told that it goes
/// away.
pub proof fn law_goes_away_before_draining(
    plan: Plan,
    actions: Seq<Action>,
    oks: Seq<bool>,
    n: int,
)
    requires
        is_run(plan, actions, oks),
        0 <= n < actions.len(),
        actions[n] == Action::Drain,
    ensures
        done_before(actions, oks, n, Action::AwaitSignal),
        done_before(actions, oks, n, Action::SetDraining),
        done_before(actions, oks, n, Action::ReportNotServing),
{
    law_actions_are_done_in_order(plan, actions, oks, n, Action::AwaitSignal);
    law_actions_are_done_in_order(plan, actions, oks, n, Action::SetDraining);
    law_actions_are_done_in_order(plan, actions, oks, n, Action::ReportNotServing);
}

/// A process that ends as it should has drained, and then synced its store.
pub proof fn law_clean_exit_syncs(plan: Plan, actions: Seq<Action>, oks: Seq<bool>, n: int)
    requires
        is_run(plan, actions, oks),
        0 <= n < actions.len(),
        actions[n] == Action::Exit(EXIT_OK),
    ensures
        done_before(actions, oks, n, Action::Drain),
        done_before(actions, oks, n, Action::AwaitLoops),
        done_before(actions, oks, n, Action::SyncStore),
{
    law_actions_are_done_in_order(plan, actions, oks, n, Action::Drain);
    law_actions_are_done_in_order(plan, actions, oks, n, Action::AwaitLoops);
    law_actions_are_done_in_order(plan, actions, oks, n, Action::SyncStore);
}

} // verus!
