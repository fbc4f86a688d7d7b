//! What the daemon knows of a process family, over everything that happens.

use vstd::prelude::*;

use crate::config;
use crate::daemon;
use crate::tree;
use crate::tree::{Family, Happening};

verus! {

/// The family after all of `trace`, starting with nobody.
pub open spec fn follow(plan: config::SubtreeModel, trace: Seq<Happening>) -> Family
    decreases trace.len(),
{
    if trace.len() == 0 {
        tree::nobody()
    } else {
        tree::family_after(plan, follow(plan, trace.drop_last()), trace.last())
    }
}

/// Whether the daemon turns from `before` into `after` when `happening` does.
pub open spec fn moves(
    before: daemon::Daemon,
    after: daemon::Daemon,
    happening: Happening,
    actions: Seq<daemon::Action>,
) -> bool {
    match happening {
        Happening::Exec { pid, path, parent } => before.on_exec(after, pid, path, parent, actions),
        Happening::Fork { by, child } => before.on_fork(after, by, child, actions),
        Happening::Sweep { gone } => {
            &&& after.config() == before.config()
            &&& after.cargo().members == before.cargo().members.difference(gone)
            &&& after.cargo().seeded == before.cargo().seeded.difference(gone)
            &&& after.subtree().members == before.subtree().members.difference(gone)
            &&& after.subtree().seeded == before.subtree().seeded.difference(gone)
        },
    }
}

/// Of each subtree the daemon knows exactly what [`follow`] says: a new one knows
/// nobody, and each exec, fork and sweep takes it from what one history says to
/// what the longer history says.
pub proof fn law_daemon_follows(
    before: daemon::Daemon,
    after: daemon::Daemon,
    trace: Seq<Happening>,
    happening: Happening,
    actions: Seq<daemon::Action>,
)
    requires
        moves(before, after, happening, actions),
    ensures
        before.config().cargo_subtree() matches Some(plan) ==> before.cargo() == follow(plan, trace)
            ==> after.cargo() == follow(plan, trace.push(happening)),
        before.config().subtree matches Some(plan) ==> before.subtree() == follow(plan, trace)
            ==> after.subtree() == follow(plan, trace.push(happening)),
        forall|plan: config::SubtreeModel| #[trigger]
            follow(plan, Seq::empty()) == tree::nobody(),
{
    assert(trace.push(happening).drop_last() == trace);
}

/// Whether `happening` is `child` coming from `parent`: forked by it, or
/// exec'ing as its child.
pub open spec fn begets(happening: Happening, parent: u32, child: u32) -> bool {
    match happening {
        Happening::Exec { pid, parent: p, .. } => pid == child && p == Some(parent),
        Happening::Fork { by, child: c } => by == parent && c == child,
        Happening::Sweep { .. } => false,
    }
}

/// Whether `happening` is `pid` exec'ing a subtree root.
pub open spec fn starts(plan: config::SubtreeModel, happening: Happening, pid: u32) -> bool {
    happening matches Happening::Exec { pid: p, path, .. } && p == pid && tree::is_root(plan, path)
}

/// Whether `pids` is a line of descent that `trace` shows at the moments
/// `steps`: a root first, then each from the one before it.
pub open spec fn descent(
    plan: config::SubtreeModel,
    trace: Seq<Happening>,
    steps: Seq<int>,
    pids: Seq<u32>,
) -> bool {
    &&& steps.len() == pids.len() > 0
    &&& forall|j: int| 0 <= j < steps.len() ==> 0 <= #[trigger] steps[j] < trace.len()
    &&& forall|j: int, k: int|
        0 <= j < k < steps.len() ==> #[trigger] steps[j] < #[trigger] steps[k]
    &&& starts(plan, trace[steps[0]], pids[0])
    &&& forall|j: int|
        0 < j < steps.len() ==> #[trigger] begets(trace[steps[j]], pids[j - 1], pids[j])
}

/// Whether no sweep of `trace` found `pid` gone.
pub open spec fn stays(trace: Seq<Happening>, pid: u32) -> bool {
    forall|i: int|
        0 <= i < trace.len() ==> (#[trigger] trace[i] matches Happening::Sweep { gone }
            ==> !gone.contains(pid))
}

/// Every tracked pid is a subtree root or a descendant of one: some line of
/// descent leads to it.
pub proof fn law_only_descendants(plan: config::SubtreeModel, trace: Seq<Happening>, pid: u32)
    requires
        follow(plan, trace).members.contains(pid),
    ensures
        exists|steps: Seq<int>, pids: Seq<u32>| #[trigger]
            descent(plan, trace, steps, pids) && pids.last() == pid,
{
    let line = lemma_line_to(plan, trace, pid);
    assert(descent(plan, trace, line.0, line.1) && line.1.last() == pid);
}

proof fn lemma_line_to(
    plan: config::SubtreeModel,
    trace: Seq<Happening>,
    pid: u32,
) -> (line: (Seq<int>, Seq<u32>))
    requires
        follow(plan, trace).members.contains(pid),
    ensures
        descent(plan, trace, line.0, line.1),
        line.1.last() == pid,
    decreases trace.len(), 1int,
{
    let past = trace.drop_last();
    let at = trace.len() - 1;
    let before = follow(plan, past);
    if before.members.contains(pid) {
        let line = lemma_line_to(plan, past, pid);
        lemma_descent_extends(plan, past, trace, line.0, line.1);
        line
    } else {
        match trace.last() {
            Happening::Exec { pid: p, path, parent } => {
                if tree::is_root(plan, path) {
                    let line = (seq![at], seq![pid]);
                    assert(starts(plan, trace[line.0[0]], pid));
                    line
                } else {
                    lemma_seeded_are_members(plan, past);
                    lemma_line_grows(plan, trace, parent->0, pid)
                }
            },
            Happening::Fork { by, child } => lemma_line_grows(plan, trace, by, pid),
            Happening::Sweep { .. } => (Seq::empty(), Seq::empty()),
        }
    }
}

proof fn lemma_seeded_are_members(plan: config::SubtreeModel, trace: Seq<Happening>)
    ensures
        follow(plan, trace).seeded.subset_of(follow(plan, trace).members),
    decreases trace.len(),
{
    if trace.len() > 0 {
        lemma_seeded_are_members(plan, trace.drop_last());
    }
}

proof fn lemma_line_grows(
    plan: config::SubtreeModel,
    trace: Seq<Happening>,
    parent: u32,
    pid: u32,
) -> (line: (Seq<int>, Seq<u32>))
    requires
        trace.len() > 0,
        follow(plan, trace.drop_last()).members.contains(parent),
        begets(trace.last(), parent, pid),
    ensures
        descent(plan, trace, line.0, line.1),
        line.1.last() == pid,
    decreases trace.len(), 0int,
{
    let past = trace.drop_last();
    let at = trace.len() - 1;
    let line = lemma_line_to(plan, past, parent);
    lemma_descent_extends(plan, past, trace, line.0, line.1);
    let steps = line.0.push(at);
    let pids = line.1.push(pid);
    assert forall|j: int, k: int| 0 <= j < k < steps.len() implies #[trigger] steps[j]
        < #[trigger] steps[k] by {
        if k == steps.len() - 1 {
            assert(line.0[j] < past.len());
        } else {
            assert(line.0[j] < line.0[k]);
        }
    }
    assert forall|j: int| 0 < j < steps.len() implies #[trigger] begets(
        trace[steps[j]],
        pids[j - 1],
        pids[j],
    ) by {
        if j < steps.len() - 1 {
            assert(begets(trace[line.0[j]], line.1[j - 1], line.1[j]));
        }
    }
    (steps, pids)
}

proof fn lemma_descent_extends(
    plan: config::SubtreeModel,
    past: Seq<Happening>,
    trace: Seq<Happening>,
    steps: Seq<int>,
    pids: Seq<u32>,
)
    requires
        descent(plan, past, steps, pids),
        past == trace.drop_last(),
        trace.len() > 0,
    ensures
        descent(plan, trace, steps, pids),
{
    assert forall|j: int| 0 < j < steps.len() implies #[trigger] begets(
        trace[steps[j]],
        pids[j - 1],
        pids[j],
    ) by {
        assert(begets(past[steps[j]], pids[j - 1], pids[j]));
    }
    assert(trace[steps[0]] == past[steps[0]]);
}

/// Everything that a root spawns is tracked: a process at the end of a line of
/// descent none of whose pids a sweep found gone.
pub proof fn law_all_descendants(
    plan: config::SubtreeModel,
    trace: Seq<Happening>,
    steps: Seq<int>,
    pids: Seq<u32>,
)
    requires
        descent(plan, trace, steps, pids),
        forall|j: int| 0 <= j < pids.len() ==> stays(trace, #[trigger] pids[j]),
    ensures
        follow(plan, trace).members.contains(pids.last()),
{
    let last = pids.len() - 1;
    lemma_line_tracked(plan, trace, steps, pids, last);
    lemma_stays_tracked(plan, trace, pids[last], steps[last] + 1, trace.len() as int);
    assert(trace.take(trace.len() as int) == trace);
}

proof fn lemma_line_tracked(
    plan: config::SubtreeModel,
    trace: Seq<Happening>,
    steps: Seq<int>,
    pids: Seq<u32>,
    j: int,
)
    requires
        descent(plan, trace, steps, pids),
        forall|j: int| 0 <= j < pids.len() ==> stays(trace, #[trigger] pids[j]),
        0 <= j < pids.len(),
    ensures
        follow(plan, trace.take(steps[j] + 1)).members.contains(pids[j]),
    decreases j,
{
    let now = trace.take(steps[j] + 1);
    assert(now.drop_last() == trace.take(steps[j]));
    assert(now.last() == trace[steps[j]]);
    if j > 0 {
        lemma_line_tracked(plan, trace, steps, pids, j - 1);
        assert(steps[j - 1] < steps[j]);
        assert(stays(trace, pids[j - 1]));
        lemma_stays_tracked(plan, trace, pids[j - 1], steps[j - 1] + 1, steps[j]);
        assert(begets(trace[steps[j]], pids[j - 1], pids[j]));
    }
}

proof fn lemma_stays_tracked(
    plan: config::SubtreeModel,
    trace: Seq<Happening>,
    pid: u32,
    from: int,
    to: int,
)
    requires
        0 <= from <= to <= trace.len(),
        stays(trace, pid),
        follow(plan, trace.take(from)).members.contains(pid),
    ensures
        follow(plan, trace.take(to)).members.contains(pid),
    decreases to - from,
{
    if from < to {
        lemma_stays_tracked(plan, trace, pid, from, to - 1);
        let now = trace.take(to);
        assert(now.drop_last() == trace.take(to - 1));
        assert(now.last() == trace[to - 1]);
    }
}

/// A descendant is known race-free: the child that a tracked process forked
/// belongs to the subtree at its exec, without its parent being looked up.
pub proof fn law_forked_child_needs_no_lookup(
    before: daemon::Daemon,
    after: daemon::Daemon,
    parent: u32,
    child: u32,
    actions: Seq<daemon::Action>,
    path: Seq<char>,
)
    requires
        before.on_fork(after, parent, child, actions),
    ensures
        before.config().cargo is Some && before.cargo().members.contains(parent)
            ==> daemon::belongs(after.config().cargo_subtree(), after.cargo(), child, path, None),
        before.config().subtree is Some && before.subtree().members.contains(parent)
            ==> daemon::belongs(after.config().subtree, after.subtree(), child, path, None),
{
}

/// A pid that passes to another process is not taken for its predecessor: once
/// an untracked process has forked it, its exec goes by its path and its parent
/// alone, whatever the daemon knew of the pid.
pub proof fn law_reused_pid_goes_by_its_parent(
    before: daemon::Daemon,
    after: daemon::Daemon,
    by: u32,
    child: u32,
    actions: Seq<daemon::Action>,
    path: Seq<char>,
    parent: Option<u32>,
)
    requires
        before.on_fork(after, by, child, actions),
        !before.pids().contains(by),
        before.config().cargo_subtree() matches Some(plan) ==> !tree::is_root(plan, path),
        before.config().subtree matches Some(plan) ==> !tree::is_root(plan, path),
        parent matches Some(p) ==> !after.pids().contains(p),
    ensures
        after.subtree_nice(child, path, parent) is None,
{
}

/// Without forks to tell of it, a process belongs to the subtree of `cargo`
/// exactly if it is `cargo` or its parent is tracked.
pub proof fn law_without_forks_the_parent_decides(
    before: daemon::Daemon,
    pid: u32,
    path: Seq<char>,
    parent: Option<u32>,
)
    requires
        before.config().cargo is Some,
        before.cargo().seeded.is_empty(),
    ensures
        daemon::belongs(before.config().cargo_subtree(), before.cargo(), pid, path, parent) <==> {
            ||| config::basename_of(path) == "cargo"@
            ||| parent matches Some(p) && before.cargo().members.contains(p)
        },
{
    assert(seq!["cargo"@][0] == "cargo"@);
}

/// A process outside every subtree is left alone: exec'ing something that is
/// no root, forked by no tracked process and with an untracked parent, it is not
/// tracked, and only a rule can renice it.
pub proof fn law_outsiders_are_left_alone(
    before: daemon::Daemon,
    after: daemon::Daemon,
    pid: u32,
    path: Seq<char>,
    parent: Option<u32>,
    actions: Seq<daemon::Action>,
    i: int,
)
    requires
        before.on_exec(after, pid, path, parent, actions),
        before.config().cargo_subtree() matches Some(plan) ==> !tree::is_root(plan, path),
        before.config().subtree matches Some(plan) ==> !tree::is_root(plan, path),
        !before.cargo().seeded.contains(pid),
        !before.subtree().seeded.contains(pid),
        parent matches Some(p) ==> !before.pids().contains(p),
        0 <= i < actions.len(),
        actions[i] is Renice,
    ensures
        after.cargo() == before.cargo(),
        after.subtree() == before.subtree(),
        actions[i]->Renice_0.why@ == "rule"@,
        actions[i]->Renice_0.pid == pid,
        config::nice_is(before.config().rules, path, Some(actions[i]->Renice_0.nice)),
{
    let sweep = before.sweep_due(after.pids());
    assert(before.subtree_nice(pid, path, parent) is None);
    let nice = choose|nice: Option<i32>| #[trigger]
        config::nice_is(before.config().rules, path, nice) && daemon::say(
            actions,
            sweep + daemon::rule_renice(pid, path, nice),
        );
    let acts = sweep + daemon::rule_renice(pid, path, nice);
    assert(daemon::says(actions[i], acts[i]));
}

/// Everything in a subtree gets the subtree's nice value, whatever the rules say:
/// in that of `cargo`, the one of `cargo`; elsewhere, the one of the roots.
pub proof fn law_subtree_is_reniced(
    before: daemon::Daemon,
    after: daemon::Daemon,
    pid: u32,
    path: Seq<char>,
    parent: Option<u32>,
    actions: Seq<daemon::Action>,
)
    requires
        before.on_exec(after, pid, path, parent, actions),
        before.subtree_nice(pid, path, parent) is Some,
    ensures
        after.pids().contains(pid),
        actions.len() > 0,
        daemon::belongs(before.config().cargo_subtree(), before.cargo(), pid, path, parent)
            ==> daemon::says(
            actions[0],
            (daemon::Act::Renice {
                pid,
                nice: before.config().cargo->0.nice,
                path,
                why: "cargo"@,
            }),
        ),
        !daemon::belongs(before.config().cargo_subtree(), before.cargo(), pid, path, parent)
            ==> daemon::says(
            actions[0],
            (daemon::Act::Renice {
                pid,
                nice: before.config().subtree->0.nice,
                path,
                why: "subtree"@,
            }),
        ),
        forall|i: int| 0 < i < actions.len() ==> #[trigger] actions[i] is Sweep,
{
    let said = before.subtree_nice(pid, path, parent)->0;
    let acts = seq![daemon::Act::Renice { pid, nice: said.0, path, why: said.1 }]
        + before.sweep_due(after.pids());
    assert(daemon::says(actions[0], acts[0]));
    assert forall|i: int| 0 < i < actions.len() implies #[trigger] actions[i] is Sweep by {
        assert(daemon::says(actions[i], acts[i]));
    }
}

/// The event counter after `n` events, starting from 0.
pub open spec fn ticks_after(n: nat) -> nat
    decreases n,
{
    if n == 0 {
        0
    } else {
        daemon::next_tick(ticks_after((n - 1) as nat))
    }
}

/// A sweep is due on every event whose number is a multiple of the interval,
/// and on no other.
pub proof fn law_sweeps_are_periodic(n: nat, pids: Set<u32>)
    ensures
        ticks_after(n) == n % (daemon::PRUNE_INTERVAL as nat),
        daemon::due_sweep(ticks_after(n), pids).len() == if (n + 1) % (
        daemon::PRUNE_INTERVAL as nat) == 0 {
            1nat
        } else {
            0nat
        },
    decreases n,
{
    if n > 0 {
        law_sweeps_are_periodic((n - 1) as nat, pids);
    }
}

/// A sweep drops exactly the dead: where `gone` are those of the pids handed out
/// that are not `living`, each subtree afterwards is its living part.
pub proof fn law_sweep_keeps_the_living(
    before: daemon::Daemon,
    after: daemon::Daemon,
    pids: Seq<u32>,
    gone: Seq<u32>,
    living: Set<u32>,
)
    requires
        pids.to_set() == before.pids(),
        forall|p: u32| #[trigger] gone.contains(p) <==> pids.contains(p) && !living.contains(p),
        after.cargo().members == before.cargo().members.difference(gone.to_set()),
        after.subtree().members == before.subtree().members.difference(gone.to_set()),
    ensures
        after.cargo().members == before.cargo().members.intersect(living),
        after.subtree().members == before.subtree().members.intersect(living),
{
    assert forall|p: u32| #[trigger] gone.to_set().contains(p) <==> before.pids().contains(p)
        && !living.contains(p) by {
        assert(gone.to_set().contains(p) <==> gone.contains(p));
        assert(pids.to_set().contains(p) <==> pids.contains(p));
    }
    assert(after.cargo().members =~= before.cargo().members.intersect(living));
    assert(after.subtree().members =~= before.subtree().members.intersect(living));
}

/// The set stays bounded: after a sweep that left only pids in `living`, it
/// holds no more than those and one for each event since.
pub proof fn law_subtree_stays_bounded(
    plan: config::SubtreeModel,
    trace: Seq<Happening>,
    k: int,
    living: Set<u32>,
)
    requires
        0 <= k <= trace.len(),
        living.finite(),
        follow(plan, trace.take(k)).members.subset_of(living),
    ensures
        follow(plan, trace).members.finite(),
        follow(plan, trace).members.len() <= living.len() + (trace.len() - k),
    decreases trace.len() - k,
{
    if k == trace.len() {
        assert(trace.take(k) == trace);
        vstd::set_lib::lemma_len_subset(follow(plan, trace).members, living);
    } else {
        let past = trace.drop_last();
        assert(past.take(k) == trace.take(k));
        law_subtree_stays_bounded(plan, past, k, living);
        let before = follow(plan, past).members;
        match trace.last() {
            Happening::Sweep { gone } => {
                vstd::set_lib::lemma_len_difference(before, gone);
            },
            _ => {},
        }
    }
}

} // verus!
