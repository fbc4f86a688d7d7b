//! What one event calls for, told by the configuration, the pids that are tracked
//! and the event alone.

use vstd::prelude::*;

use crate::config;
use crate::config::Rule;
use crate::daemon;
use crate::daemon::{Action, Daemon};
use crate::tree;

verus! {

/// What belongs to the subtree of `cargo` gets the nice value of `[cargo]`, for
/// that reason and whatever the rules hold: `cargo` itself, a process that a
/// member forked, and a child of a member.
pub proof fn law_cargo_nice_comes_before_every_rule(
    before: Daemon,
    after: Daemon,
    pid: u32,
    path: Seq<char>,
    parent: Option<u32>,
    actions: Seq<Action>,
)
    requires
        before.on_exec(after, pid, path, parent, actions),
        before.config().cargo is Some,
        ({
            ||| config::basename_of(path) == "cargo"@
            ||| before.cargo().seeded.contains(pid)
            ||| parent is Some && before.cargo().members.contains(parent->0)
        }),
    ensures
        actions.len() > 0,
        actions[0] matches Action::Renice(r) && r.pid == pid && r.nice
            == before.config().cargo->0.nice && r.path@ == path && r.why@ == "cargo"@,
        forall|i: int| 0 < i < actions.len() ==> #[trigger] actions[i] is Sweep,
        after.cargo().members == before.cargo().members.insert(pid),
{
    assert(seq!["cargo"@][0] == "cargo"@);
    assert(daemon::belongs(before.config().cargo_subtree(), before.cargo(), pid, path, parent));
    let nice = before.config().cargo->0.nice;
    lemma_renice_then_sweep(before, after, pid, path, parent, actions, nice, "cargo"@);
}

/// What belongs to a subtree of the roots of `[subtree]`, and not to that of
/// `cargo`, gets the nice value of `[subtree]`, whatever the rules hold.
pub proof fn law_subtree_nice_comes_before_every_rule(
    before: Daemon,
    after: Daemon,
    pid: u32,
    path: Seq<char>,
    parent: Option<u32>,
    actions: Seq<Action>,
)
    requires
        before.on_exec(after, pid, path, parent, actions),
        before.config().subtree is Some,
        before.config().cargo is None || {
            &&& config::basename_of(path) != "cargo"@
            &&& !before.cargo().seeded.contains(pid)
            &&& parent is Some ==> !before.cargo().members.contains(parent->0)
        },
        ({
            ||| exists|k: int|
                0 <= k < before.config().subtree->0.roots.len() && #[trigger] before.config().subtree->0.roots[k]
                    == config::basename_of(path)
            ||| before.subtree().seeded.contains(pid)
            ||| parent is Some && before.subtree().members.contains(parent->0)
        }),
    ensures
        actions.len() > 0,
        actions[0] matches Action::Renice(r) && r.pid == pid && r.nice
            == before.config().subtree->0.nice && r.path@ == path && r.why@ == "subtree"@,
        forall|i: int| 0 < i < actions.len() ==> #[trigger] actions[i] is Sweep,
        after.subtree().members == before.subtree().members.insert(pid),
{
    assert(daemon::belongs(before.config().subtree, before.subtree(), pid, path, parent));
    assert(!daemon::belongs(before.config().cargo_subtree(), before.cargo(), pid, path, parent));
    let nice = before.config().subtree->0.nice;
    lemma_renice_then_sweep(before, after, pid, path, parent, actions, nice, "subtree"@);
}

proof fn lemma_renice_then_sweep(
    before: Daemon,
    after: Daemon,
    pid: u32,
    path: Seq<char>,
    parent: Option<u32>,
    actions: Seq<Action>,
    nice: i32,
    why: Seq<char>,
)
    requires
        before.on_exec(after, pid, path, parent, actions),
        before.subtree_nice(pid, path, parent) == Some((nice, why)),
    ensures
        actions.len() > 0,
        daemon::says(actions[0], (daemon::Act::Renice { pid, nice, path, why })),
        forall|i: int| 0 < i < actions.len() ==> #[trigger] actions[i] is Sweep,
{
    let acts = seq![daemon::Act::Renice { pid, nice, path, why }]
        + before.sweep_due(after.pids());
    assert(daemon::says(actions[0], acts[0]));
    assert forall|i: int| 0 < i < actions.len() implies #[trigger] actions[i] is Sweep by {
        assert(daemon::says(actions[i], acts[i]));
    }
}

/// A process that belongs to a subtree, by [`daemon::belongs`], is reniced as one of
/// it: of `cargo`'s, or else of the roots'.
pub proof fn law_members_are_reniced(
    before: Daemon,
    after: Daemon,
    pid: u32,
    path: Seq<char>,
    parent: Option<u32>,
    actions: Seq<Action>,
)
    requires
        before.on_exec(after, pid, path, parent, actions),
    ensures
        daemon::belongs(before.config().cargo_subtree(), before.cargo(), pid, path, parent) ==> {
            &&& actions.len() > 0
            &&& actions[0] matches Action::Renice(r) && r.pid == pid && r.nice
                == before.config().cargo->0.nice && r.path@ == path && r.why@ == "cargo"@
            &&& forall|i: int| 0 < i < actions.len() ==> #[trigger] actions[i] is Sweep
        },
        !daemon::belongs(before.config().cargo_subtree(), before.cargo(), pid, path, parent)
            && daemon::belongs(before.config().subtree, before.subtree(), pid, path, parent) ==> {
            &&& actions.len() > 0
            &&& actions[0] matches Action::Renice(r) && r.pid == pid && r.nice
                == before.config().subtree->0.nice && r.path@ == path && r.why@ == "subtree"@
            &&& forall|i: int| 0 < i < actions.len() ==> #[trigger] actions[i] is Sweep
        },
{
    if let Some((nice, why)) = before.subtree_nice(pid, path, parent) {
        lemma_renice_then_sweep(before, after, pid, path, parent, actions, nice, why);
    }
}

/// A process belongs to a subtree that is followed exactly if its basename is that
/// of a root, a member forked it, or its parent is a member.
pub proof fn law_who_belongs(
    plan: Option<config::SubtreeModel>,
    family: tree::Family,
    pid: u32,
    path: Seq<char>,
    parent: Option<u32>,
)
    ensures
        plan is None ==> !daemon::belongs(plan, family, pid, path, parent),
        plan is Some ==> (daemon::belongs(plan, family, pid, path, parent) <==> {
            ||| exists|k: int|
                0 <= k < plan->0.roots.len() && #[trigger] plan->0.roots[k] == config::basename_of(
                    path,
                )
            ||| family.seeded.contains(pid)
            ||| parent is Some && family.members.contains(parent->0)
        }),
{
}

/// Outside every subtree the rules alone decide. Where they answer with a nice
/// value, that is what the process gets, in one renice after the sweep, if one is
/// due; where they have no answer, it gets none. No pid becomes tracked.
pub proof fn law_rules_decide_outside_the_subtrees(
    before: Daemon,
    after: Daemon,
    pid: u32,
    path: Seq<char>,
    parent: Option<u32>,
    actions: Seq<Action>,
    nice: Option<i32>,
)
    requires
        before.on_exec(after, pid, path, parent, actions),
        before.config().cargo is None || {
            &&& config::basename_of(path) != "cargo"@
            &&& !before.cargo().seeded.contains(pid)
            &&& parent is Some ==> !before.cargo().members.contains(parent->0)
        },
        before.config().subtree is None || {
            &&& forall|k: int|
                0 <= k < before.config().subtree->0.roots.len() ==> #[trigger] before.config().subtree->0.roots[k]
                    != config::basename_of(path)
            &&& !before.subtree().seeded.contains(pid)
            &&& parent is Some ==> !before.subtree().members.contains(parent->0)
        },
        config::nice_is(before.config().rules, path, nice),
    ensures
        nice is Some ==> {
            &&& actions.len() > 0
            &&& actions.last() matches Action::Renice(r) && r.pid == pid && r.nice == nice->0
                && r.path@ == path && r.why@ == "rule"@
            &&& forall|i: int| 0 <= i < actions.len() - 1 ==> #[trigger] actions[i] is Sweep
        },
        nice is None ==> forall|i: int| 0 <= i < actions.len() ==> #[trigger] actions[i] is Sweep,
        after.cargo() == before.cargo(),
        after.subtree() == before.subtree(),
{
    assert(!daemon::belongs(before.config().cargo_subtree(), before.cargo(), pid, path, parent));
    assert(!daemon::belongs(before.config().subtree, before.subtree(), pid, path, parent));
    let sweep = before.sweep_due(after.pids());
    let answer = choose|answer: Option<i32>| #[trigger]
        config::nice_is(before.config().rules, path, answer) && daemon::say(
            actions,
            sweep + daemon::rule_renice(pid, path, answer),
        );
    config::law_one_answer(before.config().rules, path, nice, answer);
    let acts = sweep + daemon::rule_renice(pid, path, nice);
    assert forall|i: int| 0 <= i < actions.len() && i < sweep.len() implies #[trigger] actions[i] is Sweep by {
        assert(daemon::says(actions[i], acts[i]));
    }
    if nice is Some {
        assert(daemon::says(actions[actions.len() - 1], acts[actions.len() - 1]));
    }
}

/// The rule whose key is the basename is the one that renices a process outside
/// every subtree, in either form.
pub proof fn law_named_binary_is_reniced(
    before: Daemon,
    after: Daemon,
    pid: u32,
    path: Seq<char>,
    parent: Option<u32>,
    actions: Seq<Action>,
    i: int,
)
    requires
        before.on_exec(after, pid, path, parent, actions),
        before.config().cargo is None,
        before.config().subtree is None,
        before.config().keys_distinct(),
        0 <= i < before.config().rules.len(),
        before.config().rules[i].0 == config::basename_of(path),
    ensures
        actions.len() == 1,
        actions[0] matches Action::Renice(r) && r.pid == pid && r.path@ == path && r.why@ == "rule"@
            && r.nice == match before.config().rules[i].1 {
            Rule::Nice(n) => n,
            Rule::Table { nice, .. } => nice,
        },
{
    let n = match before.config().rules[i].1 {
        Rule::Nice(n) => n,
        Rule::Table { nice, .. } => nice,
    };
    config::law_basename_beats_substring(before.config(), path, i);
    law_rules_decide_outside_the_subtrees(before, after, pid, path, parent, actions, Some(n));
    law_sweep_on_exec(before, after, pid, path, parent, actions);
    if actions.len() > 1 {
        assert(actions[0] is Sweep);
    }
}

/// Who is tracked after an exec, in each subtree: those who were, and the process
/// itself where it belongs there. What a subtree knows of forks does not change, and
/// a subtree that is not followed changes in nothing.
pub proof fn law_exec_tracks(
    before: Daemon,
    after: Daemon,
    pid: u32,
    path: Seq<char>,
    parent: Option<u32>,
    actions: Seq<Action>,
    p: u32,
)
    requires
        before.on_exec(after, pid, path, parent, actions),
    ensures
        after.config() == before.config(),
        after.cargo().members.contains(p) <==> before.cargo().members.contains(p) || (p == pid
            && before.config().cargo is Some && {
            ||| config::basename_of(path) == "cargo"@
            ||| before.cargo().seeded.contains(pid)
            ||| parent is Some && before.cargo().members.contains(parent->0)
        }),
        after.subtree().members.contains(p) <==> before.subtree().members.contains(p) || (p == pid
            && before.config().subtree is Some && {
            ||| exists|k: int|
                0 <= k < before.config().subtree->0.roots.len() && #[trigger] before.config().subtree->0.roots[k]
                    == config::basename_of(path)
            ||| before.subtree().seeded.contains(pid)
            ||| parent is Some && before.subtree().members.contains(parent->0)
        }),
        after.cargo().seeded == before.cargo().seeded,
        after.subtree().seeded == before.subtree().seeded,
{
    assert(seq!["cargo"@][0] == "cargo"@);
}

/// Who is tracked after a fork, in each subtree that is followed: those who were,
/// and the child where a member forked it. That child, and no other new one, is
/// known to be a member's; where no member forked it, it is not.
pub proof fn law_fork_tracks(
    before: Daemon,
    after: Daemon,
    by: u32,
    child: u32,
    actions: Seq<Action>,
    p: u32,
)
    requires
        before.on_fork(after, by, child, actions),
    ensures
        after.config() == before.config(),
        before.config().cargo is Some ==> {
            &&& after.cargo().members.contains(p) <==> before.cargo().members.contains(p) || (p
                == child && before.cargo().members.contains(by))
            &&& p != child ==> (after.cargo().seeded.contains(p)
                <==> before.cargo().seeded.contains(p))
            &&& after.cargo().seeded.contains(child) <==> before.cargo().members.contains(by)
        },
        before.config().subtree is Some ==> {
            &&& after.subtree().members.contains(p) <==> before.subtree().members.contains(p) || (p
                == child && before.subtree().members.contains(by))
            &&& p != child ==> (after.subtree().seeded.contains(p)
                <==> before.subtree().seeded.contains(p))
            &&& after.subtree().seeded.contains(child) <==> before.subtree().members.contains(by)
        },
        before.config().cargo is None ==> after.cargo() == before.cargo(),
        before.config().subtree is None ==> after.subtree() == before.subtree(),
{
}

/// Whether `actions` hold one sweep, of exactly the pids that `after` tracks, or
/// none, as `due` says.
pub open spec fn sweeps(actions: Seq<Action>, after: Daemon, due: bool) -> bool {
    &&& due <==> exists|i: int| 0 <= i < actions.len() && #[trigger] actions[i] is Sweep
    &&& forall|i: int, j: int|
        0 <= i < actions.len() && 0 <= j < actions.len() && #[trigger] actions[i] is Sweep
            && #[trigger] actions[j] is Sweep ==> i == j
    &&& forall|i: int|
        0 <= i < actions.len() ==> (#[trigger] actions[i] matches Action::Sweep(v)
            ==> v@.no_duplicates() && forall|p: u32| #[trigger]
            v@.contains(p) <==> after.cargo().members.contains(p)
                || after.subtree().members.contains(p))
}

/// Every 500th event that comes in while there is a subtree to follow brings a
/// sweep of all tracked pids, and no other event does. Here, for an exec.
pub proof fn law_sweep_on_exec(
    before: Daemon,
    after: Daemon,
    pid: u32,
    path: Seq<char>,
    parent: Option<u32>,
    actions: Seq<Action>,
)
    requires
        before.on_exec(after, pid, path, parent, actions),
    ensures
        before.config().cargo is None && before.config().subtree is None ==> {
            &&& after.ticks() == before.ticks()
            &&& sweeps(actions, after, false)
        },
        before.ticks() < 500 && (before.config().cargo is Some || before.config().subtree is Some)
            ==> {
            &&& after.ticks() == (before.ticks() + 1) % 500
            &&& sweeps(actions, after, before.ticks() == 499)
        },
{
    if before.ticks() < 500 || !before.tracks() {
        let sweep = before.sweep_due(after.pids());
        match before.subtree_nice(pid, path, parent) {
            Some((nice, why)) => {
                let acts = seq![daemon::Act::Renice { pid, nice, path, why }] + sweep;
                lemma_sweeps_of(after, actions, acts, sweep, 1);
            },
            None => {
                let nice = choose|nice: Option<i32>| #[trigger]
                    config::nice_is(before.config().rules, path, nice) && daemon::say(
                        actions,
                        sweep + daemon::rule_renice(pid, path, nice),
                    );
                let acts = sweep + daemon::rule_renice(pid, path, nice);
                lemma_sweeps_of(after, actions, acts, sweep, 0);
            },
        }
    }
}

proof fn lemma_sweeps_of(
    after: Daemon,
    actions: Seq<Action>,
    acts: Seq<daemon::Act>,
    sweep: Seq<daemon::Act>,
    at: int,
)
    requires
        daemon::say(actions, acts),
        sweep.len() <= 1,
        sweep.len() == 1 ==> sweep[0] == (daemon::Act::Sweep { pids: after.pids() }),
        0 <= at,
        at + sweep.len() <= acts.len(),
        sweep.len() == 1 ==> acts[at] == sweep[0],
        forall|i: int|
            0 <= i < acts.len() && !(at <= i < at + sweep.len()) ==> #[trigger] acts[i] is Renice,
    ensures
        sweeps(actions, after, sweep.len() == 1),
{
    assert forall|i: int| 0 <= i < actions.len() implies (#[trigger] actions[i] is Sweep <==> (i
        == at && sweep.len() == 1)) by {
        assert(daemon::says(actions[i], acts[i]));
        if i == at && sweep.len() == 1 {
            assert(acts[i] is Sweep);
        } else {
            assert(acts[i] is Renice);
        }
    }
    if sweep.len() == 1 {
        assert(actions[at] is Sweep);
    }
    assert forall|i: int| 0 <= i < actions.len() implies (#[trigger] actions[i] matches Action::Sweep(
        v,
    ) ==> v@.no_duplicates() && forall|p: u32| #[trigger]
        v@.contains(p) <==> after.cargo().members.contains(p) || after.subtree().members.contains(
            p,
        )) by {
        assert(daemon::says(actions[i], acts[i]));
        if let Action::Sweep(v) = actions[i] {
            assert forall|p: u32| #[trigger] v@.contains(p) <==> after.cargo().members.contains(p)
                || after.subtree().members.contains(p) by {
                assert(v@.to_set().contains(p) <==> v@.contains(p));
            }
        }
    }
}

/// Every 500th event that comes in while there is a subtree to follow brings a
/// sweep of all tracked pids, and no other event does. Here, for a fork, which calls
/// for nothing else.
pub proof fn law_sweep_on_fork(
    before: Daemon,
    after: Daemon,
    by: u32,
    child: u32,
    actions: Seq<Action>,
)
    requires
        before.on_fork(after, by, child, actions),
    ensures
        forall|i: int| 0 <= i < actions.len() ==> #[trigger] actions[i] is Sweep,
        before.config().cargo is None && before.config().subtree is None ==> {
            &&& after.ticks() == before.ticks()
            &&& actions.len() == 0
        },
        before.ticks() < 500 && (before.config().cargo is Some || before.config().subtree is Some)
            ==> {
            &&& after.ticks() == (before.ticks() + 1) % 500
            &&& actions.len() == if before.ticks() == 499 {
                1nat
            } else {
                0nat
            }
            &&& sweeps(actions, after, before.ticks() == 499)
        },
{
    let sweep = before.sweep_due(after.pids());
    assert forall|i: int| 0 <= i < actions.len() implies #[trigger] actions[i] is Sweep by {
        assert(daemon::says(actions[i], sweep[i]));
    }
    lemma_sweeps_of(after, actions, sweep, sweep, 0);
}

/// A tick counts to 500 and starts again, and the pids that it may hand out are
/// those of both subtrees.
pub proof fn law_tick(before: Daemon, p: u32)
    ensures
        daemon::PRUNE_INTERVAL == 500,
        before.wf() <==> before.ticks() < 500,
        before.ticks() < 500 ==> daemon::next_tick(before.ticks()) == (before.ticks() + 1) % 500,
        before.pids().contains(p) <==> before.cargo().members.contains(p)
            || before.subtree().members.contains(p),
{
}

/// A parent is looked up exactly where it could change who belongs: some subtree is
/// followed whose root the path is not and for which no member forked the process.
pub proof fn law_when_the_parent_is_asked_for(before: Daemon, pid: u32, path: Seq<char>)
    ensures
        before.exec_needs_parent(pid, path) <==> {
            ||| before.config().cargo is Some && config::basename_of(path) != "cargo"@
                && !before.cargo().seeded.contains(pid)
            ||| before.config().subtree is Some && !before.subtree().seeded.contains(pid) && forall|
                k: int,
            |
                0 <= k < before.config().subtree->0.roots.len() ==> #[trigger] before.config().subtree->0.roots[k]
                    != config::basename_of(path)
        },
{
    assert(seq!["cargo"@][0] == "cargo"@);
}

/// A new daemon tracks nobody, and one that is the same as another differs from it
/// in nothing.
pub proof fn law_same_daemon(a: Daemon, b: Daemon)
    ensures
        tree::nobody().members == Set::<u32>::empty(),
        tree::nobody().seeded == Set::<u32>::empty(),
        a.same(b) <==> a.config() == b.config() && a.cargo() == b.cargo() && a.subtree()
            == b.subtree() && a.ticks() == b.ticks(),
{
}

/// The parent of a process is what its record says; without a record there is none.
pub proof fn law_parent_is_that_of_the_record(stat: &str)
    ensures
        daemon::parent_from(Some(stat)) == crate::procfs::parent_in(stat@),
        daemon::parent_from(None) is None,
{
}

/// A sweep forgets the pids that are gone, all of them and no other, and changes
/// nothing else.
pub proof fn law_sweep_forgets_the_gone(before: Daemon, after: Daemon, gone: Set<u32>, p: u32)
    requires
        before.on_sweep(after, gone),
    ensures
        after.config() == before.config(),
        after.ticks() == before.ticks(),
        after.cargo().members.contains(p) <==> before.cargo().members.contains(p)
            && !gone.contains(p),
        after.cargo().seeded.contains(p) <==> before.cargo().seeded.contains(p) && !gone.contains(
            p,
        ),
        after.subtree().members.contains(p) <==> before.subtree().members.contains(p)
            && !gone.contains(p),
        after.subtree().seeded.contains(p) <==> before.subtree().seeded.contains(p)
            && !gone.contains(p),
{
}

} // verus!
