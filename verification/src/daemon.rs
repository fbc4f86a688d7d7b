//! The daemon's state and decisions: which processes belong to a tracked
//! subtree, which nice value an exec'd process gets, and when to forget the
//! processes that are gone.

use vstd::prelude::*;

use crate::config;
use crate::config::{Config, SubtreeConfig};
use crate::event;
use crate::event::{ByteOrder, ExecEvent, ForkEvent};
use crate::procfs;
use crate::text;
use crate::tree;
use crate::tree::{Family, Happening, Tree};

verus! {

/// How many events between sweeps that drop dead pids from the subtree sets.
pub const PRUNE_INTERVAL: u32 = 500;

/// One process that exec'd.
#[derive(Debug)]
pub struct Exec {
    pub pid: u32,
    pub path: String,
}

/// A call of `setpriority(2)` to make, and why.
#[derive(Debug)]
pub struct Renice {
    pub pid: u32,
    pub nice: i32,
    pub path: String,
    pub why: String,
}

/// Something for the daemon's surroundings to do.
#[derive(Debug)]
pub enum Action {
    /// Set a process's nice value.
    Renice(Renice),
    /// Look which of these pids still have a process, and hand those that have
    /// none to [`Daemon::sweep`].
    Sweep(Vec<u32>),
}

/// What follows from an item of the exec ring buffer.
#[derive(Debug)]
pub enum Step {
    /// Nothing: the item is too short to be an event.
    Ignored,
    /// It depends on the parent: look it up, and go on with
    /// [`Daemon::handle_parent`].
    NeedParent(Exec),
    /// These actions, in order.
    Done(Vec<Action>),
}

/// What an [`Action`] says.
pub ghost enum Act {
    Renice { pid: u32, nice: i32, path: Seq<char>, why: Seq<char> },
    Sweep { pids: Set<u32> },
}

/// A family after something happened, where its subtree is followed at all.
pub open spec fn followed(
    plan: Option<config::SubtreeModel>,
    family: Family,
    happening: Happening,
) -> Family {
    match plan {
        Some(plan) => tree::family_after(plan, family, happening),
        None => family,
    }
}

/// Whether an exec'd process belongs to a subtree that is followed.
pub open spec fn belongs(
    plan: Option<config::SubtreeModel>,
    family: Family,
    pid: u32,
    path: Seq<char>,
    parent: Option<u32>,
) -> bool {
    plan matches Some(plan) && tree::joins(plan, family, pid, path, parent)
}

/// Whether it depends on the parent if an exec'd process belongs to a subtree.
pub open spec fn exec_asks(
    plan: Option<config::SubtreeModel>,
    family: Family,
    pid: u32,
    path: Seq<char>,
) -> bool {
    plan matches Some(plan) && !tree::joins(plan, family, pid, path, None)
}

/// The event counter after one more event.
pub open spec fn next_tick(ticks: nat) -> nat {
    if ticks + 1 < PRUNE_INTERVAL {
        ticks + 1
    } else {
        0
    }
}

/// The sweep that one more event brings about, if one is due.
pub open spec fn due_sweep(ticks: nat, pids: Set<u32>) -> Seq<Act> {
    if ticks + 1 < PRUNE_INTERVAL {
        Seq::empty()
    } else {
        seq![Act::Sweep { pids }]
    }
}

/// The renice that a rule brings about, if one matched.
pub open spec fn rule_renice(pid: u32, path: Seq<char>, nice: Option<i32>) -> Seq<Act> {
    match nice {
        Some(n) => seq![Act::Renice { pid, nice: n, path, why: "rule"@ }],
        None => Seq::empty(),
    }
}

/// Whether `action` says `act`.
pub open spec fn says(action: Action, act: Act) -> bool {
    match (action, act) {
        (Action::Renice(r), Act::Renice { pid, nice, path, why }) => r.pid == pid && r.nice == nice
            && r.path@ == path && r.why@ == why,
        (Action::Sweep(v), Act::Sweep { pids }) => v@.no_duplicates() && v@.to_set() == pids,
        _ => false,
    }
}

/// Whether `actions` say `acts`, one for one.
pub open spec fn say(actions: Seq<Action>, acts: Seq<Act>) -> bool {
    &&& actions.len() == acts.len()
    &&& forall|i: int| 0 <= i < acts.len() ==> says(#[trigger] actions[i], acts[i])
}

/// Runtime state carried across events.
pub struct Daemon {
    config: Config,
    /// pids known to be `cargo` or a descendant of one.
    cargo_subtree: Tree,
    /// pids known to be a root of `[subtree]` or a descendant of one.
    root_subtree: Tree,
    events_since_prune: u32,
}

impl Daemon {
    /// What the daemon was told to do.
    pub closed spec fn config(self) -> config::ConfigModel {
        self.config@
    }

    /// The pids known to belong to the subtree of `cargo`.
    pub closed spec fn cargo(self) -> Family {
        self.cargo_subtree@
    }

    /// The pids known to belong to a subtree of the configured roots.
    pub closed spec fn subtree(self) -> Family {
        self.root_subtree@
    }

    /// Events since the last sweep.
    pub closed spec fn ticks(self) -> nat {
        self.events_since_prune as nat
    }

    /// The counter stays below the interval between sweeps.
    pub open spec fn wf(self) -> bool {
        self.ticks() < PRUNE_INTERVAL
    }

    /// All pids that are tracked.
    pub open spec fn pids(self) -> Set<u32> {
        self.cargo().members.union(self.subtree().members)
    }

    /// Whether there is any subtree to follow.
    pub open spec fn tracks(self) -> bool {
        self.config().cargo is Some || self.config().subtree is Some
    }

    /// Nothing of the state differs.
    pub open spec fn same(self, other: Daemon) -> bool {
        &&& self.config() == other.config()
        &&& self.cargo() == other.cargo()
        &&& self.subtree() == other.subtree()
        &&& self.ticks() == other.ticks()
    }

    /// The nice value that an exec'd process gets as one of a subtree, and why:
    /// that of `cargo` where it belongs there, else that of the roots.
    pub open spec fn subtree_nice(
        self,
        pid: u32,
        path: Seq<char>,
        parent: Option<u32>,
    ) -> Option<(i32, Seq<char>)> {
        if belongs(self.config().cargo_subtree(), self.cargo(), pid, path, parent) {
            Some((self.config().cargo->0.nice, "cargo"@))
        } else if belongs(self.config().subtree, self.subtree(), pid, path, parent) {
            Some((self.config().subtree->0.nice, "subtree"@))
        } else {
            None
        }
    }

    /// Whether the daemon turns into `after` when something happens: each subtree
    /// that is followed goes by itself, and with one to follow the event counts
    /// towards the next sweep.
    pub open spec fn turns(self, after: Daemon, happening: Happening) -> bool {
        &&& after.config() == self.config()
        &&& after.cargo() == followed(self.config().cargo_subtree(), self.cargo(), happening)
        &&& after.subtree() == followed(self.config().subtree, self.subtree(), happening)
        &&& after.ticks() == if self.tracks() {
            next_tick(self.ticks())
        } else {
            self.ticks()
        }
    }

    /// The sweep that an event brings about, with `pids` tracked after it.
    pub open spec fn sweep_due(self, pids: Set<u32>) -> Seq<Act> {
        if self.tracks() {
            due_sweep(self.ticks(), pids)
        } else {
            Seq::empty()
        }
    }

    /// Whether the daemon turns into `after` and does `actions` when `pid`,
    /// child of `parent`, execs `path`. A process that belongs to a subtree gets
    /// that subtree's nice value. Every other process gets the nice value of the
    /// rule that decides for its path, if one does.
    pub open spec fn on_exec(
        self,
        after: Daemon,
        pid: u32,
        path: Seq<char>,
        parent: Option<u32>,
        actions: Seq<Action>,
    ) -> bool {
        &&& self.turns(after, Happening::Exec { pid, path, parent })
        &&& match self.subtree_nice(pid, path, parent) {
            Some((nice, why)) => say(
                actions,
                seq![Act::Renice { pid, nice, path, why }] + self.sweep_due(after.pids()),
            ),
            None => exists|nice: Option<i32>| #[trigger]
                config::nice_is(self.config().rules, path, nice) && say(
                    actions,
                    self.sweep_due(after.pids()) + rule_renice(pid, path, nice),
                ),
        }
    }

    /// Whether the daemon turns into `after` and does `actions` when `by` forks
    /// `child`.
    pub open spec fn on_fork(
        self,
        after: Daemon,
        by: u32,
        child: u32,
        actions: Seq<Action>,
    ) -> bool {
        &&& self.turns(after, Happening::Fork { by, child })
        &&& say(actions, self.sweep_due(after.pids()))
    }

    /// Whether the daemon turns into `after` when the pids `gone` are found to have
    /// no process: in both subtrees that is a sweep, whether followed or not, and it
    /// is no event.
    pub open spec fn on_sweep(self, after: Daemon, gone: Set<u32>) -> bool {
        &&& after.config() == self.config()
        &&& after.ticks() == self.ticks()
        &&& after.cargo().members == self.cargo().members.difference(gone)
        &&& after.cargo().seeded == self.cargo().seeded.difference(gone)
        &&& after.subtree().members == self.subtree().members.difference(gone)
        &&& after.subtree().seeded == self.subtree().seeded.difference(gone)
    }

    /// A daemon that has seen nothing yet.
    pub fn new(config: Config) -> (daemon: Daemon)
        ensures
            daemon.wf(),
            daemon.config() == config@,
            daemon.cargo() == tree::nobody(),
            daemon.subtree() == tree::nobody(),
            daemon.ticks() == 0,
    {
        Daemon {
            config,
            cargo_subtree: Tree::new(),
            root_subtree: Tree::new(),
            events_since_prune: 0,
        }
    }

    /// The call that gives `pid` its nice value.
    pub fn apply(&self, pid: u32, nice: i32, path: &str, why: &str) -> (renice: Renice)
        ensures
            renice.pid == pid,
            renice.nice == nice,
            renice.path@ == path@,
            renice.why@ == why@,
    {
        Renice { pid, nice, path: path.to_owned(), why: why.to_owned() }
    }

    /// Counts an event. On every [`PRUNE_INTERVAL`]th, hands out the tracked pids
    /// to be looked up, so that those whose process has exited can be dropped
    /// and the sets stay bounded across many builds.
    pub fn prune_tick(&mut self) -> (sweep: Option<Vec<u32>>)
        requires
            old(self).wf(),
        ensures
            final(self).wf(),
            final(self).config() == old(self).config(),
            final(self).cargo() == old(self).cargo(),
            final(self).subtree() == old(self).subtree(),
            final(self).ticks() == next_tick(old(self).ticks()),
            match sweep {
                Some(pids) => old(self).ticks() + 1 == PRUNE_INTERVAL && pids@.no_duplicates()
                    && pids@.to_set() == old(self).pids(),
                None => old(self).ticks() + 1 < PRUNE_INTERVAL,
            },
    {
        self.events_since_prune = self.events_since_prune + 1;
        if self.events_since_prune < PRUNE_INTERVAL {
            return None;
        }
        self.events_since_prune = 0;
        Some(all_pids(&self.cargo_subtree, &self.root_subtree))
    }

    /// Drops the pids that are `gone` from the subtree sets.
    pub fn sweep(&mut self, gone: &Vec<u32>)
        requires
            old(self).wf(),
        ensures
            final(self).wf(),
            final(self).config() == old(self).config(),
            final(self).ticks() == old(self).ticks(),
            final(self).cargo().members == old(self).cargo().members.difference(gone@.to_set()),
            final(self).cargo().seeded == old(self).cargo().seeded.difference(gone@.to_set()),
            final(self).subtree().members == old(self).subtree().members.difference(
                gone@.to_set(),
            ),
            final(self).subtree().seeded == old(self).subtree().seeded.difference(gone@.to_set()),
            old(self).on_sweep(*final(self), gone@.to_set()),
    {
        self.cargo_subtree.sweep(gone);
        self.root_subtree.sweep(gone);
    }
}

/// The parent that a `/proc/<pid>/stat` text names, if it could be read.
pub open spec fn parent_from(stat: Option<&str>) -> Option<u32> {
    match stat {
        Some(text) => procfs::parent_in(text@),
        None => None,
    }
}

/// The pids of two subtrees, each once, in any order.
fn all_pids(a: &Tree, b: &Tree) -> (pids: Vec<u32>)
    ensures
        pids@.no_duplicates(),
        pids@.to_set() == a@.members.union(b@.members),
{
    let mut pids = a.pids();
    let others = b.pids();
    let ghost first = pids@;
    let mut at: usize = 0;
    assert(pids@.to_set() =~= a@.members.union(others@.take(0).to_set()));
    while at < others.len()
        invariant
            at <= others@.len(),
            others@.no_duplicates(),
            first.to_set() == a@.members,
            pids@.no_duplicates(),
            pids@.to_set() == a@.members.union(others@.take(at as int).to_set()),
        decreases others@.len() - at,
    {
        let pid = others[at];
        let ghost before = others@.take(at as int);
        let ghost after = others@.take(at + 1);
        let ghost had = pids@;
        proof {
            assert(after == before.push(pid));
            assert(!before.contains(pid)) by {
                if before.contains(pid) {
                    let k = choose|k: int| 0 <= k < before.len() && before[k] == pid;
                    assert(others@[k] == others@[at as int]);
                }
            }
            assert forall|p: u32| #[trigger] after.to_set().contains(p) <==> before.to_set().contains(p)
                || p == pid by {
                tree::lemma_contains_push(before, pid, p);
            }
            assert(had.contains(pid) <==> had.to_set().contains(pid));
            assert(before.to_set().contains(pid) <==> before.contains(pid));
        }
        if !a.contains(pid) {
            pids.push(pid);
            proof {
                assert forall|p: u32| #[trigger] pids@.to_set().contains(p) <==> had.to_set().contains(p)
                    || p == pid by {
                    tree::lemma_contains_push(had, pid, p);
                }
                assert forall|i: int, j: int| 0 <= i < pids@.len() && 0 <= j < pids@.len() && i != j
                    implies pids@[i] != pids@[j] by {
                    if i < had.len() && j < had.len() {
                        assert(had[i] != had[j]);
                    } else if i < had.len() {
                        assert(had.contains(had[i]));
                    } else {
                        assert(had.contains(had[j]));
                    }
                }
            }
        }
        assert(pids@.to_set() =~= a@.members.union(after.to_set()));
        at = at + 1;
    }
    assert(others@.take(at as int) == others@);
    pids
}

/// Whether a path is that of a subtree root.
fn path_is_root(subtree: &SubtreeConfig, path: &str) -> (root: bool)
    ensures
        root == tree::is_root(subtree@, path@),
{
    let name = config::basename(path).to_owned();
    let mut at: usize = 0;
    while at < subtree.roots.len()
        invariant
            at <= subtree.roots@.len(),
            name@ == config::basename_of(path@),
            forall|i: int| 0 <= i < at ==> #[trigger] subtree@.roots[i] != name@,
        decreases subtree.roots@.len() - at,
    {
        if subtree.roots[at] == name {
            assert(subtree@.roots[at as int] == name@);
            return true;
        }
        assert(subtree@.roots[at as int] != name@);
        at = at + 1;
    }
    false
}

/// Whether a path is that of `cargo`.
fn path_is_cargo(path: &str) -> (cargo: bool)
    ensures
        cargo == seq!["cargo"@].contains(config::basename_of(path@)),
{
    let cargo = text::same_text(config::basename(path), "cargo");
    assert(seq!["cargo"@][0] == "cargo"@);
    cargo
}

impl Daemon {
    /// Takes an item of the exec ring buffer. An item that is too short for an
    /// event is ignored. Where it depends on the parent what to do, and only
    /// then, the parent is asked for.
    pub fn handle(&mut self, bytes: &[u8], order: ByteOrder) -> (step: Step)
        requires
            old(self).wf(),
        ensures
            final(self).wf(),
            bytes@.len() >= event::EXEC_EVENT_LEN ==> forall|chars: Seq<char>|
                event::exec_name(order, bytes@) == #[trigger] vstd::utf8::encode_utf8(chars)
                    ==> event::exec_path(order, bytes@) == text::trim_end(chars, '\0'),
            match step {
                Step::Ignored => bytes@.len() < event::EXEC_EVENT_LEN && final(self).same(
                    *old(self),
                ),
                Step::NeedParent(exec) => {
                    &&& bytes@.len() >= event::EXEC_EVENT_LEN
                    &&& exec.pid == event::exec_pid(order, bytes@)
                    &&& exec.path@ == event::exec_path(order, bytes@)
                    &&& final(self).same(*old(self))
                    &&& old(self).exec_needs_parent(exec.pid, exec.path@)
                },
                Step::Done(actions) => {
                    &&& bytes@.len() >= event::EXEC_EVENT_LEN
                    &&& !old(self).exec_needs_parent(
                        event::exec_pid(order, bytes@),
                        event::exec_path(order, bytes@),
                    )
                    &&& forall|parent: Option<u32>| #[trigger]
                        old(self).on_exec(
                            *final(self),
                            event::exec_pid(order, bytes@),
                            event::exec_path(order, bytes@),
                            parent,
                            actions@,
                        )
                },
            },
    {
        let event = match ExecEvent::read(bytes, order) {
            Some(event) => event,
            None => {
                return Step::Ignored;
            },
        };
        let path = event.path();
        assert(event.captured() == event::exec_name(order, bytes@));
        let pid = event.pid;
        let cargo_asks = self.config.cargo.is_some() && !path_is_cargo(path.as_str())
            && !self.cargo_subtree.is_seeded(pid);
        let subtree_asks = match &self.config.subtree {
            Some(subtree) => !path_is_root(subtree, path.as_str()) && !self.root_subtree.is_seeded(
                pid,
            ),
            None => false,
        };
        if cargo_asks || subtree_asks {
            return Step::NeedParent(Exec { pid, path });
        }
        let actions = self.exec(pid, path.as_str(), None);
        proof {
            assert forall|parent: Option<u32>| #[trigger]
                old(self).on_exec(*self, pid, path@, parent, actions@) by {
                assert(old(self).on_exec(*self, pid, path@, None, actions@));
                assert(old(self).subtree_nice(pid, path@, parent) == old(self).subtree_nice(
                    pid,
                    path@,
                    None,
                ));
            }
        }
        Step::Done(actions)
    }

    /// Whether it depends on the parent what an exec calls for.
    pub open spec fn exec_needs_parent(self, pid: u32, path: Seq<char>) -> bool {
        ||| exec_asks(self.config().cargo_subtree(), self.cargo(), pid, path)
        ||| exec_asks(self.config().subtree, self.subtree(), pid, path)
    }

    /// Goes on with an exec whose parent had to be looked up; `stat` is the text
    /// of `/proc/<pid>/stat`, if it could be read.
    pub fn handle_parent(&mut self, exec: &Exec, stat: Option<&str>) -> (actions: Vec<Action>)
        requires
            old(self).wf(),
        ensures
            final(self).wf(),
            old(self).on_exec(
                *final(self),
                exec.pid,
                exec.path@,
                parent_from(stat),
                actions@,
            ),
    {
        let parent = match stat {
            Some(text) => procfs::parent_pid(text),
            None => None,
        };
        self.exec(exec.pid, exec.path.as_str(), parent)
    }

    /// Takes an item of the fork ring buffer. An item that is too short for an
    /// event is ignored.
    pub fn handle_fork(&mut self, bytes: &[u8], order: ByteOrder) -> (actions: Vec<Action>)
        requires
            old(self).wf(),
        ensures
            final(self).wf(),
            bytes@.len() < event::FORK_EVENT_LEN ==> actions@.len() == 0 && final(self).same(
                *old(self),
            ),
            bytes@.len() >= event::FORK_EVENT_LEN ==> old(self).on_fork(
                *final(self),
                event::fork_parent(order, bytes@),
                event::fork_child(order, bytes@),
                actions@,
            ),
    {
        let event = match ForkEvent::read(bytes, order) {
            Some(event) => event,
            None => {
                return Vec::new();
            },
        };
        if self.config.cargo.is_some() {
            self.cargo_subtree.fork(event.parent_pid, event.child_pid);
        }
        if self.config.subtree.is_some() {
            self.root_subtree.fork(event.parent_pid, event.child_pid);
        }
        self.tick()
    }

    /// Counts an event, where there is a subtree to follow.
    fn tick(&mut self) -> (sweep: Vec<Action>)
        requires
            old(self).wf(),
        ensures
            final(self).wf(),
            final(self).config() == old(self).config(),
            final(self).cargo() == old(self).cargo(),
            final(self).subtree() == old(self).subtree(),
            final(self).ticks() == if old(self).tracks() {
                next_tick(old(self).ticks())
            } else {
                old(self).ticks()
            },
            say(sweep@, old(self).sweep_due(old(self).pids())),
    {
        let mut sweep: Vec<Action> = Vec::new();
        if self.config.cargo.is_some() || self.config.subtree.is_some() {
            match self.prune_tick() {
                Some(pids) => sweep.push(Action::Sweep(pids)),
                None => {},
            }
        }
        sweep
    }

    /// Takes an exec.
    fn exec(&mut self, pid: u32, path: &str, parent: Option<u32>) -> (actions: Vec<Action>)
        requires
            old(self).wf(),
        ensures
            final(self).wf(),
            old(self).on_exec(*final(self), pid, path@, parent, actions@),
    {
        // --- cargo subtree: cargo itself, or any child of a tracked pid ---
        let cargo = match self.config.cargo {
            Some(cargo) => {
                if self.cargo_subtree.exec(path_is_cargo(path), pid, parent) {
                    Some(cargo.nice)
                } else {
                    None
                }
            },
            None => None,
        };
        // --- the subtrees of the other roots ---
        let plan = match &self.config.subtree {
            Some(subtree) => Some((path_is_root(subtree, path), subtree.nice)),
            None => None,
        };
        let subtree = match plan {
            Some((root, nice)) => {
                if self.root_subtree.exec(root, pid, parent) {
                    Some(nice)
                } else {
                    None
                }
            },
            None => None,
        };
        let ghost event = Happening::Exec { pid, path: path@, parent };
        assert(self.cargo() == followed(old(self).config().cargo_subtree(), old(self).cargo(), event));
        assert(self.subtree() == followed(old(self).config().subtree, old(self).subtree(), event));
        let mut sweep = self.tick();
        let ghost due = old(self).sweep_due(self.pids());
        let joined = match (cargo, subtree) {
            (Some(nice), _) => Some(self.apply(pid, nice, path, "cargo")),
            (None, Some(nice)) => Some(self.apply(pid, nice, path, "subtree")),
            (None, None) => None,
        };
        match joined {
            Some(renice) => {
                let mut actions: Vec<Action> = Vec::new();
                actions.push(Action::Renice(renice));
                let ghost one = actions@;
                let ghost swept = sweep@;
                actions.append(&mut sweep);
                proof {
                    let said = old(self).subtree_nice(pid, path@, parent)->0;
                    let first = seq![
                        Act::Renice { pid, nice: said.0, path: path@, why: said.1 },
                    ];
                    assert(say(one, first));
                    lemma_say_concat(one, swept, first, due);
                }
                actions
            },
            None => {
                // --- single-binary rules ---
                let mut by_rule = self.by_rule(pid, path);
                let ghost swept = sweep@;
                let ghost ruled = by_rule@;
                sweep.append(&mut by_rule);
                proof {
                    let nice = choose|nice: Option<i32>| #[trigger]
                        config::nice_is(self.config().rules, path@, nice) && say(
                            ruled,
                            rule_renice(pid, path@, nice),
                        );
                    lemma_say_concat(swept, ruled, due, rule_renice(pid, path@, nice));
                }
                sweep
            },
        }
    }

    /// What the rules say of an exec'd process.
    fn by_rule(&self, pid: u32, path: &str) -> (actions: Vec<Action>)
        ensures
            exists|nice: Option<i32>| #[trigger]
                config::nice_is(self.config().rules, path@, nice) && say(
                    actions@,
                    rule_renice(pid, path@, nice),
                ),
    {
        let mut actions: Vec<Action> = Vec::new();
        let nice = self.config.nice_for(path);
        match nice {
            Some(n) => actions.push(Action::Renice(self.apply(pid, n, path, "rule"))),
            None => {},
        }
        assert(config::nice_is(self.config().rules, path@, nice) && say(
            actions@,
            rule_renice(pid, path@, nice),
        ));
        actions
    }
}

proof fn lemma_say_concat(a: Seq<Action>, b: Seq<Action>, x: Seq<Act>, y: Seq<Act>)
    requires
        say(a, x),
        say(b, y),
    ensures
        say(a + b, x + y),
{
    assert forall|i: int| 0 <= i < (x + y).len() implies says(#[trigger] (a + b)[i], (x + y)[i]) by {
        if i < x.len() {
            assert(says(a[i], x[i]));
        } else {
            assert(says(b[i - x.len()], y[i - x.len()]));
        }
    }
}

} // verus!
