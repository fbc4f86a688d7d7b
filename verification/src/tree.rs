//! One process subtree: the pids that belong to it, as execs, forks and sweeps
//! come in.

use std::collections::HashSet;
use vstd::prelude::*;

use crate::config;

verus! {

broadcast use vstd::std_specs::hash::group_hash_axioms;

/// Something that happens to the processes of the machine.
pub ghost enum Happening {
    /// `pid` execs `path`; its parent, where that is known.
    Exec { pid: u32, path: Seq<char>, parent: Option<u32> },
    /// `by`, a process or a thread of one, forks `child`.
    Fork { by: u32, child: u32 },
    /// The pids `gone` were found to have no process.
    Sweep { gone: Set<u32> },
}

/// The pids of a subtree.
pub ghost struct Family {
    /// All that are known to be a root or a descendant of one. A pid stays until
    /// a sweep finds it without a process.
    pub members: Set<u32>,
    /// Those that a member forked, by the last that is known of them.
    pub seeded: Set<u32>,
}

/// A family without members.
pub open spec fn nobody() -> Family {
    Family { members: Set::empty(), seeded: Set::empty() }
}

/// Whether a path is that of a subtree root.
pub open spec fn is_root(plan: config::SubtreeModel, path: Seq<char>) -> bool {
    plan.roots.contains(config::basename_of(path))
}

/// Whether an exec'd process belongs to the subtree: it is a root, a member
/// forked it, or its parent is a member. That its pid is a member's does not
/// count by itself: the pid may have passed to another process.
pub open spec fn joins(
    plan: config::SubtreeModel,
    family: Family,
    pid: u32,
    path: Seq<char>,
    parent: Option<u32>,
) -> bool {
    ||| is_root(plan, path)
    ||| family.seeded.contains(pid)
    ||| parent matches Some(p) && family.members.contains(p)
}

/// The family after something happened. The child of a member is seeded. A fork
/// by anyone else gives a pid to a process that no member forked; it takes no
/// member away, since it may come in late: after the exec of a root that it
/// brought forth, or of a child that a thread of a member forked and that was
/// found by its parent.
pub open spec fn family_after(
    plan: config::SubtreeModel,
    family: Family,
    happening: Happening,
) -> Family {
    match happening {
        Happening::Exec { pid, path, parent } => if joins(plan, family, pid, path, parent) {
            Family { members: family.members.insert(pid), seeded: family.seeded }
        } else {
            family
        },
        Happening::Fork { by, child } => if family.members.contains(by) {
            Family {
                members: family.members.insert(child),
                seeded: family.seeded.insert(child),
            }
        } else {
            Family { members: family.members, seeded: family.seeded.remove(child) }
        },
        Happening::Sweep { gone } => Family {
            members: family.members.difference(gone),
            seeded: family.seeded.difference(gone),
        },
    }
}

/// The pids known to belong to a subtree.
pub struct Tree {
    members: HashSet<u32>,
    seeded: HashSet<u32>,
}

impl View for Tree {
    type V = Family;

    closed spec fn view(&self) -> Family {
        Family { members: self.members@, seeded: self.seeded@ }
    }
}

impl Tree {
    /// A subtree without members.
    pub fn new() -> (tree: Tree)
        ensures
            tree@ == nobody(),
    {
        Tree { members: HashSet::new(), seeded: HashSet::new() }
    }

    /// Whether a pid is a member's.
    pub fn contains(&self, pid: u32) -> (member: bool)
        ensures
            member == self@.members.contains(pid),
    {
        self.members.contains(&pid)
    }

    /// Whether a member forked the process with this pid.
    pub fn is_seeded(&self, pid: u32) -> (seeded: bool)
        ensures
            seeded == self@.seeded.contains(pid),
    {
        self.seeded.contains(&pid)
    }

    /// Takes an exec of `pid`, of a root or not; whether it belongs to the subtree.
    pub fn exec(&mut self, root: bool, pid: u32, parent: Option<u32>) -> (joined: bool)
        ensures
            joined == {
                ||| root
                ||| old(self)@.seeded.contains(pid)
                ||| parent matches Some(p) && old(self)@.members.contains(p)
            },
            final(self)@ == if joined {
                Family { members: old(self)@.members.insert(pid), seeded: old(self)@.seeded }
            } else {
                old(self)@
            },
    {
        let joined = root || self.seeded.contains(&pid) || match parent {
            Some(p) => self.members.contains(&p),
            None => false,
        };
        if joined {
            self.members.insert(pid);
        }
        joined
    }

    /// Takes a fork of `child` by `by`.
    pub fn fork(&mut self, by: u32, child: u32)
        ensures
            final(self)@ == if old(self)@.members.contains(by) {
                Family {
                    members: old(self)@.members.insert(child),
                    seeded: old(self)@.seeded.insert(child),
                }
            } else {
                Family {
                    members: old(self)@.members,
                    seeded: old(self)@.seeded.remove(child),
                }
            },
    {
        if self.members.contains(&by) {
            self.members.insert(child);
            self.seeded.insert(child);
        } else {
            self.seeded.remove(&child);
        }
    }

    /// Drops the pids that are `gone`.
    pub fn sweep(&mut self, gone: &Vec<u32>)
        ensures
            final(self)@ == (Family {
                members: old(self)@.members.difference(gone@.to_set()),
                seeded: old(self)@.seeded.difference(gone@.to_set()),
            }),
    {
        let mut at: usize = 0;
        assert(gone@.take(0).to_set() =~= Set::<u32>::empty());
        assert(self@.members =~= old(self)@.members.difference(gone@.take(0).to_set()));
        assert(self@.seeded =~= old(self)@.seeded.difference(gone@.take(0).to_set()));
        while at < gone.len()
            invariant
                at <= gone@.len(),
                self@.members == old(self)@.members.difference(gone@.take(at as int).to_set()),
                self@.seeded == old(self)@.seeded.difference(gone@.take(at as int).to_set()),
            decreases gone@.len() - at,
        {
            let ghost before = gone@.take(at as int);
            let ghost after = gone@.take(at + 1);
            self.members.remove(&gone[at]);
            self.seeded.remove(&gone[at]);
            proof {
                assert(after == before.push(gone@[at as int]));
                assert forall|p: u32| #[trigger] after.to_set().contains(p) <==> before.to_set().contains(p)
                    || p == gone@[at as int] by {
                    lemma_contains_push(before, gone@[at as int], p);
                }
            }
            assert(self@.members =~= old(self)@.members.difference(after.to_set()));
            assert(self@.seeded =~= old(self)@.seeded.difference(after.to_set()));
            at = at + 1;
        }
        assert(gone@.take(at as int) == gone@);
    }

    /// The pids of the members, in any order.
    pub fn pids(&self) -> (pids: Vec<u32>)
        ensures
            pids@.no_duplicates(),
            pids@.to_set() == self@.members,
    {
        let set = &self.members;
        let mut pids: Vec<u32> = Vec::new();
        for pid in it: set.iter()
            invariant
                it.seq().unref().to_set() == set@,
                it.seq().no_duplicates(),
                pids@ == it.seq().unref().take(it.index()),
                it.index() == it.seq().len() ==> pids@ =~= it.seq().unref(),
        {
            pids.push(*pid);
        }
        pids
    }
}

/// A pid is in a longer sequence if it is in the shorter one, or is the last.
pub proof fn lemma_contains_push(s: Seq<u32>, e: u32, p: u32)
    ensures
        s.push(e).contains(p) <==> s.contains(p) || p == e,
{
    assert(s.push(e)[s.len() as int] == e);
    if s.contains(p) {
        let i = choose|i: int| 0 <= i < s.len() && s[i] == p;
        assert(s.push(e)[i] == p);
    }
}

} // verus!
