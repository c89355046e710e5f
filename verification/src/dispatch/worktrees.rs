//! The worktrees that were created for dispatched work, and how each is to be removed.

use crate::path::{NativePath, PathKey};
use vstd::prelude::*;

verus! {

/// What happens to a worktree with uncommitted work when its tab is closed.
#[derive(Debug, Clone, Copy, PartialEq, Eq, Structural)]
pub enum RemovalPolicy {
    /// The directory goes, whatever it holds.
    Force,
    /// Uncommitted work wins: the directory stays.
    KeepIfDirty,
}

/// What is known of one worktree.
#[derive(Debug)]
pub struct WorktreeEntry {
    /// The checkout that the worktree belongs to.
    pub clone_dir: String,
    pub policy: RemovalPolicy,
}

/// What a [`WorktreeEntry`] stands for.
pub struct EntryModel {
    pub clone_dir: Seq<char>,
    pub policy: RemovalPolicy,
}

impl View for WorktreeEntry {
    type V = EntryModel;

    open spec fn view(&self) -> EntryModel {
        EntryModel { clone_dir: self.clone_dir@, policy: self.policy }
    }
}

/// The worktrees by directory. Two spellings of a path are one directory.
#[derive(Debug)]
pub struct WorktreeRegistry {
    dirs: Vec<NativePath>,
    entries: Vec<WorktreeEntry>,
}

impl WorktreeRegistry {
    /// What the spellings of the directory at a position share.
    spec fn key(self, i: int) -> PathKey {
        self.dirs@[i]@.key()
    }

    /// Each directory stands once, beside its entry.
    #[verifier::type_invariant]
    spec fn well_formed(self) -> bool {
        &&& self.dirs@.len() == self.entries@.len()
        &&& forall|i: int, j: int|
            0 <= i < j < self.dirs@.len() ==> self.key(i) != self.key(j)
    }

    spec fn position(self, dir: PathKey) -> int {
        choose|i: int| 0 <= i < self.dirs@.len() && self.key(i) == dir
    }

    /// The entry beside a directory is the one that is found for it.
    proof fn holds(self, i: int)
        requires
            self.well_formed(),
            0 <= i < self.dirs@.len(),
        ensures
            self@.contains_key(self.key(i)),
            self@[self.key(i)] == self.entries@[i]@,
    {
        let k = self.position(self.key(i));
        assert(0 <= k < self.dirs@.len() && self.key(k) == self.key(i));
        assert(k == i);
    }

    fn find(&self, dir: &NativePath) -> (r: Option<usize>)
        requires
            self.well_formed(),
        ensures
            match r {
                Some(i) => i < self.dirs@.len() && self.key(i as int) == dir@.key(),
                None => forall|i: int| 0 <= i < self.dirs@.len() ==> self.key(i) != dir@.key(),
            },
    {
        let mut i: usize = 0;
        while i < self.dirs.len()
            invariant
                i <= self.dirs@.len(),
                forall|j: int| 0 <= j < i ==> self.key(j) != dir@.key(),
            decreases self.dirs@.len() - i,
        {
            if self.dirs[i].same(dir) {
                return Some(i);
            }
            i = i + 1;
        }
        None
    }
}

impl View for WorktreeRegistry {
    type V = Map<PathKey, EntryModel>;

    closed spec fn view(&self) -> Map<PathKey, EntryModel> {
        Map::new(
            |dir: PathKey|
                exists|i: int| 0 <= i < self.dirs@.len() && self.key(i) == dir,
            |dir: PathKey| self.entries@[self.position(dir)]@,
        )
    }
}

proof fn same_elsewhere(a: Map<PathKey, EntryModel>, b: Map<PathKey, EntryModel>)
    requires
        forall|dir: PathKey|
            #![trigger a.contains_key(dir)]
            #![trigger b.contains_key(dir)]
            a.contains_key(dir) == b.contains_key(dir) && (a.contains_key(dir) ==> a[dir]
                == b[dir]),
    ensures
        a == b,
{
    assert forall|dir: PathKey| #[trigger]
        a.dom().contains(dir) == b.dom().contains(dir) by {
        assert(a.contains_key(dir) == b.contains_key(dir));
    }
    assert forall|dir: PathKey| a.dom().contains(dir) implies #[trigger] a[dir]
        == b[dir] by {
        assert(a.contains_key(dir));
    }
    assert(a =~= b);
}

/// A registry without worktrees.
pub fn new_worktree_registry() -> (r: WorktreeRegistry)
    ensures
        r@ == Map::<PathKey, EntryModel>::empty(),
{
    let r = WorktreeRegistry { dirs: Vec::new(), entries: Vec::new() };
    proof {
        assert(r@ =~= Map::<PathKey, EntryModel>::empty());
    }
    r
}

/// Record a worktree. What was recorded for the directory before is replaced.
pub fn record_worktree(
    worktrees: &mut WorktreeRegistry,
    worktree_dir: &NativePath,
    clone_dir: &str,
    policy: RemovalPolicy,
)
    ensures
        final(worktrees)@ == old(worktrees)@.insert(
            worktree_dir@.key(),
            (EntryModel { clone_dir: clone_dir@, policy }),
        ),
{
    let _ = take_worktree(worktrees, worktree_dir);
    proof {
        use_type_invariant(&*worktrees);
    }
    let ghost before = *worktrees;
    let mut held = WorktreeRegistry { dirs: Vec::new(), entries: Vec::new() };
    std::mem::swap(&mut held, worktrees);
    let mut dirs = held.dirs;
    let mut entries = held.entries;
    dirs.push(worktree_dir.copied());
    entries.push(WorktreeEntry { clone_dir: clone_dir.to_owned(), policy });
    proof {
        assert forall|i: int, j: int| 0 <= i < j < dirs@.len() implies dirs@[i]@.key()
            != dirs@[j]@.key() by {
            assert(dirs@[i]@.key() == before.key(i));
            if j == dirs@.len() - 1 {
                before.holds(i);
            } else {
                assert(dirs@[j]@.key() == before.key(j));
            }
        }
    }
    let now = WorktreeRegistry { dirs, entries };
    proof {
        let entry = EntryModel { clone_dir: clone_dir@, policy };
        let last = now.dirs@.len() - 1;
        now.holds(last);
        assert forall|dir: PathKey|
            #![trigger now@.contains_key(dir)]
            #![trigger before@.contains_key(dir)]
            dir != worktree_dir@.key() implies now@.contains_key(dir)
            == before@.contains_key(dir) && (before@.contains_key(dir) ==> now@[dir]
            == before@[dir]) by {
            if before@.contains_key(dir) {
                let i = choose|i: int| 0 <= i < before.dirs@.len() && before.key(i) == dir;
                before.holds(i);
                now.holds(i);
            }
            if now@.contains_key(dir) {
                let i = choose|i: int| 0 <= i < now.dirs@.len() && now.key(i) == dir;
                before.holds(i);
                now.holds(i);
            }
        }
        same_elsewhere(before@.insert(worktree_dir@.key(), entry), now@);
        assert(now@ =~= old(worktrees)@.insert(worktree_dir@.key(), entry));
    }
    *worktrees = now;
}

/// Take a worktree out of the registry, if it is recorded.
pub fn take_worktree(worktrees: &mut WorktreeRegistry, worktree_dir: &NativePath) -> (r: Option<
    WorktreeEntry,
>)
    ensures
        final(worktrees)@ == old(worktrees)@.remove(worktree_dir@.key()),
        ({
            let dir = worktree_dir@.key();
            match r {
                Some(entry) => old(worktrees)@.contains_key(dir) && entry@ == old(worktrees)@[dir],
                None => !old(worktrees)@.contains_key(dir),
            }
        }),
{
    proof {
        use_type_invariant(&*worktrees);
    }
    let ghost before = *worktrees;
    match worktrees.find(worktree_dir) {
        None => {
            proof {
                assert(before@ =~= before@.remove(worktree_dir@.key()));
            }
            None
        },
        Some(at) => {
            let mut held = WorktreeRegistry { dirs: Vec::new(), entries: Vec::new() };
            std::mem::swap(&mut held, worktrees);
            let mut dirs = held.dirs;
            let mut entries = held.entries;
            let _ = dirs.remove(at);
            let entry = entries.remove(at);
            proof {
                assert forall|i: int, j: int| 0 <= i < j < dirs@.len() implies dirs@[i]@.key()
                    != dirs@[j]@.key() by {
                    let k = if i < at {
                        i
                    } else {
                        i + 1
                    };
                    let l = if j < at {
                        j
                    } else {
                        j + 1
                    };
                    assert(before.key(k) != before.key(l));
                }
            }
            let now = WorktreeRegistry { dirs, entries };
            proof {
                before.holds(at as int);
                assert forall|dir: PathKey|
                    #![trigger now@.contains_key(dir)]
                    #![trigger before@.contains_key(dir)]
                    dir != worktree_dir@.key() implies now@.contains_key(dir)
                    == before@.contains_key(dir) && (before@.contains_key(dir) ==> now@[dir]
                    == before@[dir]) by {
                    if before@.contains_key(dir) {
                        let i = choose|i: int|
                            0 <= i < before.dirs@.len() && before.key(i) == dir;
                        before.holds(i);
                        now.holds(if i < at {
                            i
                        } else {
                            i - 1
                        });
                    }
                    if now@.contains_key(dir) {
                        let i = choose|i: int| 0 <= i < now.dirs@.len() && now.key(i) == dir;
                        now.holds(i);
                        before.holds(if i < at {
                            i
                        } else {
                            i + 1
                        });
                    }
                }
                assert forall|i: int| 0 <= i < now.dirs@.len() implies now.key(i)
                    != worktree_dir@.key() by {
                    let k = if i < at {
                        i
                    } else {
                        i + 1
                    };
                    assert(before.key(k) != before.key(at as int));
                    assert(now.key(i) == before.key(k));
                }
                assert(!now@.contains_key(worktree_dir@.key()));
                same_elsewhere(before@.remove(worktree_dir@.key()), now@);
            }
            *worktrees = now;
            Some(entry)
        },
    }
}

// ---------------------------------------------------------------------------
// Laws
// ---------------------------------------------------------------------------

/// What was recorded for a directory, in whatever spelling, comes back out with the policy
/// that it was recorded with, whatever was recorded for another directory in between.
pub proof fn policies_survive_the_registry(
    worktrees: Map<PathKey, EntryModel>,
    dir: PathKey,
    entry: EntryModel,
    other: PathKey,
    other_entry: EntryModel,
)
    requires
        dir != other,
    ensures
        worktrees.insert(dir, entry).insert(other, other_entry).contains_key(dir),
        worktrees.insert(dir, entry).insert(other, other_entry)[dir] == entry,
        worktrees.insert(dir, entry).remove(other)[dir] == entry,
        worktrees.insert(dir, entry).remove(dir) == worktrees.remove(dir),
{
    assert(worktrees.insert(dir, entry).remove(dir) =~= worktrees.remove(dir));
}

} // verus!
