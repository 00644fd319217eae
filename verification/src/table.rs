//! Watch-handle bookkeeping: an ordered mapping from watch handle to
//! watched directory, deduplicated by inode.

use vstd::prelude::*;

use crate::directory::Directory;

verus! {

/// Errors of the watch bookkeeping.
#[derive(Clone, Copy, Debug, PartialEq, Eq, Structural)]
pub enum WatchError {
    /// The offered path is not a directory.
    NotADirectory,
    /// The offered directory's inode is already tracked.
    DuplicateInode,
    /// An event references a watch handle with no live entry.
    NotFound,
}

/// Some live entry carries the watch handle `wd`.
pub open spec fn has_wd(s: Seq<(i32, Directory)>, wd: i32) -> bool {
    exists|i: int| 0 <= i < s.len() && s[i].0 == wd
}

/// Some live entry carries the inode `ino`.
pub open spec fn has_ino(s: Seq<(i32, Directory)>, ino: u64) -> bool {
    exists|i: int| 0 <= i < s.len() && s[i].1.ino == ino
}

/// The index of the entry carrying `wd` (meaningful when `has_wd` holds and
/// handles are unique).
pub open spec fn wd_index(s: Seq<(i32, Directory)>, wd: i32) -> int {
    choose|i: int| 0 <= i < s.len() && s[i].0 == wd
}

/// The directory of the entry carrying `wd`.
pub open spec fn dir_of(s: Seq<(i32, Directory)>, wd: i32) -> Directory {
    s[wd_index(s, wd)].1
}

/// The entry sequence with the entry carrying `wd` taken out (the first
/// such entry; under unique handles, the only one). Order is kept.
pub open spec fn remove_wd(s: Seq<(i32, Directory)>, wd: i32) -> Seq<(i32, Directory)>
    decreases s.len(),
{
    if s.len() == 0 {
        s
    } else if s[0].0 == wd {
        s.skip(1)
    } else {
        seq![s[0]] + remove_wd(s.skip(1), wd)
    }
}

/// Removing an absent handle changes nothing.
pub proof fn lemma_remove_wd_absent(s: Seq<(i32, Directory)>, wd: i32)
    requires
        !has_wd(s, wd),
    ensures
        remove_wd(s, wd) == s,
    decreases s.len(),
{
    if s.len() > 0 {
        assert(s[0].0 != wd);
        assert(!has_wd(s.skip(1), wd)) by {
            if has_wd(s.skip(1), wd) {
                let i = choose|i: int| 0 <= i < s.skip(1).len() && s.skip(1)[i].0 == wd;
                assert(s[i + 1].0 == wd);
            }
        }
        lemma_remove_wd_absent(s.skip(1), wd);
        assert(seq![s[0]] + s.skip(1) =~= s);
    }
}

/// Removing the handle found at index `i` removes exactly that entry.
pub proof fn lemma_remove_wd_at(s: Seq<(i32, Directory)>, wd: i32, i: int)
    requires
        0 <= i < s.len(),
        s[i].0 == wd,
        forall|j: int| 0 <= j < i ==> s[j].0 != wd,
    ensures
        remove_wd(s, wd) == s.remove(i),
    decreases i,
{
    if i == 0 {
        assert(remove_wd(s, wd) == s.skip(1));
        assert(s.skip(1) =~= s.remove(0));
    } else {
        assert(s[0].0 != wd);
        lemma_remove_wd_at(s.skip(1), wd, i - 1);
        assert(seq![s[0]] + s.skip(1).remove(i - 1) =~= s.remove(i));
    }
}

/// Under unique handles, the index of a handle is the index where it is
/// found.
pub proof fn lemma_wd_index_is(s: Seq<(i32, Directory)>, wd: i32, i: int)
    requires
        0 <= i < s.len(),
        s[i].0 == wd,
        forall|a: int, b: int| 0 <= a < b < s.len() ==> s[a].0 != s[b].0,
    ensures
        wd_index(s, wd) == i,
{
    assert(has_wd(s, wd));
    let j = wd_index(s, wd);
    assert(0 <= j < s.len() && s[j].0 == wd);
    if i < j {
        assert(s[i].0 != s[j].0);
    } else if j < i {
        assert(s[j].0 != s[i].0);
    }
}

/// Bidirectional bookkeeping of the directories under observation. An
/// inode is tracked exactly when exactly one live entry carries it.
pub struct WatchTable {
    /// The live entries, keyed by watch handle, in insertion order.
    pub entries: Vec<(i32, Directory)>,
}

impl WatchTable {
    /// Invariant: watch handles are unique, inodes are unique, and every
    /// entry is well-formed.
    pub open spec fn wf(&self) -> bool {
        &&& forall|i: int, j: int|
            0 <= i < j < self.entries@.len() ==> self.entries@[i].0 != self.entries@[j].0
        &&& forall|i: int, j: int|
            0 <= i < j < self.entries@.len() ==> self.entries@[i].1.ino != self.entries@[j].1.ino
        &&& forall|i: int| 0 <= i < self.entries@.len() ==> self.entries@[i].1.wf()
    }

    /// The set of inodes currently represented in the mapping.
    pub open spec fn ino_set(&self) -> Set<u64> {
        Set::new(|ino: u64| has_ino(self.entries@, ino))
    }

    /// An empty table.
    pub fn new() -> (t: WatchTable)
        ensures
            t.wf(),
            t.entries@.len() == 0,
    {
        WatchTable { entries: Vec::new() }
    }

    /// The number of live entries.
    pub fn len(&self) -> (n: usize)
        ensures
            n == self.entries@.len(),
    {
        self.entries.len()
    }

    /// Reports whether a live entry carries the handle `wd`.
    pub fn contains_wd(&self, wd: i32) -> (r: bool)
        ensures
            r == has_wd(self.entries@, wd),
    {
        let mut i: usize = 0;
        while i < self.entries.len()
            invariant
                i <= self.entries@.len(),
                forall|j: int| 0 <= j < i ==> self.entries@[j].0 != wd,
            decreases self.entries@.len() - i,
        {
            if self.entries[i].0 == wd {
                return true;
            }
            i += 1;
        }
        false
    }

    /// Reports whether a live entry carries the inode `ino`.
    pub fn contains_ino(&self, ino: u64) -> (r: bool)
        ensures
            r == has_ino(self.entries@, ino),
            r == self.ino_set().contains(ino),
    {
        let mut i: usize = 0;
        while i < self.entries.len()
            invariant
                i <= self.entries@.len(),
                forall|j: int| 0 <= j < i ==> self.entries@[j].1.ino != ino,
            decreases self.entries@.len() - i,
        {
            if self.entries[i].1.ino == ino {
                return true;
            }
            i += 1;
        }
        false
    }

    /// Decides whether a stat'ed path may be added: it must be a directory
    /// whose inode is not yet tracked.
    pub fn check_add(&self, is_dir: bool, ino: u64) -> (r: Result<(), WatchError>)
        ensures
            (r is Ok) <==> (is_dir && !has_ino(self.entries@, ino)),
            !is_dir ==> r == Err::<(), WatchError>(WatchError::NotADirectory),
            is_dir && has_ino(self.entries@, ino) ==> r == Err::<(), WatchError>(
                WatchError::DuplicateInode,
            ),
    {
        if !is_dir {
            Err(WatchError::NotADirectory)
        } else if self.contains_ino(ino) {
            Err(WatchError::DuplicateInode)
        } else {
            Ok(())
        }
    }

    /// Registers a directory under a fresh watch handle.
    pub fn insert(&mut self, wd: i32, dir: Directory)
        requires
            old(self).wf(),
            !has_wd(old(self).entries@, wd),
            !has_ino(old(self).entries@, dir.ino),
            dir.wf(),
        ensures
            final(self).wf(),
            final(self).entries@ == old(self).entries@.push((wd, dir)),
    {
        self.entries.push((wd, dir));
    }

    /// Looks up the directory watched under `wd`.
    pub fn lookup(&self, wd: i32) -> (r: Result<&Directory, WatchError>)
        requires
            self.wf(),
        ensures
            match r {
                Ok(d) => has_wd(self.entries@, wd) && *d == dir_of(self.entries@, wd),
                Err(e) => e == WatchError::NotFound && !has_wd(self.entries@, wd),
            },
    {
        let mut i: usize = 0;
        while i < self.entries.len()
            invariant
                self.wf(),
                i <= self.entries@.len(),
                forall|j: int| 0 <= j < i ==> self.entries@[j].0 != wd,
            decreases self.entries@.len() - i,
        {
            if self.entries[i].0 == wd {
                proof {
                    lemma_wd_index_is(self.entries@, wd, i as int);
                }
                return Ok(&self.entries[i].1);
            }
            i += 1;
        }
        Err(WatchError::NotFound)
    }

    /// Finds the index of the entry carrying `wd`.
    pub fn find(&self, wd: i32) -> (r: Option<usize>)
        requires
            self.wf(),
        ensures
            match r {
                Some(i) => 0 <= i < self.entries@.len() && self.entries@[i as int].0 == wd
                    && wd_index(self.entries@, wd) == i && has_wd(self.entries@, wd),
                None => !has_wd(self.entries@, wd),
            },
    {
        let mut i: usize = 0;
        while i < self.entries.len()
            invariant
                self.wf(),
                i <= self.entries@.len(),
                forall|j: int| 0 <= j < i ==> self.entries@[j].0 != wd,
            decreases self.entries@.len() - i,
        {
            if self.entries[i].0 == wd {
                proof {
                    lemma_wd_index_is(self.entries@, wd, i as int);
                }
                return Some(i);
            }
            i += 1;
        }
        None
    }

    /// Marks the destination mirror of the entry at `i` materialized.
    pub fn mark_dst_created(&mut self, i: usize)
        requires
            old(self).wf(),
            i < old(self).entries@.len(),
        ensures
            final(self).wf(),
            final(self).entries@ == old(self).entries@.update(
                i as int,
                (
                    old(self).entries@[i as int].0,
                    (Directory { dst_created: true, ..old(self).entries@[i as int].1 }),
                ),
            ),
    {
        let d = &mut self.entries[i].1;
        d.dst_created = true;
        proof {
            assert forall|a: int, b: int|
                0 <= a < b < self.entries@.len() implies self.entries@[a].0 != self.entries@[b].0
                && self.entries@[a].1.ino != self.entries@[b].1.ino by {
                assert(old(self).entries@[a].0 != old(self).entries@[b].0);
                assert(old(self).entries@[a].1.ino != old(self).entries@[b].1.ino);
            }
            assert forall|a: int| 0 <= a < self.entries@.len() implies self.entries@[a].1.wf() by {
                assert(old(self).entries@[a].1.wf());
            }
        }
    }

    /// Deletes the entry carrying `wd`, if present, and with it its inode
    /// from the tracked set. Absent handles are reported, not an error:
    /// duplicate removal notifications are possible.
    pub fn remove(&mut self, wd: i32) -> (r: Option<Directory>)
        requires
            old(self).wf(),
        ensures
            final(self).wf(),
            final(self).entries@ == remove_wd(old(self).entries@, wd),
            match r {
                Some(d) => has_wd(old(self).entries@, wd) && d == dir_of(old(self).entries@, wd)
                    && !final(self).ino_set().contains(d.ino),
                None => !has_wd(old(self).entries@, wd) && final(self).entries@ == old(
                    self,
                ).entries@,
            },
    {
        let mut i: usize = 0;
        while i < self.entries.len()
            invariant
                old(self).wf(),
                self == old(self),
                i <= self.entries@.len(),
                forall|j: int| 0 <= j < i ==> self.entries@[j].0 != wd,
            decreases self.entries@.len() - i,
        {
            if self.entries[i].0 == wd {
                proof {
                    lemma_wd_index_is(self.entries@, wd, i as int);
                    lemma_remove_wd_at(self.entries@, wd, i as int);
                }
                let entry = self.entries.remove(i);
                proof {
                    old(self).entries@.remove_ensures(i as int);
                    assert forall|a: int, b: int|
                        0 <= a < b < self.entries@.len() implies self.entries@[a].0
                        != self.entries@[b].0 && self.entries@[a].1.ino
                        != self.entries@[b].1.ino by {
                        let oa: int = if a < i as int {
                            a
                        } else {
                            a + 1
                        };
                        let ob: int = if b < i as int {
                            b
                        } else {
                            b + 1
                        };
                        assert(self.entries@[a] == old(self).entries@[oa]);
                        assert(self.entries@[b] == old(self).entries@[ob]);
                    }
                    assert forall|a: int|
                        0 <= a < self.entries@.len() implies self.entries@[a].1.wf()
                        && self.entries@[a].1.ino != entry.1.ino by {
                        let oa: int = if a < i as int {
                            a
                        } else {
                            a + 1
                        };
                        assert(self.entries@[a] == old(self).entries@[oa]);
                    }
                    assert(!has_ino(self.entries@, entry.1.ino));
                }
                return Some(entry.1);
            }
            i += 1;
        }
        proof {
            lemma_remove_wd_absent(self.entries@, wd);
        }
        None
    }
}

/// Duplicate-watch prevention: under the table invariant, at most one live
/// entry carries any given inode, and an inode is in the tracked set
/// exactly when a live entry carries it.
pub proof fn lemma_inode_tracked_once(t: &WatchTable, i: int, j: int, ino: u64)
    requires
        t.wf(),
        0 <= i < t.entries@.len(),
        0 <= j < t.entries@.len(),
        t.entries@[i].1.ino == t.entries@[j].1.ino,
    ensures
        i == j,
        t.ino_set().contains(ino) <==> has_ino(t.entries@, ino),
{
    if i < j {
        assert(t.entries@[i].1.ino != t.entries@[j].1.ino);
    } else if j < i {
        assert(t.entries@[j].1.ino != t.entries@[i].1.ino);
    }
}

} // verus!
