//! The bidirectional inode registry and the two monotonic counters.
//!
//! The registry is the canonical map between 64-bit inode numbers and logical
//! entries. It is bijective on the pairs it contains: no inode maps to two
//! entries and no entry maps to two inodes. The mount root is always bound to
//! inode 1 and the freestanding directory to inode 2; every other entry gets
//! a freshly allocated inode, starting at 3. Bound pairs persist for the life
//! of the registry: inodes are never recycled (a long-lived mount over a
//! churning cluster grows the map monotonically; see the crate docs).
//!
//! The registry also owns the file-handle counter. Handles start at a high
//! constant so they are visually distinct from inodes.

use vstd::prelude::*;

use crate::entry::{Entry, EntryModel};

verus! {

/// The inode of the mount root.
pub const INO_ROOT: u64 = 1;

/// The inode of the freestanding-objects directory `_/`.
pub const INO_FREESTANDING: u64 = 2;

/// The first dynamically allocated inode.
pub const INO_ALLOC_START: u64 = 3;

/// The first file handle ever issued.
pub const FH_START: u64 = 0x10000;

/// The bidirectional inode registry.
pub struct Registry {
    /// The bound pairs. Both components are unique across the vector.
    pub pairs: Vec<(u64, Entry)>,
    /// The next inode to allocate. Monotonic; never reused.
    pub next_ino: u64,
    /// The next file handle to issue. Monotonic; never reused.
    pub next_fh: u64,
}

impl Registry {
    /// The registry binds inode `ino` to the entry `e`.
    pub open spec fn maps(self, ino: u64, e: EntryModel) -> bool {
        exists|i: int|
            0 <= i < self.pairs@.len() && (#[trigger] self.pairs@[i]).0 == ino
                && self.pairs@[i].1@ == e
    }

    /// Some entry is bound to inode `ino`.
    pub open spec fn has_ino(self, ino: u64) -> bool {
        exists|i: int| 0 <= i < self.pairs@.len() && (#[trigger] self.pairs@[i]).0 == ino
    }

    /// The entry `e` is bound to some inode.
    pub open spec fn has_entry(self, e: EntryModel) -> bool {
        exists|i: int| 0 <= i < self.pairs@.len() && (#[trigger] self.pairs@[i]).1@ == e
    }

    /// Every pair of `other` is also in `self`: the registry only grows.
    pub open spec fn extends(self, other: Registry) -> bool {
        forall|ino: u64, e: EntryModel| other.maps(ino, e) ==> self.maps(ino, e)
    }

    /// Well-formedness: the map is bijective on its pairs, the two fixed
    /// directories are bound to their fixed inodes and to nothing else, and
    /// every bound inode lies below the allocation counter.
    pub open spec fn wf(self) -> bool {
        &&& forall|i: int, j: int|
            0 <= i < j < self.pairs@.len() ==> (#[trigger] self.pairs@[i]).0 != (
            #[trigger] self.pairs@[j]).0 && self.pairs@[i].1@ != self.pairs@[j].1@
        &&& self.maps(INO_ROOT, EntryModel::Mountpoint)
        &&& self.maps(INO_FREESTANDING, EntryModel::FreestandingDir)
        &&& forall|i: int|
            0 <= i < self.pairs@.len() ==> ((#[trigger] self.pairs@[i]).1@
                == EntryModel::Mountpoint <==> self.pairs@[i].0 == INO_ROOT)
        &&& forall|i: int|
            0 <= i < self.pairs@.len() ==> ((#[trigger] self.pairs@[i]).1@
                == EntryModel::FreestandingDir <==> self.pairs@[i].0 == INO_FREESTANDING)
        &&& forall|i: int|
            0 <= i < self.pairs@.len() ==> 0 < (#[trigger] self.pairs@[i]).0 < self.next_ino
        &&& self.next_ino >= INO_ALLOC_START
        &&& self.next_fh >= FH_START
    }

    /// A fresh registry: root and freestanding directory bound, counters at
    /// their starting values, nothing else.
    pub fn new() -> (r: Registry)
        ensures
            r.wf(),
            r.maps(INO_ROOT, EntryModel::Mountpoint),
            r.maps(INO_FREESTANDING, EntryModel::FreestandingDir),
            forall|ino: u64, e: EntryModel|
                r.maps(ino, e) ==> (ino == INO_ROOT && e == EntryModel::Mountpoint) || (ino
                    == INO_FREESTANDING && e == EntryModel::FreestandingDir),
            r.next_ino == INO_ALLOC_START,
            r.next_fh == FH_START,
    {
        let mut pairs: Vec<(u64, Entry)> = Vec::new();
        pairs.push((INO_ROOT, Entry::Mountpoint));
        pairs.push((INO_FREESTANDING, Entry::FreestandingDir));
        let r = Registry { pairs, next_ino: INO_ALLOC_START, next_fh: FH_START };
        proof {
            assert(r.pairs@[0].0 == INO_ROOT && r.pairs@[0].1@ == EntryModel::Mountpoint);
            assert(r.pairs@[1].0 == INO_FREESTANDING && r.pairs@[1].1@
                == EntryModel::FreestandingDir);
        }
        r
    }

    /// The inode of the mount root.
    pub fn root_inode() -> (r: u64)
        ensures
            r == INO_ROOT,
    {
        INO_ROOT
    }

    /// The inode of the freestanding-objects directory.
    pub fn freestanding_inode() -> (r: u64)
        ensures
            r == INO_FREESTANDING,
    {
        INO_FREESTANDING
    }

    /// Looks an inode up. Total: an unknown inode yields `None`.
    pub fn entry_of(&self, ino: u64) -> (r: Option<Entry>)
        ensures
            match r {
                Some(e) => self.maps(ino, e@),
                None => !self.has_ino(ino),
            },
    {
        let mut i: usize = 0;
        while i < self.pairs.len()
            invariant
                i <= self.pairs@.len(),
                forall|j: int| 0 <= j < i ==> (#[trigger] self.pairs@[j]).0 != ino,
            decreases self.pairs@.len() - i,
        {
            if self.pairs[i].0 == ino {
                return Some(self.pairs[i].1.clone_entry());
            }
            i = i + 1;
        }
        None
    }

    /// Looks an entry up. Total: an unbound entry yields `None`.
    pub fn inode_of(&self, e: &Entry) -> (r: Option<u64>)
        ensures
            match r {
                Some(ino) => self.maps(ino, e@),
                None => !self.has_entry(e@),
            },
    {
        let mut i: usize = 0;
        while i < self.pairs.len()
            invariant
                i <= self.pairs@.len(),
                forall|j: int| 0 <= j < i ==> (#[trigger] self.pairs@[j]).1@ != e@,
            decreases self.pairs@.len() - i,
        {
            if self.pairs[i].1.entry_eq(e) {
                return Some(self.pairs[i].0);
            }
            i = i + 1;
        }
        None
    }

    /// Returns the inode bound to `e`, binding a fresh one first if `e` is
    /// new. `None` only when the allocation counter is exhausted and `e` is
    /// unbound; the registry is then unchanged (the caller replies with an
    /// I/O error rather than corrupt the map).
    pub fn intern(&mut self, e: Entry) -> (r: Option<u64>)
        requires
            old(self).wf(),
        ensures
            final(self).wf(),
            final(self).next_fh == old(self).next_fh,
            final(self).extends(*old(self)),
            match r {
                Some(ino) => {
                    &&& final(self).maps(ino, e@)
                    &&& forall|i: u64, e2: EntryModel|
                        final(self).maps(i, e2) ==> old(self).maps(i, e2) || (i == ino && e2
                            == e@)
                    &&& forall|i: u64| old(self).maps(i, e@) ==> ino == i
                    &&& (old(self).has_entry(e@) ==> *final(self) == *old(self))
                    &&& (!old(self).has_entry(e@) ==> ino == old(self).next_ino
                        && final(self).next_ino == old(self).next_ino + 1
                        && !old(self).has_ino(ino))
                },
                None => *final(self) == *old(self) && old(self).next_ino == u64::MAX
                    && !old(self).has_entry(e@),
            },
    {
        let mut i: usize = 0;
        while i < self.pairs.len()
            invariant
                *self == *old(self),
                old(self).wf(),
                i <= self.pairs@.len(),
                forall|j: int| 0 <= j < i ==> (#[trigger] self.pairs@[j]).1@ != e@,
            decreases self.pairs@.len() - i,
        {
            if self.pairs[i].1.entry_eq(&e) {
                let ino = self.pairs[i].0;
                proof {
                    assert(self.maps(ino, e@));
                    assert forall|i2: u64| old(self).maps(i2, e@) implies ino == i2 by {
                        let j = choose|j: int|
                            0 <= j < self.pairs@.len() && (#[trigger] self.pairs@[j]).0 == i2
                                && self.pairs@[j].1@ == e@;
                        if j < i as int {
                            assert(self.pairs@[j].0 != self.pairs@[i as int].0 && self.pairs@[j].1@
                                != self.pairs@[i as int].1@);
                        } else if j > i as int {
                            assert(self.pairs@[i as int].0 != self.pairs@[j].0
                                && self.pairs@[i as int].1@ != self.pairs@[j].1@);
                        }
                    }
                }
                return Some(ino);
            }
            i = i + 1;
        }
        if self.next_ino == u64::MAX {
            return None;
        }
        let ino = self.next_ino;
        self.pairs.push((ino, e));
        self.next_ino = self.next_ino + 1;
        proof {
            let n = self.pairs@.len() - 1;
            assert(self.pairs@[n].0 == ino && self.pairs@[n].1@ == e@);
            assert(forall|j: int|
                0 <= j < n ==> (#[trigger] self.pairs@[j]) == old(self).pairs@[j]);
            assert(e@ != EntryModel::Mountpoint) by {
                if e@ == EntryModel::Mountpoint {
                    let j = choose|j: int|
                        0 <= j < old(self).pairs@.len() && (#[trigger] old(self).pairs@[j]).0
                            == INO_ROOT && old(self).pairs@[j].1@ == EntryModel::Mountpoint;
                    assert(old(self).pairs@[j].1@ == e@);
                }
            }
            assert(e@ != EntryModel::FreestandingDir) by {
                if e@ == EntryModel::FreestandingDir {
                    let j = choose|j: int|
                        0 <= j < old(self).pairs@.len() && (#[trigger] old(self).pairs@[j]).0
                            == INO_FREESTANDING && old(self).pairs@[j].1@
                            == EntryModel::FreestandingDir;
                    assert(old(self).pairs@[j].1@ == e@);
                }
            }
            assert(self.maps(INO_ROOT, EntryModel::Mountpoint)) by {
                let j = choose|j: int|
                    0 <= j < old(self).pairs@.len() && (#[trigger] old(self).pairs@[j]).0
                        == INO_ROOT && old(self).pairs@[j].1@ == EntryModel::Mountpoint;
                assert(self.pairs@[j].0 == INO_ROOT && self.pairs@[j].1@
                    == EntryModel::Mountpoint);
            }
            assert(self.maps(INO_FREESTANDING, EntryModel::FreestandingDir)) by {
                let j = choose|j: int|
                    0 <= j < old(self).pairs@.len() && (#[trigger] old(self).pairs@[j]).0
                        == INO_FREESTANDING && old(self).pairs@[j].1@
                        == EntryModel::FreestandingDir;
                assert(self.pairs@[j].0 == INO_FREESTANDING && self.pairs@[j].1@
                    == EntryModel::FreestandingDir);
            }
            assert(forall|i2: u64, e2: EntryModel|
                old(self).maps(i2, e2) ==> self.maps(i2, e2)) by {
                assert forall|i2: u64, e2: EntryModel|
                    old(self).maps(i2, e2) implies self.maps(i2, e2) by {
                    let j = choose|j: int|
                        0 <= j < old(self).pairs@.len() && (#[trigger] old(self).pairs@[j]).0 == i2
                            && old(self).pairs@[j].1@ == e2;
                    assert(self.pairs@[j].0 == i2 && self.pairs@[j].1@ == e2);
                }
            }
        }
        Some(ino)
    }

    /// Issues a fresh file handle. `None` only when the handle counter is
    /// exhausted; the registry is then unchanged.
    pub fn alloc_handle(&mut self) -> (r: Option<u64>)
        requires
            old(self).wf(),
        ensures
            final(self).wf(),
            final(self).pairs@ == old(self).pairs@,
            final(self).next_ino == old(self).next_ino,
            match r {
                Some(fh) => fh == old(self).next_fh && final(self).next_fh == old(self).next_fh
                    + 1,
                None => *final(self) == *old(self) && old(self).next_fh == u64::MAX,
            },
    {
        if self.next_fh == u64::MAX {
            return None;
        }
        let fh = self.next_fh;
        self.next_fh = self.next_fh + 1;
        Some(fh)
    }
}

/// Two registries with the same pairs bind the same inodes and entries (the
/// counters play no part in the map).
pub proof fn lemma_maps_same_pairs(r1: Registry, r2: Registry)
    requires
        r1.pairs@ == r2.pairs@,
    ensures
        forall|ino: u64, e: EntryModel| r1.maps(ino, e) <==> r2.maps(ino, e),
        forall|ino: u64| r1.has_ino(ino) <==> r2.has_ino(ino),
        forall|e: EntryModel| r1.has_entry(e) <==> r2.has_entry(e),
{
    assert forall|ino: u64, e: EntryModel| r1.maps(ino, e) implies r2.maps(ino, e) by {
        let j = choose|j: int|
            0 <= j < r1.pairs@.len() && (#[trigger] r1.pairs@[j]).0 == ino && r1.pairs@[j].1@ == e;
        assert(r2.pairs@[j].0 == ino && r2.pairs@[j].1@ == e);
    }
    assert forall|ino: u64, e: EntryModel| r2.maps(ino, e) implies r1.maps(ino, e) by {
        let j = choose|j: int|
            0 <= j < r2.pairs@.len() && (#[trigger] r2.pairs@[j]).0 == ino && r2.pairs@[j].1@ == e;
        assert(r1.pairs@[j].0 == ino && r1.pairs@[j].1@ == e);
    }
    assert forall|ino: u64| r1.has_ino(ino) implies r2.has_ino(ino) by {
        let j = choose|j: int| 0 <= j < r1.pairs@.len() && (#[trigger] r1.pairs@[j]).0 == ino;
        assert(r2.pairs@[j].0 == ino);
    }
    assert forall|ino: u64| r2.has_ino(ino) implies r1.has_ino(ino) by {
        let j = choose|j: int| 0 <= j < r2.pairs@.len() && (#[trigger] r2.pairs@[j]).0 == ino;
        assert(r1.pairs@[j].0 == ino);
    }
    assert forall|e: EntryModel| r1.has_entry(e) implies r2.has_entry(e) by {
        let j = choose|j: int| 0 <= j < r1.pairs@.len() && (#[trigger] r1.pairs@[j]).1@ == e;
        assert(r2.pairs@[j].1@ == e);
    }
    assert forall|e: EntryModel| r2.has_entry(e) implies r1.has_entry(e) by {
        let j = choose|j: int| 0 <= j < r2.pairs@.len() && (#[trigger] r2.pairs@[j]).1@ == e;
        assert(r1.pairs@[j].1@ == e);
    }
}

/// The registry is a bijection on the pairs it holds: two bound pairs agree
/// on their inode exactly when they agree on their entry. In particular, for
/// every interned pair, looking the entry up by inode and the inode up by
/// entry returns that same pair.
pub proof fn lemma_bijection(r: Registry, i1: u64, e1: EntryModel, i2: u64, e2: EntryModel)
    requires
        r.wf(),
        r.maps(i1, e1),
        r.maps(i2, e2),
    ensures
        i1 == i2 <==> e1 == e2,
{
    let j1 = choose|j: int|
        0 <= j < r.pairs@.len() && (#[trigger] r.pairs@[j]).0 == i1 && r.pairs@[j].1@ == e1;
    let j2 = choose|j: int|
        0 <= j < r.pairs@.len() && (#[trigger] r.pairs@[j]).0 == i2 && r.pairs@[j].1@ == e2;
    if j1 != j2 {
        assert(r.pairs@[j1].0 != r.pairs@[j2].0 && r.pairs@[j1].1@ != r.pairs@[j2].1@);
    }
}

} // verus!
