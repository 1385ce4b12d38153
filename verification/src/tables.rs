//! The open-handle tables.
//!
//! A directory handle owns a snapshot of the directory's contents captured at
//! `opendir` time; a file handle owns the body captured at `open` time. A
//! handle is alive from the reply that issued it until the matching release;
//! snapshots are never shared between handles, even for the same inode.

use vstd::prelude::*;

use crate::bytes::clone_bytes;

verus! {

/// One row of a directory snapshot: a child name, its inode, and its
/// directory-entry type byte (`DT_DIR` or `DT_REG`).
pub struct DirEntry {
    pub name: Vec<u8>,
    pub ino: u64,
    pub dtype: u32,
}

/// Specification-level value of a [`DirEntry`].
pub struct DirEntryModel {
    pub name: Seq<u8>,
    pub ino: u64,
    pub dtype: u32,
}

impl View for DirEntry {
    type V = DirEntryModel;

    open spec fn view(&self) -> DirEntryModel {
        DirEntryModel { name: self.name@, ino: self.ino, dtype: self.dtype }
    }
}

/// The value of a directory snapshot: the sequence of its rows' values.
pub open spec fn stream_view(v: Seq<DirEntry>) -> Seq<DirEntryModel> {
    v.map_values(|d: DirEntry| d@)
}

/// Copies one directory-snapshot row.
pub fn clone_dir_entry(d: &DirEntry) -> (r: DirEntry)
    ensures
        r@ == d@,
{
    DirEntry { name: clone_bytes(&d.name), ino: d.ino, dtype: d.dtype }
}

/// Copies a directory snapshot.
pub fn clone_dir_entries(v: &Vec<DirEntry>) -> (r: Vec<DirEntry>)
    ensures
        stream_view(r@) == stream_view(v@),
{
    let mut out: Vec<DirEntry> = Vec::new();
    let mut i: usize = 0;
    while i < v.len()
        invariant
            i <= v@.len(),
            out@.len() == i,
            forall|j: int| 0 <= j < i ==> (#[trigger] out@[j])@ == v@[j]@,
        decreases v@.len() - i,
    {
        out.push(clone_dir_entry(&v[i]));
        i = i + 1;
    }
    proof {
        assert(stream_view(out@) =~= stream_view(v@));
    }
    out
}

/// The table of open directory handles.
pub struct DirTable {
    /// Handle/snapshot rows; the handles are unique across the vector.
    pub items: Vec<(u64, Vec<DirEntry>)>,
}

/// The table of open file handles.
pub struct FileTable {
    /// Handle/body rows; the handles are unique across the vector.
    pub items: Vec<(u64, Vec<u8>)>,
}

impl DirTable {
    /// Handle `fh` is open and owns a snapshot whose value is `s`.
    pub open spec fn maps(self, fh: u64, s: Seq<DirEntryModel>) -> bool {
        exists|i: int|
            0 <= i < self.items@.len() && (#[trigger] self.items@[i]).0 == fh && stream_view(
                self.items@[i].1@,
            ) == s
    }

    /// Handle `fh` is open.
    pub open spec fn has(self, fh: u64) -> bool {
        exists|i: int| 0 <= i < self.items@.len() && (#[trigger] self.items@[i]).0 == fh
    }

    /// Every open handle lies below `bound`.
    pub open spec fn all_below(self, bound: u64) -> bool {
        forall|i: int| 0 <= i < self.items@.len() ==> (#[trigger] self.items@[i]).0 < bound
    }

    /// Handles are unique across the table.
    pub open spec fn wf(self) -> bool {
        forall|i: int, j: int|
            0 <= i < j < self.items@.len() ==> (#[trigger] self.items@[i]).0 != (
            #[trigger] self.items@[j]).0
    }

    /// An empty table.
    pub fn new() -> (r: DirTable)
        ensures
            r.wf(),
            forall|fh: u64| !r.has(fh),
            forall|b: u64| r.all_below(b),
    {
        DirTable { items: Vec::new() }
    }

    /// Stores the snapshot `v` under the fresh handle `fh`.
    pub fn insert(&mut self, fh: u64, v: Vec<DirEntry>)
        requires
            old(self).wf(),
            !old(self).has(fh),
        ensures
            final(self).wf(),
            final(self).maps(fh, stream_view(v@)),
            final(self).has(fh),
            forall|k: u64| k != fh ==> (final(self).has(k) <==> old(self).has(k)),
            forall|k: u64, s: Seq<DirEntryModel>|
                k != fh ==> (final(self).maps(k, s) <==> old(self).maps(k, s)),
            forall|s: Seq<DirEntryModel>|
                final(self).maps(fh, s) ==> s == stream_view(v@),
            forall|b: u64| old(self).all_below(b) && fh < b ==> final(self).all_below(b),
    {
        self.items.push((fh, v));
        proof {
            let n = self.items@.len() - 1;
            assert(self.items@[n].0 == fh);
            assert(forall|j: int|
                0 <= j < n ==> (#[trigger] self.items@[j]) == old(self).items@[j]);
            assert forall|k: u64, s: Seq<DirEntryModel>|
                k != fh && old(self).maps(k, s) implies final(self).maps(k, s) by {
                let j = choose|j: int|
                    0 <= j < old(self).items@.len() && (#[trigger] old(self).items@[j]).0 == k
                        && stream_view(old(self).items@[j].1@) == s;
                assert(self.items@[j].0 == k && stream_view(self.items@[j].1@) == s);
            }
            assert forall|k: u64| k != fh && old(self).has(k) implies final(self).has(k) by {
                let j = choose|j: int|
                    0 <= j < old(self).items@.len() && (#[trigger] old(self).items@[j]).0 == k;
                assert(self.items@[j].0 == k);
            }
        }
    }

    /// Returns a copy of the snapshot owned by `fh`, if `fh` is open.
    pub fn get_stream(&self, fh: u64) -> (r: Option<Vec<DirEntry>>)
        ensures
            match r {
                Some(v) => self.maps(fh, stream_view(v@)),
                None => !self.has(fh),
            },
    {
        let mut i: usize = 0;
        while i < self.items.len()
            invariant
                i <= self.items@.len(),
                forall|j: int| 0 <= j < i ==> (#[trigger] self.items@[j]).0 != fh,
            decreases self.items@.len() - i,
        {
            if self.items[i].0 == fh {
                return Some(clone_dir_entries(&self.items[i].1));
            }
            i = i + 1;
        }
        None
    }

    /// Closes `fh`, dropping its snapshot. Returns whether `fh` was open.
    pub fn remove(&mut self, fh: u64) -> (r: bool)
        requires
            old(self).wf(),
        ensures
            final(self).wf(),
            r == old(self).has(fh),
            !final(self).has(fh),
            forall|k: u64| k != fh ==> (final(self).has(k) <==> old(self).has(k)),
            forall|k: u64, s: Seq<DirEntryModel>|
                k != fh ==> (final(self).maps(k, s) <==> old(self).maps(k, s)),
            forall|b: u64| old(self).all_below(b) ==> final(self).all_below(b),
    {
        let mut i: usize = 0;
        while i < self.items.len()
            invariant
                *self == *old(self),
                old(self).wf(),
                i <= self.items@.len(),
                forall|j: int| 0 <= j < i ==> (#[trigger] self.items@[j]).0 != fh,
            decreases self.items@.len() - i,
        {
            if self.items[i].0 == fh {
                self.items.remove(i);
                proof {
                    let pre = old(self).items@;
                    let post = self.items@;
                    assert(post =~= pre.subrange(0, i as int) + pre.subrange(
                        i + 1,
                        pre.len() as int,
                    ));
                    assert(forall|j: int| 0 <= j < i ==> post[j] == pre[j]);
                    assert(forall|j: int|
                        i <= j < post.len() ==> (#[trigger] post[j]) == pre[j + 1]);
                    assert forall|k: u64, s: Seq<DirEntryModel>|
                        k != fh && old(self).maps(k, s) implies final(self).maps(k, s) by {
                        let j = choose|j: int|
                            0 <= j < pre.len() && (#[trigger] pre[j]).0 == k && stream_view(
                                pre[j].1@,
                            ) == s;
                        if j < i as int {
                            assert(post[j].0 == k && stream_view(post[j].1@) == s);
                        } else {
                            assert(post[j - 1].0 == k && stream_view(post[j - 1].1@) == s);
                        }
                    }
                    assert forall|k: u64| k != fh && old(self).has(k) implies final(self).has(
                        k,
                    ) by {
                        let j = choose|j: int|
                            0 <= j < pre.len() && (#[trigger] pre[j]).0 == k;
                        if j < i as int {
                            assert(post[j].0 == k);
                        } else {
                            assert(post[j - 1].0 == k);
                        }
                    }
                    assert forall|k: u64| final(self).has(k) implies old(self).has(k) by {
                        let j = choose|j: int|
                            0 <= j < post.len() && (#[trigger] post[j]).0 == k;
                        if j < i as int {
                            assert(pre[j].0 == k);
                        } else {
                            assert(pre[j + 1].0 == k);
                        }
                    }
                    assert forall|k: u64, s: Seq<DirEntryModel>|
                        k != fh && final(self).maps(k, s) implies old(self).maps(k, s) by {
                        let j = choose|j: int|
                            0 <= j < post.len() && (#[trigger] post[j]).0 == k && stream_view(
                                post[j].1@,
                            ) == s;
                        if j < i as int {
                            assert(pre[j].0 == k && stream_view(pre[j].1@) == s);
                        } else {
                            assert(pre[j + 1].0 == k && stream_view(pre[j + 1].1@) == s);
                        }
                    }
                    assert(!final(self).has(fh)) by {
                        if final(self).has(fh) {
                            let j = choose|j: int|
                                0 <= j < post.len() && (#[trigger] post[j]).0 == fh;
                            if j < i as int {
                                assert(pre[j].0 == fh);
                            } else {
                                assert(pre[j + 1].0 == fh);
                                assert(pre[i as int].0 == fh);
                            }
                        }
                    }
                }
                return true;
            }
            i = i + 1;
        }
        false
    }
}

impl FileTable {
    /// Handle `fh` is open and owns a body whose value is `b`.
    pub open spec fn maps(self, fh: u64, b: Seq<u8>) -> bool {
        exists|i: int|
            0 <= i < self.items@.len() && (#[trigger] self.items@[i]).0 == fh && self.items@[i].1@
                == b
    }

    /// Handle `fh` is open.
    pub open spec fn has(self, fh: u64) -> bool {
        exists|i: int| 0 <= i < self.items@.len() && (#[trigger] self.items@[i]).0 == fh
    }

    /// Every open handle lies below `bound`.
    pub open spec fn all_below(self, bound: u64) -> bool {
        forall|i: int| 0 <= i < self.items@.len() ==> (#[trigger] self.items@[i]).0 < bound
    }

    /// Handles are unique across the table.
    pub open spec fn wf(self) -> bool {
        forall|i: int, j: int|
            0 <= i < j < self.items@.len() ==> (#[trigger] self.items@[i]).0 != (
            #[trigger] self.items@[j]).0
    }

    /// An empty table.
    pub fn new() -> (r: FileTable)
        ensures
            r.wf(),
            forall|fh: u64| !r.has(fh),
            forall|b: u64| r.all_below(b),
    {
        FileTable { items: Vec::new() }
    }

    /// Stores the body `v` under the fresh handle `fh`.
    pub fn insert(&mut self, fh: u64, v: Vec<u8>)
        requires
            old(self).wf(),
            !old(self).has(fh),
        ensures
            final(self).wf(),
            final(self).maps(fh, v@),
            final(self).has(fh),
            forall|k: u64| k != fh ==> (final(self).has(k) <==> old(self).has(k)),
            forall|k: u64, s: Seq<u8>| k != fh ==> (final(self).maps(k, s) <==> old(self).maps(k, s)),
            forall|s: Seq<u8>| final(self).maps(fh, s) ==> s == v@,
            forall|b: u64| old(self).all_below(b) && fh < b ==> final(self).all_below(b),
    {
        self.items.push((fh, v));
        proof {
            let n = self.items@.len() - 1;
            assert(self.items@[n].0 == fh);
            assert(forall|j: int|
                0 <= j < n ==> (#[trigger] self.items@[j]) == old(self).items@[j]);
            assert forall|k: u64, s: Seq<u8>|
                k != fh && old(self).maps(k, s) implies final(self).maps(k, s) by {
                let j = choose|j: int|
                    0 <= j < old(self).items@.len() && (#[trigger] old(self).items@[j]).0 == k
                        && old(self).items@[j].1@ == s;
                assert(self.items@[j].0 == k && self.items@[j].1@ == s);
            }
            assert forall|k: u64| k != fh && old(self).has(k) implies final(self).has(k) by {
                let j = choose|j: int|
                    0 <= j < old(self).items@.len() && (#[trigger] old(self).items@[j]).0 == k;
                assert(self.items@[j].0 == k);
            }
        }
    }

    /// Returns a copy of the body owned by `fh`, if `fh` is open.
    pub fn get_body(&self, fh: u64) -> (r: Option<Vec<u8>>)
        ensures
            match r {
                Some(v) => self.maps(fh, v@),
                None => !self.has(fh),
            },
    {
        let mut i: usize = 0;
        while i < self.items.len()
            invariant
                i <= self.items@.len(),
                forall|j: int| 0 <= j < i ==> (#[trigger] self.items@[j]).0 != fh,
            decreases self.items@.len() - i,
        {
            if self.items[i].0 == fh {
                return Some(clone_bytes(&self.items[i].1));
            }
            i = i + 1;
        }
        None
    }

    /// Closes `fh`, dropping its body. Returns whether `fh` was open.
    pub fn remove(&mut self, fh: u64) -> (r: bool)
        requires
            old(self).wf(),
        ensures
            final(self).wf(),
            r == old(self).has(fh),
            !final(self).has(fh),
            forall|k: u64| k != fh ==> (final(self).has(k) <==> old(self).has(k)),
            forall|k: u64, s: Seq<u8>| k != fh ==> (final(self).maps(k, s) <==> old(self).maps(k, s)),
            forall|b: u64| old(self).all_below(b) ==> final(self).all_below(b),
    {
        let mut i: usize = 0;
        while i < self.items.len()
            invariant
                *self == *old(self),
                old(self).wf(),
                i <= self.items@.len(),
                forall|j: int| 0 <= j < i ==> (#[trigger] self.items@[j]).0 != fh,
            decreases self.items@.len() - i,
        {
            if self.items[i].0 == fh {
                self.items.remove(i);
                proof {
                    let pre = old(self).items@;
                    let post = self.items@;
                    assert(post =~= pre.subrange(0, i as int) + pre.subrange(
                        i + 1,
                        pre.len() as int,
                    ));
                    assert(forall|j: int| 0 <= j < i ==> post[j] == pre[j]);
                    assert(forall|j: int|
                        i <= j < post.len() ==> (#[trigger] post[j]) == pre[j + 1]);
                    assert forall|k: u64, s: Seq<u8>|
                        k != fh && old(self).maps(k, s) implies final(self).maps(k, s) by {
                        let j = choose|j: int|
                            0 <= j < pre.len() && (#[trigger] pre[j]).0 == k && pre[j].1@ == s;
                        if j < i as int {
                            assert(post[j].0 == k && post[j].1@ == s);
                        } else {
                            assert(post[j - 1].0 == k && post[j - 1].1@ == s);
                        }
                    }
                    assert forall|k: u64| k != fh && old(self).has(k) implies final(self).has(
                        k,
                    ) by {
                        let j = choose|j: int|
                            0 <= j < pre.len() && (#[trigger] pre[j]).0 == k;
                        if j < i as int {
                            assert(post[j].0 == k);
                        } else {
                            assert(post[j - 1].0 == k);
                        }
                    }
                    assert forall|k: u64| final(self).has(k) implies old(self).has(k) by {
                        let j = choose|j: int|
                            0 <= j < post.len() && (#[trigger] post[j]).0 == k;
                        if j < i as int {
                            assert(pre[j].0 == k);
                        } else {
                            assert(pre[j + 1].0 == k);
                        }
                    }
                    assert forall|k: u64, s: Seq<u8>|
                        k != fh && final(self).maps(k, s) implies old(self).maps(k, s) by {
                        let j = choose|j: int|
                            0 <= j < post.len() && (#[trigger] post[j]).0 == k && post[j].1@ == s;
                        if j < i as int {
                            assert(pre[j].0 == k && pre[j].1@ == s);
                        } else {
                            assert(pre[j + 1].0 == k && pre[j + 1].1@ == s);
                        }
                    }
                    assert(!final(self).has(fh)) by {
                        if final(self).has(fh) {
                            let j = choose|j: int|
                                0 <= j < post.len() && (#[trigger] post[j]).0 == fh;
                            if j < i as int {
                                assert(pre[j].0 == fh);
                            } else {
                                assert(pre[j + 1].0 == fh);
                                assert(pre[i as int].0 == fh);
                            }
                        }
                    }
                }
                return true;
            }
            i = i + 1;
        }
        false
    }
}

/// A directory handle owns exactly one snapshot.
pub proof fn lemma_dir_stream_unique(
    t: DirTable,
    fh: u64,
    s1: Seq<DirEntryModel>,
    s2: Seq<DirEntryModel>,
)
    requires
        t.wf(),
        t.maps(fh, s1),
        t.maps(fh, s2),
    ensures
        s1 == s2,
{
    let i1 = choose|i: int|
        0 <= i < t.items@.len() && (#[trigger] t.items@[i]).0 == fh && stream_view(t.items@[i].1@)
            == s1;
    let i2 = choose|i: int|
        0 <= i < t.items@.len() && (#[trigger] t.items@[i]).0 == fh && stream_view(t.items@[i].1@)
            == s2;
    if i1 != i2 {
        assert(t.items@[i1].0 != t.items@[i2].0 || t.items@[i2].0 != t.items@[i1].0);
    }
}

/// A file handle owns exactly one body.
pub proof fn lemma_file_body_unique(t: FileTable, fh: u64, b1: Seq<u8>, b2: Seq<u8>)
    requires
        t.wf(),
        t.maps(fh, b1),
        t.maps(fh, b2),
    ensures
        b1 == b2,
{
    let i1 = choose|i: int|
        0 <= i < t.items@.len() && (#[trigger] t.items@[i]).0 == fh && t.items@[i].1@ == b1;
    let i2 = choose|i: int|
        0 <= i < t.items@.len() && (#[trigger] t.items@[i]).0 == fh && t.items@[i].1@ == b2;
    if i1 != i2 {
        assert(t.items@[i1].0 != t.items@[i2].0 || t.items@[i2].0 != t.items@[i1].0);
    }
}

} // verus!
