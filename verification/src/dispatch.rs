//! The operation dispatcher: one request in, exactly one outcome out.
//!
//! [`step`] decodes nothing and performs no I/O: it takes one typed
//! [`Request`], consults and updates the filesystem state, and either
//! finishes with a [`Reply`] or asks the embedding program to perform one
//! cluster [`Query`]. The program performs the query and hands its result to
//! [`resume`], which may ask for one more query (a `_/` listing covers two
//! kinds) and otherwise finishes. Every request thus receives exactly one
//! reply, and every verified path is panic-free.

use vstd::prelude::*;

use crate::bytes::{bytes_eq, clone_bytes};
use crate::entry::{
    is_kind_no, is_kind_ns, is_kind_po, kind_no, kind_ns, kind_po, parse_object_name,
    parse_object_name_bytes, Entry, EntryModel, B_DOT, B_N, B_O, B_P, B_S, B_UNDERSCORE,
};
use crate::registry::{lemma_bijection, Registry, FH_START, INO_ALLOC_START, INO_FREESTANDING,
    INO_ROOT};
use crate::tables::{stream_view, DirEntry, DirEntryModel, DirTable, FileTable};
use crate::wire::{
    attr_of, fill_dir_entries, fill_window, make_attr, make_ttl, read_slice, read_window, ttl_of,
    Attr, Errno, Pending, Query, QueryResult, Reply, Request, Step, DT_DIR, DT_REG, MODE_DIR,
    TTL_LONG_SECS, TTL_SHORT_SECS,
};

verus! {

/// The whole mutable state of the filesystem core: the inode registry (with
/// its two counters) and the two open-handle tables, plus the owner identity
/// stamped on every attribute reply.
pub struct FsState {
    pub registry: Registry,
    pub dirs: DirTable,
    pub files: FileTable,
    /// Owner uid captured at startup.
    pub uid: u32,
    /// Owner gid captured at startup.
    pub gid: u32,
}

impl FsState {
    /// Well-formedness: the registry is bijective, handles are unique in
    /// each table, and every open handle lies below the handle counter (so a
    /// freshly issued handle is never in use).
    pub open spec fn wf(self) -> bool {
        &&& self.registry.wf()
        &&& self.dirs.wf()
        &&& self.files.wf()
        &&& self.dirs.all_below(self.registry.next_fh)
        &&& self.files.all_below(self.registry.next_fh)
    }

    /// The state at mount time: root and `_/` bound, no open handles.
    pub fn new(uid: u32, gid: u32) -> (r: FsState)
        ensures
            r.wf(),
            r.uid == uid,
            r.gid == gid,
            r.registry.maps(INO_ROOT, EntryModel::Mountpoint),
            r.registry.maps(INO_FREESTANDING, EntryModel::FreestandingDir),
            forall|ino: u64, e: EntryModel|
                r.registry.maps(ino, e) ==> (ino == INO_ROOT && e == EntryModel::Mountpoint) || (
                ino == INO_FREESTANDING && e == EntryModel::FreestandingDir),
            forall|fh: u64| !r.dirs.has(fh) && !r.files.has(fh),
            r.registry.next_ino == INO_ALLOC_START,
            r.registry.next_fh == FH_START,
    {
        FsState {
            registry: Registry::new(),
            dirs: DirTable::new(),
            files: FileTable::new(),
            uid,
            gid,
        }
    }
}

/// The name `.`.
pub open spec fn dot_name() -> Seq<u8> {
    seq![B_DOT]
}

/// The name `..`.
pub open spec fn dotdot_name() -> Seq<u8> {
    seq![B_DOT, B_DOT]
}

/// The fixed head of the root snapshot: `.`, `..` (both the root itself) and
/// the freestanding directory `_`.
pub open spec fn root_acc() -> Seq<DirEntryModel> {
    seq![
        DirEntryModel { name: dot_name(), ino: INO_ROOT, dtype: DT_DIR },
        DirEntryModel { name: dotdot_name(), ino: INO_ROOT, dtype: DT_DIR },
        DirEntryModel { name: seq![B_UNDERSCORE], ino: INO_FREESTANDING, dtype: DT_DIR },
    ]
}

/// The fixed head of every non-root snapshot: `.` (the directory itself) and
/// `..` (the root).
pub open spec fn sub_acc(ino: u64) -> Seq<DirEntryModel> {
    seq![
        DirEntryModel { name: dot_name(), ino, dtype: DT_DIR },
        DirEntryModel { name: dotdot_name(), ino: INO_ROOT, dtype: DT_DIR },
    ]
}

/// What a `getattr` does: attributes with the entry's TTL for a known inode,
/// `EINVAL` for an unknown one. The state is untouched.
pub open spec fn getattr_outcome(pre: FsState, ino: u64, r: Step) -> bool {
    &&& (!pre.registry.has_ino(ino) ==> (r matches Step::Done {
        reply: Reply::Error { errno },
    } && errno == Errno::Einval))
    &&& forall|e: EntryModel|
        #[trigger] pre.registry.maps(ino, e) ==> (r matches Step::Done {
            reply: Reply::Attr { attr, ttl_secs },
        } && attr == attr_of(e, ino, pre.uid, pre.gid) && ttl_secs == ttl_of(e))
}

/// What a `lookup` does, by the kind of the parent entry.
pub open spec fn lookup_outcome(pre: FsState, parent: u64, name: Seq<u8>, r: Step) -> bool {
    &&& (!pre.registry.has_ino(parent) ==> (r matches Step::Done {
        reply: Reply::Error { errno },
    } && errno == Errno::Einval))
    &&& forall|p: EntryModel|
        #[trigger] pre.registry.maps(parent, p) ==> match p {
            EntryModel::Mountpoint => {
                if name == seq![B_UNDERSCORE] {
                    r matches Step::Done { reply: Reply::Entry { ino, attr, ttl_secs } } && ino
                        == INO_FREESTANDING && attr == attr_of(
                        EntryModel::FreestandingDir,
                        INO_FREESTANDING,
                        pre.uid,
                        pre.gid,
                    ) && ttl_secs == TTL_LONG_SECS
                } else {
                    lookup_candidate_outcome(pre, EntryModel::NamespaceDir { name }, r)
                }
            },
            EntryModel::FreestandingDir => match parse_object_name(name) {
                Some(nk) => if crate::entry::is_cluster_scoped_kind(nk.1) {
                    lookup_candidate_outcome(
                        pre,
                        EntryModel::ObjectFreestanding { name: nk.0, kind: nk.1 },
                        r,
                    )
                } else {
                    r matches Step::Done { reply: Reply::Error { errno } } && errno
                        == Errno::Enoent
                },
                None => r matches Step::Done { reply: Reply::Error { errno } } && errno
                    == Errno::Enoent,
            },
            EntryModel::NamespaceDir { name: ns } => match parse_object_name(name) {
                Some(nk) => if crate::entry::is_namespaced_kind(nk.1) {
                    lookup_candidate_outcome(
                        pre,
                        EntryModel::ObjectNamespaced { namespace: ns, name: nk.0, kind: nk.1 },
                        r,
                    )
                } else {
                    r matches Step::Done { reply: Reply::Error { errno } } && errno
                        == Errno::Enoent
                },
                None => r matches Step::Done { reply: Reply::Error { errno } } && errno
                    == Errno::Enoent,
            },
            _ => r matches Step::Done { reply: Reply::Error { errno } } && errno == Errno::Enotdir,
        }
}

/// A `lookup` whose name parses to the candidate entry `cand`: an entry
/// already interned is replied at once with short TTLs; an unknown one turns
/// into the cluster query that could discover it.
pub open spec fn lookup_candidate_outcome(pre: FsState, cand: EntryModel, r: Step) -> bool {
    if pre.registry.has_entry(cand) {
        forall|i0: u64|
            #[trigger] pre.registry.maps(i0, cand) ==> (r matches Step::Done {
                reply: Reply::Entry { ino, attr, ttl_secs },
            } && ino == i0 && attr == attr_of(cand, i0, pre.uid, pre.gid) && ttl_secs
                == TTL_SHORT_SECS)
    } else {
        match cand {
            EntryModel::NamespaceDir { name } => r matches Step::Need {
                query: Query::ListNamespaces,
                pending: Pending::LookupNamespace { name: n2 },
            } && n2@ == name,
            EntryModel::ObjectFreestanding { name, kind } => r matches Step::Need {
                query: Query::ListClusterScoped { kind: qk },
                pending: Pending::LookupFreestanding { name: n2, kind: k2 },
            } && qk@ == kind && n2@ == name && k2@ == kind,
            EntryModel::ObjectNamespaced { namespace, name, kind } => r matches Step::Need {
                query: Query::ListNamespaced { namespace: qns, kind: qk },
                pending: Pending::LookupNamespaced { namespace: s2, name: n2, kind: k2 },
            } && qns@ == namespace && qk@ == kind && s2@ == namespace && n2@ == name && k2@
                == kind,
            _ => false,
        }
    }
}

/// What an `opendir` does: errors for unknown inodes and files, otherwise
/// the listing query for the directory's first kind, with the fixed `.`/`..`
/// head already in the snapshot accumulator.
pub open spec fn opendir_outcome(pre: FsState, ino: u64, r: Step) -> bool {
    &&& (!pre.registry.has_ino(ino) ==> (r matches Step::Done {
        reply: Reply::Error { errno },
    } && errno == Errno::Enoent))
    &&& forall|e: EntryModel|
        #[trigger] pre.registry.maps(ino, e) ==> match e {
            EntryModel::Mountpoint => r matches Step::Need {
                query: Query::ListNamespaces,
                pending: Pending::Opendir { ino: i2, acc, kind_idx },
            } && i2 == ino && stream_view(acc@) == root_acc() && kind_idx == 0,
            EntryModel::FreestandingDir => r matches Step::Need {
                query: Query::ListClusterScoped { kind },
                pending: Pending::Opendir { ino: i2, acc, kind_idx },
            } && kind@ == kind_ns() && i2 == ino && stream_view(acc@) == sub_acc(ino) && kind_idx
                == 0,
            EntryModel::NamespaceDir { name: ns } => r matches Step::Need {
                query: Query::ListNamespaced { namespace, kind },
                pending: Pending::Opendir { ino: i2, acc, kind_idx },
            } && namespace@ == ns && kind@ == kind_po() && i2 == ino && stream_view(acc@)
                == sub_acc(ino) && kind_idx == 0,
            _ => r matches Step::Done { reply: Reply::Error { errno } } && errno == Errno::Enotdir,
        }
}

/// What a `readdir` does: `ENOSYS` for readdirplus and for unknown handles
/// (the kernel should not have issued either), otherwise one page of the
/// handle's snapshot. The state is untouched.
pub open spec fn readdir_outcome(
    pre: FsState,
    fh: u64,
    offset: u64,
    size: u32,
    plus: bool,
    r: Step,
) -> bool {
    if plus {
        r matches Step::Done { reply: Reply::Error { errno } } && errno == Errno::Enosys
    } else {
        &&& (!pre.dirs.has(fh) ==> (r matches Step::Done { reply: Reply::Error { errno } }
            && errno == Errno::Enosys))
        &&& forall|st: Seq<DirEntryModel>|
            #[trigger] pre.dirs.maps(fh, st) ==> (r matches Step::Done {
                reply: Reply::Dir { entries },
            } && crate::wire::page_view(entries@) == fill_window(st, offset as int, size as int))
    }
}

/// What a `releasedir` does: drops the handle's snapshot and replies with an
/// empty reply; a second release of the same handle gets `EBADF`. Other
/// handles and the rest of the state are untouched.
pub open spec fn releasedir_outcome(pre: FsState, post: FsState, fh: u64, r: Step) -> bool {
    &&& post.registry == pre.registry
    &&& post.files == pre.files
    &&& post.uid == pre.uid && post.gid == pre.gid
    &&& !post.dirs.has(fh)
    &&& forall|k: u64| k != fh ==> (post.dirs.has(k) <==> pre.dirs.has(k))
    &&& forall|k: u64, st: Seq<DirEntryModel>|
        k != fh ==> (post.dirs.maps(k, st) <==> pre.dirs.maps(k, st))
    &&& (pre.dirs.has(fh) ==> r matches Step::Done { reply: Reply::Empty })
    &&& (!pre.dirs.has(fh) ==> (r matches Step::Done { reply: Reply::Error { errno } } && errno
        == Errno::Ebadf))
}

/// What an `open` does: errors for unknown inodes, directories and write
/// attempts, otherwise the fetch query for the object's body.
pub open spec fn open_outcome(pre: FsState, ino: u64, write: bool, r: Step) -> bool {
    &&& (!pre.registry.has_ino(ino) ==> (r matches Step::Done {
        reply: Reply::Error { errno },
    } && errno == Errno::Enoent))
    &&& forall|e: EntryModel|
        #[trigger] pre.registry.maps(ino, e) ==> {
            if e.is_dir() {
                r matches Step::Done { reply: Reply::Error { errno } } && errno == Errno::Eisdir
            } else if write {
                r matches Step::Done { reply: Reply::Error { errno } } && errno == Errno::Erofs
            } else {
                match e {
                    EntryModel::ObjectFreestanding { name, kind } => r matches Step::Need {
                        query: Query::GetObject { namespace: qns, kind: qk, name: qn },
                        pending: Pending::Open,
                    } && qns is None && qk@ == kind && qn@ == name,
                    EntryModel::ObjectNamespaced { namespace, name, kind } => r
                        matches Step::Need {
                        query: Query::GetObject { namespace: qns, kind: qk, name: qn },
                        pending: Pending::Open,
                    } && (qns matches Some(nsv) && nsv@ == namespace) && qk@ == kind && qn@
                        == name,
                    _ => true,
                }
            }
        }
}

/// What a `read` does: the clamped window of the handle's body (zero bytes
/// at or past the end), `EINVAL` for an unknown handle. The state is
/// untouched.
pub open spec fn read_outcome(pre: FsState, fh: u64, offset: u64, size: u32, r: Step) -> bool {
    &&& (!pre.files.has(fh) ==> (r matches Step::Done { reply: Reply::Error { errno } } && errno
        == Errno::Einval))
    &&& forall|b: Seq<u8>|
        #[trigger] pre.files.maps(fh, b) ==> (r matches Step::Done {
            reply: Reply::Data { bytes },
        } && bytes@ == read_window(b, offset, size))
}

/// What a `release` does: drops the handle's body and replies with an empty
/// reply; an unknown handle gets `EINVAL`. Other handles and the rest of the
/// state are untouched.
pub open spec fn release_outcome(pre: FsState, post: FsState, fh: u64, r: Step) -> bool {
    &&& post.registry == pre.registry
    &&& post.dirs == pre.dirs
    &&& post.uid == pre.uid && post.gid == pre.gid
    &&& !post.files.has(fh)
    &&& forall|k: u64| k != fh ==> (post.files.has(k) <==> pre.files.has(k))
    &&& forall|k: u64, b: Seq<u8>| k != fh ==> (post.files.maps(k, b) <==> pre.files.maps(k, b))
    &&& (pre.files.has(fh) ==> r matches Step::Done { reply: Reply::Empty })
    &&& (!pre.files.has(fh) ==> (r matches Step::Done { reply: Reply::Error { errno } } && errno
        == Errno::Einval))
}

/// Builds the name `.`.
fn dot_vec() -> (v: Vec<u8>)
    ensures
        v@ == dot_name(),
{
    let mut v: Vec<u8> = Vec::new();
    v.push(B_DOT);
    proof {
        assert(v@ =~= dot_name());
    }
    v
}

/// Builds the name `..`.
fn dotdot_vec() -> (v: Vec<u8>)
    ensures
        v@ == dotdot_name(),
{
    let mut v: Vec<u8> = Vec::new();
    v.push(B_DOT);
    v.push(B_DOT);
    proof {
        assert(v@ =~= dotdot_name());
    }
    v
}

/// Builds the name `_`.
fn underscore_vec() -> (v: Vec<u8>)
    ensures
        v@ == seq![B_UNDERSCORE],
{
    let mut v: Vec<u8> = Vec::new();
    v.push(B_UNDERSCORE);
    proof {
        assert(v@ =~= seq![B_UNDERSCORE]);
    }
    v
}

/// Builds the fixed head of the root snapshot.
fn build_root_acc() -> (v: Vec<DirEntry>)
    ensures
        stream_view(v@) == root_acc(),
{
    let mut v: Vec<DirEntry> = Vec::new();
    v.push(DirEntry { name: dot_vec(), ino: INO_ROOT, dtype: DT_DIR });
    v.push(DirEntry { name: dotdot_vec(), ino: INO_ROOT, dtype: DT_DIR });
    v.push(DirEntry { name: underscore_vec(), ino: INO_FREESTANDING, dtype: DT_DIR });
    proof {
        assert(stream_view(v@).len() == 3);
        assert(stream_view(v@)[0] == root_acc()[0]);
        assert(stream_view(v@)[1] == root_acc()[1]);
        assert(stream_view(v@)[2] == root_acc()[2]);
        assert(stream_view(v@) =~= root_acc());
    }
    v
}

/// Builds the fixed head of a non-root snapshot.
fn build_sub_acc(ino: u64) -> (v: Vec<DirEntry>)
    ensures
        stream_view(v@) == sub_acc(ino),
{
    let mut v: Vec<DirEntry> = Vec::new();
    v.push(DirEntry { name: dot_vec(), ino, dtype: DT_DIR });
    v.push(DirEntry { name: dotdot_vec(), ino: INO_ROOT, dtype: DT_DIR });
    proof {
        assert(stream_view(v@).len() == 2);
        assert(stream_view(v@)[0] == sub_acc(ino)[0]);
        assert(stream_view(v@)[1] == sub_acc(ino)[1]);
        assert(stream_view(v@) =~= sub_acc(ino));
    }
    v
}

/// Dispatches one request. Either finishes with the reply to send, or hands
/// back the one cluster query to perform together with the continuation to
/// [`resume`] with. Exactly one outcome is produced per request.
pub fn step(s: &mut FsState, req: Request) -> (r: Step)
    requires
        old(s).wf(),
    ensures
        final(s).wf(),
        match req {
            Request::Getattr { ino } => *final(s) == *old(s) && getattr_outcome(*old(s), ino, r),
            Request::Lookup { parent, name } => *final(s) == *old(s) && lookup_outcome(
                *old(s),
                parent,
                name@,
                r,
            ),
            Request::Opendir { ino } => *final(s) == *old(s) && opendir_outcome(*old(s), ino, r),
            Request::Readdir { fh, offset, size, plus } => *final(s) == *old(s)
                && readdir_outcome(*old(s), fh, offset, size, plus, r),
            Request::Releasedir { fh } => releasedir_outcome(*old(s), *final(s), fh, r),
            Request::Open { ino, write } => *final(s) == *old(s) && open_outcome(
                *old(s),
                ino,
                write,
                r,
            ),
            Request::Read { fh, offset, size } => *final(s) == *old(s) && read_outcome(
                *old(s),
                fh,
                offset,
                size,
                r,
            ),
            Request::Release { fh } => release_outcome(*old(s), *final(s), fh, r),
            Request::Other => *final(s) == *old(s) && (r matches Step::Done {
                reply: Reply::Error { errno },
            } && errno == Errno::Enosys),
        },
{
    match req {
        Request::Getattr { ino } => do_getattr(s, ino),
        Request::Lookup { parent, name } => do_lookup(s, parent, name),
        Request::Opendir { ino } => do_opendir(s, ino),
        Request::Readdir { fh, offset, size, plus } => do_readdir(s, fh, offset, size, plus),
        Request::Releasedir { fh } => do_releasedir(s, fh),
        Request::Open { ino, write } => do_open(s, ino, write),
        Request::Read { fh, offset, size } => do_read(s, fh, offset, size),
        Request::Release { fh } => do_release(s, fh),
        Request::Other => Step::Done { reply: Reply::Error { errno: Errno::Enosys } },
    }
}

/// Serves `getattr`.
pub fn do_getattr(s: &mut FsState, ino: u64) -> (r: Step)
    requires
        old(s).wf(),
    ensures
        final(s).wf(),
        *final(s) == *old(s),
        getattr_outcome(*old(s), ino, r),
{
    match s.registry.entry_of(ino) {
        Some(e) => {
            let attr = make_attr(&e, ino, s.uid, s.gid);
            let ttl = make_ttl(&e);
            proof {
                assert forall|e2: EntryModel| old(s).registry.maps(ino, e2) implies e2 == e@ by {
                    lemma_bijection(old(s).registry, ino, e2, ino, e@);
                }
            }
            Step::Done { reply: Reply::Attr { attr, ttl_secs: ttl } }
        },
        None => Step::Done { reply: Reply::Error { errno: Errno::Einval } },
    }
}

/// Serves `lookup`.
pub fn do_lookup(s: &mut FsState, parent: u64, name: Vec<u8>) -> (r: Step)
    requires
        old(s).wf(),
    ensures
        final(s).wf(),
        *final(s) == *old(s),
        lookup_outcome(*old(s), parent, name@, r),
{
    let p = match s.registry.entry_of(parent) {
        Some(p) => p,
        None => {
            return Step::Done { reply: Reply::Error { errno: Errno::Einval } };
        },
    };
    proof {
        assert forall|p2: EntryModel| old(s).registry.maps(parent, p2) implies p2 == p@ by {
            lemma_bijection(old(s).registry, parent, p2, parent, p@);
        }
    }
    match p {
        Entry::Mountpoint => {
            if name.len() == 1 && name[0] == B_UNDERSCORE {
                proof {
                    assert(name@ =~= seq![B_UNDERSCORE]);
                }
                let attr = Attr {
                    ino: INO_FREESTANDING,
                    mode: MODE_DIR,
                    nlink: 2,
                    uid: s.uid,
                    gid: s.gid,
                    size: 0,
                };
                Step::Done {
                    reply: Reply::Entry { ino: INO_FREESTANDING, attr, ttl_secs: TTL_LONG_SECS },
                }
            } else {
                proof {
                    assert(name@ != seq![B_UNDERSCORE]) by {
                        if name@ == seq![B_UNDERSCORE] {
                            assert(name@.len() == 1);
                            assert(name@[0] == B_UNDERSCORE);
                        }
                    }
                }
                let cand = Entry::NamespaceDir { name: clone_bytes(&name) };
                lookup_candidate(s, cand, name)
            }
        },
        Entry::FreestandingDir => {
            match parse_object_name_bytes(&name) {
                Some((n, k)) => {
                    if is_kind_ns(&k) || is_kind_no(&k) {
                        let cand = Entry::ObjectFreestanding {
                            name: clone_bytes(&n),
                            kind: clone_bytes(&k),
                        };
                        lookup_candidate(s, cand, name)
                    } else {
                        Step::Done { reply: Reply::Error { errno: Errno::Enoent } }
                    }
                },
                None => Step::Done { reply: Reply::Error { errno: Errno::Enoent } },
            }
        },
        Entry::NamespaceDir { name: ns } => {
            match parse_object_name_bytes(&name) {
                Some((n, k)) => {
                    if is_kind_po(&k) {
                        let cand = Entry::ObjectNamespaced {
                            namespace: clone_bytes(&ns),
                            name: clone_bytes(&n),
                            kind: clone_bytes(&k),
                        };
                        lookup_candidate(s, cand, name)
                    } else {
                        Step::Done { reply: Reply::Error { errno: Errno::Enoent } }
                    }
                },
                None => Step::Done { reply: Reply::Error { errno: Errno::Enoent } },
            }
        },
        Entry::ObjectFreestanding { .. } => Step::Done {
            reply: Reply::Error { errno: Errno::Enotdir },
        },
        Entry::ObjectNamespaced { .. } => Step::Done {
            reply: Reply::Error { errno: Errno::Enotdir },
        },
    }
}

/// Replies a known candidate entry, or turns an unknown one into the query
/// that could discover it. `name` is the original looked-up child name, kept
/// for the continuation.
fn lookup_candidate(s: &mut FsState, cand: Entry, name: Vec<u8>) -> (r: Step)
    requires
        old(s).wf(),
        cand@ is NamespaceDir || cand@ is ObjectFreestanding || cand@ is ObjectNamespaced,
        (cand@ matches EntryModel::NamespaceDir { name: n } ==> n == name@),
    ensures
        final(s).wf(),
        *final(s) == *old(s),
        lookup_candidate_outcome(*old(s), cand@, r),
{
    match s.registry.inode_of(&cand) {
        Some(ino) => {
            let attr = make_attr(&cand, ino, s.uid, s.gid);
            proof {
                assert forall|i0: u64| old(s).registry.maps(i0, cand@) implies i0 == ino by {
                    lemma_bijection(old(s).registry, i0, cand@, ino, cand@);
                }
            }
            Step::Done { reply: Reply::Entry { ino, attr, ttl_secs: TTL_SHORT_SECS } }
        },
        None => {
            match cand {
                Entry::NamespaceDir { name: _n } => Step::Need {
                    query: Query::ListNamespaces,
                    pending: Pending::LookupNamespace { name },
                },
                Entry::ObjectFreestanding { name: n, kind: k } => Step::Need {
                    query: Query::ListClusterScoped { kind: clone_bytes(&k) },
                    pending: Pending::LookupFreestanding { name: n, kind: k },
                },
                Entry::ObjectNamespaced { namespace: ns, name: n, kind: k } => Step::Need {
                    query: Query::ListNamespaced {
                        namespace: clone_bytes(&ns),
                        kind: clone_bytes(&k),
                    },
                    pending: Pending::LookupNamespaced { namespace: ns, name: n, kind: k },
                },
                _ => {
                    proof {
                        assert(false);
                    }
                    Step::Done { reply: Reply::Error { errno: Errno::Eio } }
                },
            }
        },
    }
}

/// Serves `opendir`.
pub fn do_opendir(s: &mut FsState, ino: u64) -> (r: Step)
    requires
        old(s).wf(),
    ensures
        final(s).wf(),
        *final(s) == *old(s),
        opendir_outcome(*old(s), ino, r),
{
    let e = match s.registry.entry_of(ino) {
        Some(e) => e,
        None => {
            return Step::Done { reply: Reply::Error { errno: Errno::Enoent } };
        },
    };
    proof {
        assert forall|e2: EntryModel| old(s).registry.maps(ino, e2) implies e2 == e@ by {
            lemma_bijection(old(s).registry, ino, e2, ino, e@);
        }
    }
    match e {
        Entry::Mountpoint => Step::Need {
            query: Query::ListNamespaces,
            pending: Pending::Opendir { ino, acc: build_root_acc(), kind_idx: 0 },
        },
        Entry::FreestandingDir => Step::Need {
            query: Query::ListClusterScoped { kind: kind_ns_vec() },
            pending: Pending::Opendir { ino, acc: build_sub_acc(ino), kind_idx: 0 },
        },
        Entry::NamespaceDir { name: ns } => Step::Need {
            query: Query::ListNamespaced { namespace: ns, kind: kind_po_vec() },
            pending: Pending::Opendir { ino, acc: build_sub_acc(ino), kind_idx: 0 },
        },
        Entry::ObjectFreestanding { .. } => Step::Done {
            reply: Reply::Error { errno: Errno::Enotdir },
        },
        Entry::ObjectNamespaced { .. } => Step::Done {
            reply: Reply::Error { errno: Errno::Enotdir },
        },
    }
}

/// Serves `readdir`.
pub fn do_readdir(s: &mut FsState, fh: u64, offset: u64, size: u32, plus: bool) -> (r: Step)
    requires
        old(s).wf(),
    ensures
        final(s).wf(),
        *final(s) == *old(s),
        readdir_outcome(*old(s), fh, offset, size, plus, r),
{
    if plus {
        return Step::Done { reply: Reply::Error { errno: Errno::Enosys } };
    }
    match s.dirs.get_stream(fh) {
        Some(stream) => {
            let entries = fill_dir_entries(&stream, offset, size);
            proof {
                assert forall|st: Seq<DirEntryModel>| old(s).dirs.maps(fh, st) implies st
                    == stream_view(stream@) by {
                    crate::tables::lemma_dir_stream_unique(
                        old(s).dirs,
                        fh,
                        st,
                        stream_view(stream@),
                    );
                }
            }
            Step::Done { reply: Reply::Dir { entries } }
        },
        None => Step::Done { reply: Reply::Error { errno: Errno::Enosys } },
    }
}

/// Serves `releasedir`.
pub fn do_releasedir(s: &mut FsState, fh: u64) -> (r: Step)
    requires
        old(s).wf(),
    ensures
        final(s).wf(),
        releasedir_outcome(*old(s), *final(s), fh, r),
{
    if s.dirs.remove(fh) {
        Step::Done { reply: Reply::Empty }
    } else {
        Step::Done { reply: Reply::Error { errno: Errno::Ebadf } }
    }
}

/// Serves `open`.
pub fn do_open(s: &mut FsState, ino: u64, write: bool) -> (r: Step)
    requires
        old(s).wf(),
    ensures
        final(s).wf(),
        *final(s) == *old(s),
        open_outcome(*old(s), ino, write, r),
{
    let e = match s.registry.entry_of(ino) {
        Some(e) => e,
        None => {
            return Step::Done { reply: Reply::Error { errno: Errno::Enoent } };
        },
    };
    proof {
        assert forall|e2: EntryModel| old(s).registry.maps(ino, e2) implies e2 == e@ by {
            lemma_bijection(old(s).registry, ino, e2, ino, e@);
        }
    }
    if e.is_dir() {
        return Step::Done { reply: Reply::Error { errno: Errno::Eisdir } };
    }
    if write {
        return Step::Done { reply: Reply::Error { errno: Errno::Erofs } };
    }
    match e {
        Entry::ObjectFreestanding { name, kind } => Step::Need {
            query: Query::GetObject { namespace: None, kind, name },
            pending: Pending::Open,
        },
        Entry::ObjectNamespaced { namespace, name, kind } => Step::Need {
            query: Query::GetObject { namespace: Some(namespace), kind, name },
            pending: Pending::Open,
        },
        _ => {
            proof {
                assert(false);
            }
            Step::Done { reply: Reply::Error { errno: Errno::Eio } }
        },
    }
}

/// Serves `read`.
pub fn do_read(s: &mut FsState, fh: u64, offset: u64, size: u32) -> (r: Step)
    requires
        old(s).wf(),
    ensures
        final(s).wf(),
        *final(s) == *old(s),
        read_outcome(*old(s), fh, offset, size, r),
{
    match s.files.get_body(fh) {
        Some(body) => {
            let bytes = read_slice(&body, offset, size);
            proof {
                assert forall|b: Seq<u8>| old(s).files.maps(fh, b) implies b == body@ by {
                    crate::tables::lemma_file_body_unique(old(s).files, fh, b, body@);
                }
            }
            Step::Done { reply: Reply::Data { bytes } }
        },
        None => Step::Done { reply: Reply::Error { errno: Errno::Einval } },
    }
}

/// Serves `release`.
pub fn do_release(s: &mut FsState, fh: u64) -> (r: Step)
    requires
        old(s).wf(),
    ensures
        final(s).wf(),
        release_outcome(*old(s), *final(s), fh, r),
{
    if s.files.remove(fh) {
        Step::Done { reply: Reply::Empty }
    } else {
        Step::Done { reply: Reply::Error { errno: Errno::Einval } }
    }
}

/// Builds the Namespace short code.
pub fn kind_ns_vec() -> (v: Vec<u8>)
    ensures
        v@ == kind_ns(),
{
    let mut v: Vec<u8> = Vec::new();
    v.push(B_N);
    v.push(B_S);
    proof {
        assert(v@ =~= kind_ns());
    }
    v
}

/// Builds the Node short code.
pub fn kind_no_vec() -> (v: Vec<u8>)
    ensures
        v@ == kind_no(),
{
    let mut v: Vec<u8> = Vec::new();
    v.push(B_N);
    v.push(B_O);
    proof {
        assert(v@ =~= kind_no());
    }
    v
}

/// Builds the Pod short code.
pub fn kind_po_vec() -> (v: Vec<u8>)
    ensures
        v@ == kind_po(),
{
    let mut v: Vec<u8> = Vec::new();
    v.push(B_P);
    v.push(B_O);
    proof {
        assert(v@ =~= kind_po());
    }
    v
}

/// The values of a list of names.
pub open spec fn names_view(s: Seq<Vec<u8>>) -> Seq<Seq<u8>> {
    s.map_values(|v: Vec<u8>| v@)
}

/// `n` occurs in `names`.
pub open spec fn contains_name(names: Seq<Seq<u8>>, n: Seq<u8>) -> bool {
    exists|i: int| 0 <= i < names.len() && names[i] == n
}

/// Looks `n` up in a list of names.
fn contains_name_vec(names: &Vec<Vec<u8>>, n: &Vec<u8>) -> (r: bool)
    ensures
        r == contains_name(names_view(names@), n@),
{
    let mut i: usize = 0;
    while i < names.len()
        invariant
            i <= names@.len(),
            forall|j: int| 0 <= j < i ==> names_view(names@)[j] != n@,
        decreases names@.len() - i,
    {
        if bytes_eq(&names[i], n) {
            proof {
                assert(names_view(names@)[i as int] == n@);
            }
            return true;
        }
        i = i + 1;
    }
    false
}

/// Which children a listing interns: namespace directories under the root,
/// objects of one kind under `_/` or under one namespace directory.
pub enum ChildKind {
    Namespace,
    Freestanding { kind: Seq<u8> },
    Namespaced { ns: Seq<u8>, kind: Seq<u8> },
}

/// The entry a listed name `n` stands for.
pub open spec fn mk_child(t: ChildKind, n: Seq<u8>) -> EntryModel {
    match t {
        ChildKind::Namespace => EntryModel::NamespaceDir { name: n },
        ChildKind::Freestanding { kind } => EntryModel::ObjectFreestanding { name: n, kind },
        ChildKind::Namespaced { ns, kind } => EntryModel::ObjectNamespaced {
            namespace: ns,
            name: n,
            kind,
        },
    }
}

/// The directory-entry type of a listed child.
pub open spec fn child_dtype(t: ChildKind) -> u32 {
    match t {
        ChildKind::Namespace => DT_DIR,
        _ => DT_REG,
    }
}

/// How a directory listing extends the registry and the snapshot: one row
/// per listed name, in order, appended after `acc0`; each row carries the
/// child's file name and its interned inode; a name whose entry was already
/// bound keeps its old inode (this is what makes inodes stable across
/// repeated listings); the registry only grows; and it grows by nothing but
/// the listed children.
pub open spec fn listing_extended(
    reg0: Registry,
    reg1: Registry,
    t: ChildKind,
    names: Seq<Seq<u8>>,
    acc0: Seq<DirEntryModel>,
    acc1: Seq<DirEntryModel>,
) -> bool {
    &&& acc1.len() == acc0.len() + names.len()
    &&& forall|j: int| 0 <= j < acc0.len() ==> acc1[j] == acc0[j]
    &&& forall|k: int|
        0 <= k < names.len() ==> (#[trigger] acc1[acc0.len() + k]).name == mk_child(
            t,
            names[k],
        ).file_name() && acc1[acc0.len() + k].dtype == child_dtype(t) && reg1.maps(
            acc1[acc0.len() + k].ino,
            mk_child(t, names[k]),
        )
    &&& forall|k: int, i0: u64|
        0 <= k < names.len() && #[trigger] reg0.maps(i0, mk_child(t, names[k])) ==> acc1[acc0.len()
            + k].ino == i0
    &&& reg1.extends(reg0)
    &&& forall|i2: u64, e2: EntryModel|
        #[trigger] reg1.maps(i2, e2) ==> reg0.maps(i2, e2) || (exists|k: int|
            0 <= k < names.len() && e2 == #[trigger] mk_child(t, names[k]))
}

/// Interns one listed child and appends its snapshot row.
fn push_child(
    reg: &mut Registry,
    acc: &mut Vec<DirEntry>,
    child: Entry,
    dtype: u32,
) -> (ok: bool)
    requires
        old(reg).wf(),
        child@ != EntryModel::Mountpoint,
    ensures
        final(reg).wf(),
        final(reg).next_fh == old(reg).next_fh,
        final(reg).extends(*old(reg)),
        ok ==> {
            &&& final(acc)@.len() == old(acc)@.len() + 1
            &&& forall|j: int| 0 <= j < old(acc)@.len() ==> final(acc)@[j] == old(acc)@[j]
            &&& final(acc)@[old(acc)@.len() as int]@.name == child@.file_name()
            &&& final(acc)@[old(acc)@.len() as int]@.dtype == dtype
            &&& final(reg).maps(final(acc)@[old(acc)@.len() as int]@.ino, child@)
            &&& forall|i0: u64|
                old(reg).maps(i0, child@) ==> final(acc)@[old(acc)@.len() as int]@.ino == i0
            &&& forall|i2: u64, e2: EntryModel|
                final(reg).maps(i2, e2) ==> old(reg).maps(i2, e2) || e2 == child@
        },
        !ok ==> *final(reg) == *old(reg) && final(acc)@ == old(acc)@ && final(reg).next_ino
            == u64::MAX,
{
    let fname = child.file_name();
    let ghost cv = child@;
    match reg.intern(child) {
        Some(ino) => {
            acc.push(DirEntry { name: fname, ino, dtype });
            true
        },
        None => false,
    }
}

/// Interns every listed child of one kind and appends its snapshot rows.
/// `false` only when the inode counter is exhausted mid-way; the registry
/// still only grows and the caller replies with an I/O error.
fn extend_listing(
    reg: &mut Registry,
    acc: &mut Vec<DirEntry>,
    names: &Vec<Vec<u8>>,
    shape: &Entry,
) -> (ok: bool)
    requires
        old(reg).wf(),
        shape@ is NamespaceDir || shape@ is ObjectFreestanding || shape@ is ObjectNamespaced,
    ensures
        final(reg).wf(),
        final(reg).next_fh == old(reg).next_fh,
        final(reg).extends(*old(reg)),
        ok ==> listing_extended(
            *old(reg),
            *final(reg),
            shape_kind(shape@),
            names_view(names@),
            stream_view(old(acc)@),
            stream_view(final(acc)@),
        ),
        !ok ==> final(reg).next_ino == u64::MAX,
{
    let ghost t = shape_kind(shape@);
    let ghost nv = names_view(names@);
    let ghost acc0 = stream_view(old(acc)@);
    let mut k: usize = 0;
    while k < names.len()
        invariant
            reg.wf(),
            reg.next_fh == old(reg).next_fh,
            reg.extends(*old(reg)),
            old(reg).wf(),
            k <= names@.len(),
            nv == names_view(names@),
            nv.len() == names@.len(),
            acc0 == stream_view(old(acc)@),
            shape@ is NamespaceDir || shape@ is ObjectFreestanding || shape@ is ObjectNamespaced,
            t == shape_kind(shape@),
            listing_extended(
                *old(reg),
                *reg,
                t,
                nv.subrange(0, k as int),
                acc0,
                stream_view(acc@),
            ),
        decreases names@.len() - k,
    {
        let ghost reg_a = *reg;
        let ghost acc_a = stream_view(acc@);
        let nm = clone_bytes(&names[k]);
        let child = match shape {
            Entry::NamespaceDir { .. } => Entry::NamespaceDir { name: nm },
            Entry::ObjectFreestanding { kind, .. } => Entry::ObjectFreestanding {
                name: nm,
                kind: clone_bytes(kind),
            },
            Entry::ObjectNamespaced { namespace, kind, .. } => Entry::ObjectNamespaced {
                namespace: clone_bytes(namespace),
                name: nm,
                kind: clone_bytes(kind),
            },
            _ => {
                proof {
                    assert(false);
                }
                Entry::FreestandingDir
            },
        };
        proof {
            assert(child@ == mk_child(t, nv[k as int]));
        }
        let dtype = if matches!(shape, Entry::NamespaceDir { .. }) {
            DT_DIR
        } else {
            DT_REG
        };
        if !push_child(reg, acc, child, dtype) {
            proof {
                assert forall|i2: u64, e2: EntryModel| old(reg).maps(i2, e2) implies reg.maps(
                    i2,
                    e2,
                ) by {}
            }
            return false;
        }
        k = k + 1;
        proof {
            let accv = stream_view(acc@);
            assert(accv.len() == acc_a.len() + 1);
            assert(forall|j: int| 0 <= j < acc_a.len() ==> accv[j] == acc_a[j]);
            assert(nv.subrange(0, k as int)[k - 1] == nv[k - 1]);
            assert(forall|j: int|
                0 <= j < k - 1 ==> nv.subrange(0, k as int)[j] == nv.subrange(0, k - 1)[j]);
            assert forall|k2: int| 0 <= k2 < k implies (#[trigger] accv[acc0.len() + k2]).name
                == mk_child(t, nv.subrange(0, k as int)[k2]).file_name() && accv[acc0.len()
                + k2].dtype == child_dtype(t) && reg.maps(
                accv[acc0.len() + k2].ino,
                mk_child(t, nv.subrange(0, k as int)[k2]),
            ) by {
                if k2 < k - 1 {
                    assert(acc_a[acc0.len() + k2].name == mk_child(
                        t,
                        nv.subrange(0, k - 1)[k2],
                    ).file_name());
                    assert(reg_a.maps(acc_a[acc0.len() + k2].ino, mk_child(t, nv[k2])));
                    assert(reg.extends(reg_a));
                } else {
                    assert(accv[acc0.len() + k2] == accv[accv.len() - 1]);
                }
            }
            assert forall|k2: int, i0: u64|
                0 <= k2 < k && #[trigger] old(reg).maps(i0, mk_child(t, nv.subrange(0, k as int)[k2]))
                implies accv[acc0.len() + k2].ino == i0 by {
                if k2 < k - 1 {
                    assert(old(reg).maps(i0, mk_child(t, nv.subrange(0, k - 1)[k2])));
                } else {
                    assert(reg_a.maps(i0, mk_child(t, nv[k2])));
                }
            }
            assert forall|i2: u64, e2: EntryModel| old(reg).maps(i2, e2) implies reg.maps(
                i2,
                e2,
            ) by {
                assert(reg_a.maps(i2, e2));
            }
            assert forall|i2: u64, e2: EntryModel| reg.maps(i2, e2) implies old(reg).maps(i2, e2)
                || (exists|k2: int|
                0 <= k2 < k && e2 == #[trigger] mk_child(t, nv.subrange(0, k as int)[k2])) by {
                if reg_a.maps(i2, e2) {
                    if !old(reg).maps(i2, e2) {
                        let k2 = choose|k2: int|
                            0 <= k2 < k - 1 && e2 == #[trigger] mk_child(
                                t,
                                nv.subrange(0, k - 1)[k2],
                            );
                        assert(nv.subrange(0, k as int)[k2] == nv[k2]);
                        assert(nv.subrange(0, k - 1)[k2] == nv[k2]);
                        assert(e2 == mk_child(t, nv.subrange(0, k as int)[k2]));
                    }
                } else {
                    assert(e2 == mk_child(t, nv[k - 1]));
                    assert(nv.subrange(0, k as int)[k - 1] == nv[k - 1]);
                    assert(e2 == mk_child(t, nv.subrange(0, k as int)[k - 1]));
                }
            }
        }
    }
    proof {
        assert(nv.subrange(0, names@.len() as int) =~= nv);
    }
    true
}

/// The [`ChildKind`] a shape entry stands for. The shape's own name is
/// ignored; only its namespace and kind matter.
pub open spec fn shape_kind(e: EntryModel) -> ChildKind {
    match e {
        EntryModel::ObjectFreestanding { kind, .. } => ChildKind::Freestanding { kind },
        EntryModel::ObjectNamespaced { namespace, kind, .. } => ChildKind::Namespaced {
            ns: namespace,
            kind,
        },
        _ => ChildKind::Namespace,
    }
}

/// What resuming a pending `lookup` with a successful listing does when the
/// looked-up name was discovered: the entry is interned (an already-bound
/// entry keeps its inode), replied with short TTLs, and nothing else
/// changes; only inode-counter exhaustion turns into an I/O error.
pub open spec fn lookup_interned_outcome(pre: FsState, post: FsState, e: EntryModel, r: Step) -> bool {
    &&& post.dirs == pre.dirs
    &&& post.files == pre.files
    &&& post.uid == pre.uid && post.gid == pre.gid
    &&& post.registry.extends(pre.registry)
    &&& post.registry.next_fh == pre.registry.next_fh
    &&& ((r matches Step::Done { reply: Reply::Error { errno } } && errno == Errno::Eio && post
        == pre && pre.registry.next_ino == u64::MAX) || (r matches Step::Done { reply: Reply::Entry { ino, attr, ttl_secs } }
        && post.registry.maps(ino, e) && (forall|i0: u64| pre.registry.maps(i0, e) ==> ino == i0)
        && (forall|i2: u64, e2: EntryModel|
        post.registry.maps(i2, e2) ==> pre.registry.maps(i2, e2) || (i2 == ino && e2 == e))
        && attr == attr_of(e, ino, pre.uid, pre.gid) && ttl_secs == TTL_SHORT_SECS))
}

/// What resuming a pending `lookup` does: the discovered entry is interned
/// and replied; a name the cluster does not know yields `ENOENT`.
pub open spec fn lookup_resume_outcome(
    pre: FsState,
    post: FsState,
    e: EntryModel,
    name: Seq<u8>,
    names: Seq<Seq<u8>>,
    r: Step,
) -> bool {
    if contains_name(names, name) {
        lookup_interned_outcome(pre, post, e, r)
    } else {
        post == pre && (r matches Step::Done { reply: Reply::Error { errno } } && errno
            == Errno::Enoent)
    }
}

/// What resuming a pending `open` with the fetched body does: a fresh
/// handle owns the body, every other handle is untouched; only
/// handle-counter exhaustion turns into an I/O error.
pub open spec fn open_resume_outcome(pre: FsState, post: FsState, body: Seq<u8>, r: Step) -> bool {
    &&& post.registry.pairs@ == pre.registry.pairs@
    &&& post.registry.next_ino == pre.registry.next_ino
    &&& post.dirs == pre.dirs
    &&& post.uid == pre.uid && post.gid == pre.gid
    &&& ((r matches Step::Done { reply: Reply::Error { errno } } && errno == Errno::Eio && post
        == pre && pre.registry.next_fh == u64::MAX) || (r matches Step::Done { reply: Reply::Opened { fh, direct_io } } && direct_io
        && fh == pre.registry.next_fh && post.registry.next_fh == pre.registry.next_fh + 1
        && !pre.files.has(fh) && post.files.maps(fh, body) && (forall|k: u64|
        k != fh ==> (post.files.has(k) <==> pre.files.has(k))) && (forall|k: u64, b: Seq<u8>|
        k != fh ==> (post.files.maps(k, b) <==> pre.files.maps(k, b)))))
}

/// What finishing an `opendir` does: the snapshot (head plus one row per
/// listed name) is stored under a fresh handle, every other handle is
/// untouched, and the listing extended the registry as
/// [`listing_extended`] says.
pub open spec fn opendir_finalize_outcome(
    pre: FsState,
    post: FsState,
    t: ChildKind,
    names: Seq<Seq<u8>>,
    acc0: Seq<DirEntryModel>,
    r: Step,
) -> bool {
    &&& post.files == pre.files
    &&& post.uid == pre.uid && post.gid == pre.gid
    &&& post.registry.extends(pre.registry)
    &&& ((r matches Step::Done { reply: Reply::Error { errno } } && errno == Errno::Eio
        && post.dirs == pre.dirs && (post.registry.next_ino == u64::MAX
        || post.registry.next_fh == u64::MAX)) || (r matches Step::Done {
        reply: Reply::Opened { fh, direct_io },
    } && direct_io && fh == pre.registry.next_fh && post.registry.next_fh
        == pre.registry.next_fh + 1 && !pre.dirs.has(fh) && (exists|acc1: Seq<DirEntryModel>|
        #[trigger] post.dirs.maps(fh, acc1) && listing_extended(
        pre.registry,
        post.registry,
        t,
        names,
        acc0,
        acc1,
    )) && (forall|k: u64| k != fh ==> (post.dirs.has(k) <==> pre.dirs.has(k))) && (forall|
        k: u64,
        st: Seq<DirEntryModel>,
    |
        k != fh ==> (post.dirs.maps(k, st) <==> pre.dirs.maps(k, st)))))
}

/// What the first half of a `_/` `opendir` does: the namespace-kind rows are
/// interned and appended, and the follow-up query for the node kind is
/// issued with the grown snapshot.
pub open spec fn opendir_continue_outcome(
    pre: FsState,
    post: FsState,
    t: ChildKind,
    names: Seq<Seq<u8>>,
    acc0: Seq<DirEntryModel>,
    ino: u64,
    next_kind: Seq<u8>,
    r: Step,
) -> bool {
    &&& post.dirs == pre.dirs
    &&& post.files == pre.files
    &&& post.uid == pre.uid && post.gid == pre.gid
    &&& post.registry.extends(pre.registry)
    &&& post.registry.next_fh == pre.registry.next_fh
    &&& ((r matches Step::Done { reply: Reply::Error { errno } } && errno == Errno::Eio
        && post.registry.next_ino == u64::MAX) || (r
        matches Step::Need {
        query: Query::ListClusterScoped { kind },
        pending: Pending::Opendir { ino: i2, acc, kind_idx },
    } && kind@ == next_kind && i2 == ino && kind_idx == 1 && listing_extended(
        pre.registry,
        post.registry,
        t,
        names,
        acc0,
        stream_view(acc@),
    )))
}

/// What resuming a pending `opendir` with a successful listing does, by the
/// directory's kind and by which phase the continuation is in. A
/// continuation that does not fit the directory (which [`step`] never
/// issues) is answered defensively with an I/O error.
pub open spec fn opendir_resume_outcome(
    pre: FsState,
    post: FsState,
    ino: u64,
    acc0: Seq<DirEntryModel>,
    kind_idx: int,
    names: Seq<Seq<u8>>,
    r: Step,
) -> bool {
    &&& (!pre.registry.has_ino(ino) ==> post == pre && (r matches Step::Done {
        reply: Reply::Error { errno },
    } && errno == Errno::Eio))
    &&& forall|e: EntryModel|
        #[trigger] pre.registry.maps(ino, e) ==> match e {
            EntryModel::Mountpoint => if kind_idx == 0 {
                opendir_finalize_outcome(pre, post, ChildKind::Namespace, names, acc0, r)
            } else {
                post == pre && (r matches Step::Done { reply: Reply::Error { errno } } && errno
                    == Errno::Eio)
            },
            EntryModel::FreestandingDir => if kind_idx == 0 {
                opendir_continue_outcome(
                    pre,
                    post,
                    ChildKind::Freestanding { kind: kind_ns() },
                    names,
                    acc0,
                    ino,
                    kind_no(),
                    r,
                )
            } else if kind_idx == 1 {
                opendir_finalize_outcome(
                    pre,
                    post,
                    ChildKind::Freestanding { kind: kind_no() },
                    names,
                    acc0,
                    r,
                )
            } else {
                post == pre && (r matches Step::Done { reply: Reply::Error { errno } } && errno
                    == Errno::Eio)
            },
            EntryModel::NamespaceDir { name: ns } => if kind_idx == 0 {
                opendir_finalize_outcome(
                    pre,
                    post,
                    ChildKind::Namespaced { ns, kind: kind_po() },
                    names,
                    acc0,
                    r,
                )
            } else {
                post == pre && (r matches Step::Done { reply: Reply::Error { errno } } && errno
                    == Errno::Eio)
            },
            _ => post == pre && (r matches Step::Done { reply: Reply::Error { errno } } && errno
                == Errno::Eio),
        }
}

/// Interns a discovered lookup target and replies it with short TTLs.
fn finish_lookup_intern(s: &mut FsState, cand: Entry) -> (r: Step)
    requires
        old(s).wf(),
        cand@ != EntryModel::Mountpoint,
    ensures
        final(s).wf(),
        lookup_interned_outcome(*old(s), *final(s), cand@, r),
{
    let shown = cand.clone_entry();
    match s.registry.intern(cand) {
        Some(ino) => {
            let attr = make_attr(&shown, ino, s.uid, s.gid);
            Step::Done { reply: Reply::Entry { ino, attr, ttl_secs: TTL_SHORT_SECS } }
        },
        None => Step::Done { reply: Reply::Error { errno: Errno::Eio } },
    }
}

/// Issues the fresh handle for a completed `opendir` snapshot.
fn finalize_opendir(s: &mut FsState, acc: Vec<DirEntry>) -> (r: Step)
    requires
        old(s).wf(),
    ensures
        final(s).wf(),
        final(s).registry.pairs@ == old(s).registry.pairs@,
        final(s).registry.next_ino == old(s).registry.next_ino,
        final(s).files == old(s).files,
        final(s).uid == old(s).uid && final(s).gid == old(s).gid,
        ((r matches Step::Done { reply: Reply::Error { errno } } && errno == Errno::Eio
            && *final(s) == *old(s) && old(s).registry.next_fh == u64::MAX) || (r
            matches Step::Done {
            reply: Reply::Opened { fh, direct_io },
        } && direct_io && fh == old(s).registry.next_fh
            && final(s).registry.next_fh == old(s).registry.next_fh + 1
            && !old(s).dirs.has(fh)
            && final(s).dirs.maps(fh, stream_view(acc@))
            && (forall|k: u64| k != fh ==> (final(s).dirs.has(k) <==> old(s).dirs.has(k)))
            && (forall|k: u64, st: Seq<DirEntryModel>|
                k != fh ==> (final(s).dirs.maps(k, st) <==> old(s).dirs.maps(k, st))))),
{
    match s.registry.alloc_handle() {
        Some(fh) => {
            proof {
                assert(!s.dirs.has(fh)) by {
                    if s.dirs.has(fh) {
                        let j = choose|j: int|
                            0 <= j < s.dirs.items@.len() && (#[trigger] s.dirs.items@[j]).0 == fh;
                    }
                }
                assert(old(s).dirs.all_below(s.registry.next_fh)) by {
                    assert(forall|j: int|
                        0 <= j < old(s).dirs.items@.len() ==> (#[trigger] old(
                            s,
                        ).dirs.items@[j]).0 < s.registry.next_fh);
                }
                assert(s.files.all_below(s.registry.next_fh)) by {
                    assert(forall|j: int|
                        0 <= j < s.files.items@.len() ==> (#[trigger] s.files.items@[j]).0 < s.registry.next_fh);
                }
            }
            s.dirs.insert(fh, acc);
            Step::Done { reply: Reply::Opened { fh, direct_io: true } }
        },
        None => Step::Done { reply: Reply::Error { errno: Errno::Eio } },
    }
}

/// Resumes a continuation with the result of its cluster query. Either
/// finishes with the reply to send, or (for the first half of a `_/`
/// listing) hands back one more query. A result of the wrong shape for the
/// continuation is answered with an I/O error and leaves the state as it
/// was.
pub fn resume(s: &mut FsState, p: Pending, qr: QueryResult) -> (r: Step)
    requires
        old(s).wf(),
    ensures
        final(s).wf(),
        match p {
            Pending::LookupNamespace { name } => match qr {
                QueryResult::Names { names } => lookup_resume_outcome(
                    *old(s),
                    *final(s),
                    EntryModel::NamespaceDir { name: name@ },
                    name@,
                    names_view(names@),
                    r,
                ),
                _ => *final(s) == *old(s) && (r matches Step::Done {
                    reply: Reply::Error { errno },
                } && errno == Errno::Eio),
            },
            Pending::LookupFreestanding { name, kind } => match qr {
                QueryResult::Names { names } => lookup_resume_outcome(
                    *old(s),
                    *final(s),
                    EntryModel::ObjectFreestanding { name: name@, kind: kind@ },
                    name@,
                    names_view(names@),
                    r,
                ),
                _ => *final(s) == *old(s) && (r matches Step::Done {
                    reply: Reply::Error { errno },
                } && errno == Errno::Eio),
            },
            Pending::LookupNamespaced { namespace, name, kind } => match qr {
                QueryResult::Names { names } => lookup_resume_outcome(
                    *old(s),
                    *final(s),
                    EntryModel::ObjectNamespaced {
                        namespace: namespace@,
                        name: name@,
                        kind: kind@,
                    },
                    name@,
                    names_view(names@),
                    r,
                ),
                _ => *final(s) == *old(s) && (r matches Step::Done {
                    reply: Reply::Error { errno },
                } && errno == Errno::Eio),
            },
            Pending::Opendir { ino, acc, kind_idx } => match qr {
                QueryResult::Names { names } => opendir_resume_outcome(
                    *old(s),
                    *final(s),
                    ino,
                    stream_view(acc@),
                    kind_idx as int,
                    names_view(names@),
                    r,
                ),
                _ => *final(s) == *old(s) && (r matches Step::Done {
                    reply: Reply::Error { errno },
                } && errno == Errno::Eio),
            },
            Pending::Open => match qr {
                QueryResult::Body { bytes } => open_resume_outcome(*old(s), *final(s), bytes@, r),
                QueryResult::NotFound => *final(s) == *old(s) && (r matches Step::Done {
                    reply: Reply::Error { errno },
                } && errno == Errno::Enoent),
                _ => *final(s) == *old(s) && (r matches Step::Done {
                    reply: Reply::Error { errno },
                } && errno == Errno::Eio),
            },
        },
{
    match p {
        Pending::LookupNamespace { name } => match qr {
            QueryResult::Names { names } => {
                if contains_name_vec(&names, &name) {
                    finish_lookup_intern(s, Entry::NamespaceDir { name })
                } else {
                    Step::Done { reply: Reply::Error { errno: Errno::Enoent } }
                }
            },
            _ => Step::Done { reply: Reply::Error { errno: Errno::Eio } },
        },
        Pending::LookupFreestanding { name, kind } => match qr {
            QueryResult::Names { names } => {
                if contains_name_vec(&names, &name) {
                    finish_lookup_intern(s, Entry::ObjectFreestanding { name, kind })
                } else {
                    Step::Done { reply: Reply::Error { errno: Errno::Enoent } }
                }
            },
            _ => Step::Done { reply: Reply::Error { errno: Errno::Eio } },
        },
        Pending::LookupNamespaced { namespace, name, kind } => match qr {
            QueryResult::Names { names } => {
                if contains_name_vec(&names, &name) {
                    finish_lookup_intern(s, Entry::ObjectNamespaced { namespace, name, kind })
                } else {
                    Step::Done { reply: Reply::Error { errno: Errno::Enoent } }
                }
            },
            _ => Step::Done { reply: Reply::Error { errno: Errno::Eio } },
        },
        Pending::Opendir { ino, acc, kind_idx } => match qr {
            QueryResult::Names { names } => resume_opendir(s, ino, acc, kind_idx, names),
            _ => Step::Done { reply: Reply::Error { errno: Errno::Eio } },
        },
        Pending::Open => match qr {
            QueryResult::Body { bytes } => {
                match s.registry.alloc_handle() {
                    Some(fh) => {
                        proof {
                            assert(!s.files.has(fh)) by {
                                if s.files.has(fh) {
                                    let j = choose|j: int|
                                        0 <= j < s.files.items@.len() && (
                                        #[trigger] s.files.items@[j]).0 == fh;
                                }
                            }
                            assert(s.dirs.all_below(s.registry.next_fh)) by {
                                assert(forall|j: int|
                                    0 <= j < s.dirs.items@.len() ==> (
                                    #[trigger] s.dirs.items@[j]).0 < s.registry.next_fh);
                            }
                            assert(old(s).files.all_below(s.registry.next_fh)) by {
                                assert(forall|j: int|
                                    0 <= j < old(s).files.items@.len() ==> (#[trigger] old(
                                        s,
                                    ).files.items@[j]).0 < s.registry.next_fh);
                            }
                        }
                        s.files.insert(fh, bytes);
                        Step::Done { reply: Reply::Opened { fh, direct_io: true } }
                    },
                    None => Step::Done { reply: Reply::Error { errno: Errno::Eio } },
                }
            },
            QueryResult::NotFound => Step::Done { reply: Reply::Error { errno: Errno::Enoent } },
            QueryResult::TransportError => Step::Done {
                reply: Reply::Error { errno: Errno::Eio },
            },
            QueryResult::Names { .. } => Step::Done { reply: Reply::Error { errno: Errno::Eio } },
        },
    }
}

/// Resumes a pending `opendir` with one kind's listing.
fn resume_opendir(
    s: &mut FsState,
    ino: u64,
    acc: Vec<DirEntry>,
    kind_idx: usize,
    names: Vec<Vec<u8>>,
) -> (r: Step)
    requires
        old(s).wf(),
    ensures
        final(s).wf(),
        opendir_resume_outcome(
            *old(s),
            *final(s),
            ino,
            stream_view(acc@),
            kind_idx as int,
            names_view(names@),
            r,
        ),
{
    let ghost acc0 = stream_view(acc@);
    let mut acc = acc;
    let e = match s.registry.entry_of(ino) {
        Some(e) => e,
        None => {
            return Step::Done { reply: Reply::Error { errno: Errno::Eio } };
        },
    };
    proof {
        assert forall|e2: EntryModel| old(s).registry.maps(ino, e2) implies e2 == e@ by {
            lemma_bijection(old(s).registry, ino, e2, ino, e@);
        }
    }
    match e {
        Entry::Mountpoint => {
            if kind_idx != 0 {
                return Step::Done { reply: Reply::Error { errno: Errno::Eio } };
            }
            let shape = Entry::NamespaceDir { name: Vec::new() };
            let ok = extend_listing(&mut s.registry, &mut acc, &names, &shape);
            if !ok {
                return Step::Done { reply: Reply::Error { errno: Errno::Eio } };
            }
            let ghost mid = *s;
            let r = finalize_opendir(s, acc);
            proof {
                crate::registry::lemma_maps_same_pairs(mid.registry, s.registry);
                lemma_listing_same_maps(
                    old(s).registry,
                    mid.registry,
                    s.registry,
                    ChildKind::Namespace,
                    names_view(names@),
                    acc0,
                    stream_view(acc@),
                );
            }
            r
        },
        Entry::FreestandingDir => {
            if kind_idx == 0 {
                let shape = Entry::ObjectFreestanding { name: Vec::new(), kind: kind_ns_vec() };
                let ok = extend_listing(&mut s.registry, &mut acc, &names, &shape);
                if !ok {
                    return Step::Done { reply: Reply::Error { errno: Errno::Eio } };
                }
                Step::Need {
                    query: Query::ListClusterScoped { kind: kind_no_vec() },
                    pending: Pending::Opendir { ino, acc, kind_idx: 1 },
                }
            } else if kind_idx == 1 {
                let shape = Entry::ObjectFreestanding { name: Vec::new(), kind: kind_no_vec() };
                let ok = extend_listing(&mut s.registry, &mut acc, &names, &shape);
                if !ok {
                    return Step::Done { reply: Reply::Error { errno: Errno::Eio } };
                }
                let ghost mid = *s;
                let r = finalize_opendir(s, acc);
                proof {
                    crate::registry::lemma_maps_same_pairs(mid.registry, s.registry);
                    lemma_listing_same_maps(
                        old(s).registry,
                        mid.registry,
                        s.registry,
                        ChildKind::Freestanding { kind: kind_no() },
                        names_view(names@),
                        acc0,
                        stream_view(acc@),
                    );
                }
                r
            } else {
                Step::Done { reply: Reply::Error { errno: Errno::Eio } }
            }
        },
        Entry::NamespaceDir { name: ns } => {
            if kind_idx != 0 {
                return Step::Done { reply: Reply::Error { errno: Errno::Eio } };
            }
            let shape = Entry::ObjectNamespaced {
                namespace: ns,
                name: Vec::new(),
                kind: kind_po_vec(),
            };
            let ok = extend_listing(&mut s.registry, &mut acc, &names, &shape);
            if !ok {
                return Step::Done { reply: Reply::Error { errno: Errno::Eio } };
            }
            let ghost mid = *s;
            let r = finalize_opendir(s, acc);
            proof {
                crate::registry::lemma_maps_same_pairs(mid.registry, s.registry);
                lemma_listing_same_maps(
                    old(s).registry,
                    mid.registry,
                    s.registry,
                    shape_kind(shape@),
                    names_view(names@),
                    acc0,
                    stream_view(acc@),
                );
            }
            r
        },
        Entry::ObjectFreestanding { .. } => Step::Done {
            reply: Reply::Error { errno: Errno::Eio },
        },
        Entry::ObjectNamespaced { .. } => Step::Done {
            reply: Reply::Error { errno: Errno::Eio },
        },
    }
}

/// Stable inodes: listing the same directory twice over the same cluster
/// state (the same names, in the same order) yields rows with the same
/// names and the same inode numbers, however the two snapshots were headed.
/// The first listing interned every child, and a later listing always keeps
/// the inode an entry is already bound to.
pub proof fn lemma_stable_listing(
    reg0: Registry,
    reg1: Registry,
    reg2: Registry,
    t: ChildKind,
    names: Seq<Seq<u8>>,
    acc0a: Seq<DirEntryModel>,
    acc1: Seq<DirEntryModel>,
    acc0b: Seq<DirEntryModel>,
    acc2: Seq<DirEntryModel>,
)
    requires
        listing_extended(reg0, reg1, t, names, acc0a, acc1),
        listing_extended(reg1, reg2, t, names, acc0b, acc2),
    ensures
        forall|k: int|
            0 <= k < names.len() ==> (#[trigger] acc2[acc0b.len() + k]).ino == acc1[acc0a.len()
                + k].ino && acc2[acc0b.len() + k].name == acc1[acc0a.len() + k].name,
{
    assert forall|k: int| 0 <= k < names.len() implies (#[trigger] acc2[acc0b.len() + k]).ino
        == acc1[acc0a.len() + k].ino && acc2[acc0b.len() + k].name == acc1[acc0a.len()
        + k].name by {
        assert(reg1.maps(acc1[acc0a.len() + k].ino, mk_child(t, names[k])));
    }
}

/// Handle isolation: a directory handle that was open before an `opendir`
/// completes is distinct from the handle the `opendir` issues, it still owns
/// its own snapshot afterwards, the new handle owns a snapshot of its own,
/// and releasing the new handle leaves the old handle's snapshot untouched.
pub proof fn lemma_handle_isolation(
    pre: FsState,
    post: FsState,
    post2: FsState,
    t: ChildKind,
    names: Seq<Seq<u8>>,
    acc0: Seq<DirEntryModel>,
    r: Step,
    fh_new: u64,
    fh_old: u64,
    st_old: Seq<DirEntryModel>,
    r2: Step,
)
    requires
        pre.wf(),
        opendir_finalize_outcome(pre, post, t, names, acc0, r),
        r == (Step::Done { reply: Reply::Opened { fh: fh_new, direct_io: true } }),
        pre.dirs.maps(fh_old, st_old),
        releasedir_outcome(post, post2, fh_new, r2),
    ensures
        fh_old != fh_new,
        post.dirs.maps(fh_old, st_old),
        post2.dirs.maps(fh_old, st_old),
        exists|s_new: Seq<DirEntryModel>| post.dirs.maps(fh_new, s_new),
{
    let j = choose|j: int|
        0 <= j < pre.dirs.items@.len() && (#[trigger] pre.dirs.items@[j]).0 == fh_old
            && stream_view(pre.dirs.items@[j].1@) == st_old;
    assert(pre.dirs.items@[j].0 < pre.registry.next_fh);
}

/// A listing relation is insensitive to the handle counter: a registry with
/// the same pairs satisfies the same relation.
proof fn lemma_listing_same_maps(
    reg0: Registry,
    reg_a: Registry,
    reg_b: Registry,
    t: ChildKind,
    names: Seq<Seq<u8>>,
    acc0: Seq<DirEntryModel>,
    acc1: Seq<DirEntryModel>,
)
    requires
        listing_extended(reg0, reg_a, t, names, acc0, acc1),
        reg_b.pairs@ == reg_a.pairs@,
    ensures
        listing_extended(reg0, reg_b, t, names, acc0, acc1),
{
    crate::registry::lemma_maps_same_pairs(reg_a, reg_b);
}

} // verus!
