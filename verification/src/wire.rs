//! The typed requests, replies and cluster queries of the dispatcher, and
//! the pure window logic of `read` and `readdir`.
//!
//! Every kernel operation the dispatcher serves is a [`Request`]; every
//! outcome is a [`Step`]: either a finished [`Reply`], or a cluster [`Query`]
//! together with the [`Pending`] continuation to resume with once the
//! embedding program has performed the query.

use vstd::prelude::*;

use crate::bytes::bytes_range;
use crate::tables::{DirEntry, DirEntryModel};

verus! {

/// Mode bits reported for every directory: `S_IFDIR | 0500` (owner may read
/// and search; the filesystem is read-only).
pub const MODE_DIR: u32 = 0o040000 | 0o400 | 0o100;

/// Mode bits reported for every file: `S_IFREG | 0400` (owner may read).
pub const MODE_REG: u32 = 0o100000 | 0o400;

/// Directory-entry type byte for directories.
pub const DT_DIR: u32 = 4;

/// Directory-entry type byte for regular files.
pub const DT_REG: u32 = 8;

/// Attribute/entry cache lifetime for the two fixed directories: about a
/// year, since they never change.
pub const TTL_LONG_SECS: u64 = 365 * 24 * 60 * 60;

/// Attribute/entry cache lifetime for dynamic entries: reads may serve data
/// this stale before the kernel re-asks.
pub const TTL_SHORT_SECS: u64 = 10;

/// Size reported for a file before its body has been fetched. The body is
/// only materialized at `open` time and every open reply sets `direct_io`,
/// which bypasses the page cache, so the kernel treats this value as
/// advisory.
pub const PLACEHOLDER_FILE_SIZE: u64 = 10;

/// Per-dirent overhead of the kernel's directory-entry record: the fixed
/// header before the name.
pub const DIRENT_HEADER: u64 = 24;

/// Errors replied to the kernel, by their conventional names.
#[derive(Clone, Copy, PartialEq, Eq, Structural, Debug)]
pub enum Errno {
    /// No such entry.
    Enoent,
    /// An inode or file handle was not recognized where a known one was expected.
    Einval,
    /// A directory operation reached a regular file.
    Enotdir,
    /// A file operation reached a directory.
    Eisdir,
    /// `releasedir` on an unknown handle.
    Ebadf,
    /// A write open on a read-only filesystem.
    Erofs,
    /// Cluster transport failure, or an internal invariant could not be kept.
    Eio,
    /// Unimplemented operation.
    Enosys,
}

/// File attributes as replied to the kernel.
#[derive(Clone, Copy, PartialEq, Eq, Structural, Debug)]
pub struct Attr {
    pub ino: u64,
    pub mode: u32,
    pub nlink: u32,
    pub uid: u32,
    pub gid: u32,
    pub size: u64,
}

/// One decoded kernel operation.
pub enum Request {
    Getattr { ino: u64 },
    Lookup { parent: u64, name: Vec<u8> },
    Opendir { ino: u64 },
    Readdir { fh: u64, offset: u64, size: u32, plus: bool },
    Releasedir { fh: u64 },
    Open { ino: u64, write: bool },
    Read { fh: u64, offset: u64, size: u32 },
    Release { fh: u64 },
    /// Any operation the filesystem does not implement.
    Other,
}

/// One row of a `readdir` reply: a snapshot row together with the 1-based
/// offset the kernel resumes from after consuming it.
pub struct ReplyDirEntry {
    pub name: Vec<u8>,
    pub ino: u64,
    pub dtype: u32,
    pub off: u64,
}

/// Specification-level value of a [`ReplyDirEntry`].
pub struct ReplyDirEntryModel {
    pub name: Seq<u8>,
    pub ino: u64,
    pub dtype: u32,
    pub off: u64,
}

impl View for ReplyDirEntry {
    type V = ReplyDirEntryModel;

    open spec fn view(&self) -> ReplyDirEntryModel {
        ReplyDirEntryModel { name: self.name@, ino: self.ino, dtype: self.dtype, off: self.off }
    }
}

/// The value of a `readdir` reply page.
pub open spec fn page_view(v: Seq<ReplyDirEntry>) -> Seq<ReplyDirEntryModel> {
    v.map_values(|d: ReplyDirEntry| d@)
}

/// One typed reply. Every request is answered by exactly one of these.
pub enum Reply {
    /// `getattr` success.
    Attr { attr: Attr, ttl_secs: u64 },
    /// `lookup` success.
    Entry { ino: u64, attr: Attr, ttl_secs: u64 },
    /// `open`/`opendir` success.
    Opened { fh: u64, direct_io: bool },
    /// `readdir` success: one page of directory rows.
    Dir { entries: Vec<ReplyDirEntry> },
    /// `read` success.
    Data { bytes: Vec<u8> },
    /// `releasedir`/`release` success.
    Empty,
    /// Any failure, as the errno to reply.
    Error { errno: Errno },
}

/// A cluster query the embedding program must perform.
pub enum Query {
    /// List the names of all namespaces.
    ListNamespaces,
    /// List the names of all cluster-scoped objects of one kind.
    ListClusterScoped { kind: Vec<u8> },
    /// List the names of all objects of one namespaced kind in one namespace.
    ListNamespaced { namespace: Vec<u8>, kind: Vec<u8> },
    /// Fetch one object's serialized body.
    GetObject { namespace: Option<Vec<u8>>, kind: Vec<u8>, name: Vec<u8> },
}

/// What a [`Query`] produced.
pub enum QueryResult {
    /// A listing query succeeded with these names.
    Names { names: Vec<Vec<u8>> },
    /// A fetch succeeded with this body.
    Body { bytes: Vec<u8> },
    /// The fetched object does not exist.
    NotFound,
    /// The cluster could not be reached.
    TransportError,
}

/// The continuation of a request that awaits a [`QueryResult`].
pub enum Pending {
    /// `lookup` of a namespace directory under the root.
    LookupNamespace { name: Vec<u8> },
    /// `lookup` of a cluster-scoped object under `_/`.
    LookupFreestanding { name: Vec<u8>, kind: Vec<u8> },
    /// `lookup` of a namespaced object under its namespace directory.
    LookupNamespaced { namespace: Vec<u8>, name: Vec<u8>, kind: Vec<u8> },
    /// `opendir`: the snapshot built so far and the index of the kind the
    /// outstanding listing query is for.
    Opendir { ino: u64, acc: Vec<DirEntry>, kind_idx: usize },
    /// `open`: awaiting the object's body.
    Open,
}

/// The outcome of dispatching one request (or resuming one continuation):
/// either a finished reply, or one more query to perform.
pub enum Step {
    Done { reply: Reply },
    Need { query: Query, pending: Pending },
}

/// The attributes of an entry, per its classification. Directories carry
/// mode `S_IFDIR | 0500` and two links; files carry `S_IFREG | 0400`, one
/// link, and the placeholder size.
pub open spec fn attr_of(e: crate::entry::EntryModel, ino: u64, uid: u32, gid: u32) -> Attr {
    if e.is_dir() {
        Attr { ino, mode: MODE_DIR, nlink: 2, uid, gid, size: 0 }
    } else {
        Attr { ino, mode: MODE_REG, nlink: 1, uid, gid, size: PLACEHOLDER_FILE_SIZE }
    }
}

/// Cache lifetime of an entry: long for the two fixed directories, short for
/// everything dynamic.
pub open spec fn ttl_of(e: crate::entry::EntryModel) -> u64 {
    match e {
        crate::entry::EntryModel::Mountpoint => TTL_LONG_SECS,
        crate::entry::EntryModel::FreestandingDir => TTL_LONG_SECS,
        _ => TTL_SHORT_SECS,
    }
}

/// Builds the attributes of an entry.
pub fn make_attr(e: &crate::entry::Entry, ino: u64, uid: u32, gid: u32) -> (a: Attr)
    ensures
        a == attr_of(e@, ino, uid, gid),
{
    if e.is_dir() {
        Attr { ino, mode: MODE_DIR, nlink: 2, uid, gid, size: 0 }
    } else {
        Attr { ino, mode: MODE_REG, nlink: 1, uid, gid, size: PLACEHOLDER_FILE_SIZE }
    }
}

/// The cache lifetime of an entry.
pub fn make_ttl(e: &crate::entry::Entry) -> (t: u64)
    ensures
        t == ttl_of(e@),
{
    match e {
        crate::entry::Entry::Mountpoint => TTL_LONG_SECS,
        crate::entry::Entry::FreestandingDir => TTL_LONG_SECS,
        _ => TTL_SHORT_SECS,
    }
}

/// The window of a file body that `read` returns: the bytes from `offset`,
/// clamped to the body and to `size`. Reading at or past the end yields zero
/// bytes, not an error.
pub open spec fn read_window(b: Seq<u8>, offset: u64, size: u32) -> Seq<u8> {
    if offset >= b.len() {
        Seq::empty()
    } else if offset + size <= b.len() {
        b.subrange(offset as int, offset + size)
    } else {
        b.subrange(offset as int, b.len() as int)
    }
}

/// Copies the `read` window out of a body.
pub fn read_slice(body: &Vec<u8>, offset: u64, size: u32) -> (r: Vec<u8>)
    ensures
        r@ == read_window(body@, offset, size),
        offset >= body@.len() ==> r@.len() == 0,
{
    if offset >= body.len() as u64 {
        Vec::new()
    } else {
        let off = offset as usize;
        let remain = body.len() - off;
        let take = if (size as usize) < remain {
            size as usize
        } else {
            remain
        };
        bytes_range(body, off, off + take)
    }
}

/// The space one directory row takes in a `readdir` reply buffer: a fixed
/// header plus the name, padded to an 8-byte boundary.
pub open spec fn dirent_size(name_len: int) -> int {
    ((DIRENT_HEADER + name_len + 7) / 8) * 8
}

/// The page of rows a `readdir` reply carries: rows from `i` on, each
/// stamped with its 1-based offset, as long as they fit in `space` bytes.
/// An offset at or past the end of the snapshot yields an empty page.
pub open spec fn fill_window(s: Seq<DirEntryModel>, i: int, space: int) -> Seq<ReplyDirEntryModel>
    decreases s.len() - i,
{
    if i < 0 || i >= s.len() {
        Seq::empty()
    } else if dirent_size(s[i].name.len() as int) <= space {
        seq![
            ReplyDirEntryModel {
                name: s[i].name,
                ino: s[i].ino,
                dtype: s[i].dtype,
                off: (i + 1) as u64,
            },
        ] + fill_window(s, i + 1, space - dirent_size(s[i].name.len() as int))
    } else {
        Seq::empty()
    }
}

/// Serializes one `readdir` page from a snapshot.
pub fn fill_dir_entries(stream: &Vec<DirEntry>, offset: u64, size: u32) -> (out: Vec<
    ReplyDirEntry,
>)
    ensures
        page_view(out@) == fill_window(
            crate::tables::stream_view(stream@),
            offset as int,
            size as int,
        ),
        offset >= stream@.len() ==> out@.len() == 0,
{
    let ghost s = crate::tables::stream_view(stream@);
    let mut out: Vec<ReplyDirEntry> = Vec::new();
    if offset >= stream.len() as u64 {
        proof {
            assert(page_view(out@) =~= fill_window(s, offset as int, size as int));
        }
        return out;
    }
    let mut i: usize = offset as usize;
    let mut space: u64 = size as u64;
    while i < stream.len()
        invariant
            offset <= i <= stream@.len(),
            space <= size,
            s == crate::tables::stream_view(stream@),
            s.len() == stream@.len(),
            forall|j: int| 0 <= j < s.len() ==> #[trigger] s[j] == stream@[j]@,
            fill_window(s, offset as int, size as int) == page_view(out@) + fill_window(
                s,
                i as int,
                space as int,
            ),
        decreases stream@.len() - i,
    {
        let name_len = stream[i].name.len() as u64;
        if name_len > 0xFFFF_FFFF {
            proof {
                assert(dirent_size(s[i as int].name.len() as int) > space);
                assert(fill_window(s, i as int, space as int) =~= Seq::<
                    ReplyDirEntryModel,
                >::empty());
                assert(page_view(out@) + fill_window(s, i as int, space as int) =~= page_view(
                    out@,
                ));
            }
            return out;
        }
        let sz = ((DIRENT_HEADER + name_len + 7) / 8) * 8;
        proof {
            assert(sz as int == dirent_size(s[i as int].name.len() as int));
        }
        if sz > space {
            proof {
                assert(fill_window(s, i as int, space as int) =~= Seq::<
                    ReplyDirEntryModel,
                >::empty());
                assert(page_view(out@) + fill_window(s, i as int, space as int) =~= page_view(
                    out@,
                ));
            }
            return out;
        }
        let row = ReplyDirEntry {
            name: crate::bytes::clone_bytes(&stream[i].name),
            ino: stream[i].ino,
            dtype: stream[i].dtype,
            off: (i as u64) + 1,
        };
        out.push(row);
        space = space - sz;
        i = i + 1;
        proof {
            let prev = out@.drop_last();
            assert(page_view(out@) =~= page_view(prev) + seq![out@.last()@]);
            assert(out@.last()@ == ReplyDirEntryModel {
                name: s[i - 1].name,
                ino: s[i - 1].ino,
                dtype: s[i - 1].dtype,
                off: i as u64,
            });
            assert(fill_window(s, i - 1, (space + sz) as int) == seq![out@.last()@] + fill_window(
                s,
                i as int,
                space as int,
            ));
            assert(page_view(prev) + (seq![out@.last()@] + fill_window(s, i as int, space as int))
                =~= (page_view(prev) + seq![out@.last()@]) + fill_window(s, i as int, space as int));
        }
    }
    proof {
        assert(fill_window(s, i as int, space as int) =~= Seq::<ReplyDirEntryModel>::empty());
        assert(page_view(out@) + fill_window(s, i as int, space as int) =~= page_view(out@));
    }
    out
}

} // verus!
