//! The logical filesystem nodes and their naming rules.
//!
//! An [`Entry`] is one node of the virtual tree: the mount root, the `_/`
//! directory for cluster-scoped objects, one directory per namespace, and one
//! `<name>.<kind>.yaml` file per object. Names are byte strings, as the
//! kernel delivers them.
//!
//! Object kinds are a closed set of short codes: `ns` (Namespace) and `no`
//! (Node) are cluster-scoped, `po` (Pod) is namespaced.

use vstd::prelude::*;

use crate::bytes::{bytes_eq, bytes_range, clone_bytes};

verus! {

/// The byte `.`.
pub const B_DOT: u8 = 46;

/// The byte `_`.
pub const B_UNDERSCORE: u8 = 95;

/// The byte `a`.
pub const B_A: u8 = 97;

/// The byte `l`.
pub const B_L: u8 = 108;

/// The byte `m`.
pub const B_M: u8 = 109;

/// The byte `n`.
pub const B_N: u8 = 110;

/// The byte `o`.
pub const B_O: u8 = 111;

/// The byte `p`.
pub const B_P: u8 = 112;

/// The byte `s`.
pub const B_S: u8 = 115;

/// The byte `y`.
pub const B_Y: u8 = 121;

/// What the kernel sees an entry as: a directory or a regular file.
#[derive(Clone, Copy, PartialEq, Eq, Structural, Debug)]
pub enum EntryClass {
    Directory,
    Regular,
}

/// Specification-level value of an [`Entry`]: the same shape over `Seq<u8>`.
pub enum EntryModel {
    Mountpoint,
    FreestandingDir,
    NamespaceDir { name: Seq<u8> },
    ObjectFreestanding { name: Seq<u8>, kind: Seq<u8> },
    ObjectNamespaced { namespace: Seq<u8>, name: Seq<u8>, kind: Seq<u8> },
}

/// One logical node of the virtual filesystem tree.
pub enum Entry {
    /// The mount root (`/`). Always bound to inode 1.
    Mountpoint,
    /// The directory of cluster-scoped objects (`/_/`). Always bound to inode 2.
    FreestandingDir,
    /// A namespace directory (`/<name>/`).
    NamespaceDir { name: Vec<u8> },
    /// A cluster-scoped object file (`/_/<name>.<kind>.yaml`).
    ObjectFreestanding { name: Vec<u8>, kind: Vec<u8> },
    /// A namespaced object file (`/<namespace>/<name>.<kind>.yaml`).
    ObjectNamespaced { namespace: Vec<u8>, name: Vec<u8>, kind: Vec<u8> },
}

impl View for Entry {
    type V = EntryModel;

    open spec fn view(&self) -> EntryModel {
        match self {
            Entry::Mountpoint => EntryModel::Mountpoint,
            Entry::FreestandingDir => EntryModel::FreestandingDir,
            Entry::NamespaceDir { name } => EntryModel::NamespaceDir { name: name@ },
            Entry::ObjectFreestanding { name, kind } => EntryModel::ObjectFreestanding {
                name: name@,
                kind: kind@,
            },
            Entry::ObjectNamespaced { namespace, name, kind } => EntryModel::ObjectNamespaced {
                namespace: namespace@,
                name: name@,
                kind: kind@,
            },
        }
    }
}

/// The file-name suffix `.yaml` shared by every object entry.
pub open spec fn yaml_suffix() -> Seq<u8> {
    seq![B_DOT, B_Y, B_A, B_M, B_L]
}

/// Short code of the Namespace kind (cluster-scoped).
pub open spec fn kind_ns() -> Seq<u8> {
    seq![B_N, B_S]
}

/// Short code of the Node kind (cluster-scoped).
pub open spec fn kind_no() -> Seq<u8> {
    seq![B_N, B_O]
}

/// Short code of the Pod kind (namespaced).
pub open spec fn kind_po() -> Seq<u8> {
    seq![B_P, B_O]
}

/// The configured cluster-scoped kinds: objects of these appear under `_/`.
pub open spec fn is_cluster_scoped_kind(k: Seq<u8>) -> bool {
    k == kind_ns() || k == kind_no()
}

/// The configured namespaced kinds: objects of these appear under their namespace.
pub open spec fn is_namespaced_kind(k: Seq<u8>) -> bool {
    k == kind_po()
}

/// The file name of an object entry: `<name>.<kind>.yaml`.
pub open spec fn object_file_name(name: Seq<u8>, kind: Seq<u8>) -> Seq<u8> {
    name + seq![B_DOT] + kind + yaml_suffix()
}

impl EntryModel {
    /// Directories of the tree: the root, `_/`, and each namespace directory.
    pub open spec fn is_dir(self) -> bool {
        match self {
            EntryModel::Mountpoint => true,
            EntryModel::FreestandingDir => true,
            EntryModel::NamespaceDir { .. } => true,
            _ => false,
        }
    }

    /// Regular files of the tree: the object entries.
    pub open spec fn is_regular(self) -> bool {
        match self {
            EntryModel::ObjectFreestanding { .. } => true,
            EntryModel::ObjectNamespaced { .. } => true,
            _ => false,
        }
    }

    /// The classification of an entry.
    pub open spec fn classify(self) -> EntryClass {
        if self.is_dir() {
            EntryClass::Directory
        } else {
            EntryClass::Regular
        }
    }

    /// The name under which an entry appears in its parent directory.
    /// The mount root is never listed as a child and has no name.
    pub open spec fn file_name(self) -> Seq<u8>
        recommends
            self != EntryModel::Mountpoint,
    {
        match self {
            EntryModel::Mountpoint => Seq::empty(),
            EntryModel::FreestandingDir => seq![B_UNDERSCORE],
            EntryModel::NamespaceDir { name } => name,
            EntryModel::ObjectFreestanding { name, kind } => object_file_name(name, kind),
            EntryModel::ObjectNamespaced { name, kind, .. } => object_file_name(name, kind),
        }
    }

    /// The directory under which an entry is listed. The root is its own parent.
    pub open spec fn parent_of(self) -> EntryModel {
        match self {
            EntryModel::Mountpoint => EntryModel::Mountpoint,
            EntryModel::FreestandingDir => EntryModel::Mountpoint,
            EntryModel::NamespaceDir { .. } => EntryModel::Mountpoint,
            EntryModel::ObjectFreestanding { .. } => EntryModel::FreestandingDir,
            EntryModel::ObjectNamespaced { namespace, .. } => EntryModel::NamespaceDir {
                name: namespace,
            },
        }
    }

    /// An object entry whose kind belongs to the set its parent directory serves.
    pub open spec fn object_well_formed(self) -> bool {
        match self {
            EntryModel::ObjectFreestanding { kind, .. } => is_cluster_scoped_kind(kind),
            EntryModel::ObjectNamespaced { kind, .. } => is_namespaced_kind(kind),
            _ => false,
        }
    }
}

/// Index of the last `.` in a byte string, or `-1` when it has none.
pub open spec fn last_dot(s: Seq<u8>) -> int
    decreases s.len(),
{
    if s.len() == 0 {
        -1
    } else if s[s.len() - 1] == B_DOT {
        s.len() - 1
    } else {
        last_dot(s.drop_last())
    }
}

/// Splitting an object file name from the right on `.`: the final segment
/// must be `yaml`, the segment before it is the kind, and everything before
/// that (which may itself contain dots) is the object name.
pub open spec fn parse_object_name(n: Seq<u8>) -> Option<(Seq<u8>, Seq<u8>)> {
    let d1 = last_dot(n);
    if d1 >= 0 && n.subrange(d1, n.len() as int) == yaml_suffix() {
        let d2 = last_dot(n.subrange(0, d1));
        if d2 >= 0 {
            Some((n.subrange(0, d2), n.subrange(d2 + 1, d1)))
        } else {
            None
        }
    } else {
        None
    }
}

/// Interpretation of a child name in the context of a parent directory.
///
/// Under the root, `_` names the freestanding directory and any other name is
/// a namespace-directory candidate (whether that namespace exists is the
/// dispatcher's concern). Under `_/` and under a namespace directory, the
/// name must parse as `<name>.<kind>.yaml` with a kind that the directory
/// serves. A file has no children.
pub open spec fn parse_child_name_model(parent: EntryModel, name: Seq<u8>) -> Option<EntryModel> {
    match parent {
        EntryModel::Mountpoint => if name == seq![B_UNDERSCORE] {
            Some(EntryModel::FreestandingDir)
        } else {
            Some(EntryModel::NamespaceDir { name })
        },
        EntryModel::FreestandingDir => match parse_object_name(name) {
            Some((n, k)) => if is_cluster_scoped_kind(k) {
                Some(EntryModel::ObjectFreestanding { name: n, kind: k })
            } else {
                None
            },
            None => None,
        },
        EntryModel::NamespaceDir { name: ns } => match parse_object_name(name) {
            Some((n, k)) => if is_namespaced_kind(k) {
                Some(EntryModel::ObjectNamespaced { namespace: ns, name: n, kind: k })
            } else {
                None
            },
            None => None,
        },
        _ => None,
    }
}

proof fn lemma_last_dot_bounds(s: Seq<u8>)
    ensures
        -1 <= last_dot(s) < s.len(),
        last_dot(s) >= 0 ==> s[last_dot(s)] == B_DOT,
        forall|j: int| last_dot(s) < j < s.len() ==> s[j] != B_DOT,
    decreases s.len(),
{
    if s.len() == 0 {
    } else if s[s.len() - 1] == B_DOT {
    } else {
        lemma_last_dot_bounds(s.drop_last());
        assert(forall|j: int| last_dot(s) < j < s.len() - 1 ==> s.drop_last()[j] == s[j]);
    }
}

proof fn lemma_last_dot_append(a: Seq<u8>, b: Seq<u8>)
    ensures
        last_dot(a + b) == if last_dot(b) >= 0 {
            a.len() + last_dot(b)
        } else {
            last_dot(a)
        },
    decreases b.len(),
{
    if b.len() == 0 {
        assert(a + b =~= a);
    } else {
        let ab = a + b;
        assert(ab[ab.len() - 1] == b[b.len() - 1]);
        if b[b.len() - 1] == B_DOT {
        } else {
            assert(ab.drop_last() =~= a + b.drop_last());
            lemma_last_dot_append(a, b.drop_last());
        }
    }
}

/// A two-byte string without a dot has no dot.
proof fn lemma_last_dot_pair(a: u8, b: u8)
    requires
        a != B_DOT,
        b != B_DOT,
    ensures
        last_dot(seq![a, b]) == -1,
{
    let s = seq![a, b];
    assert(s.drop_last() =~= seq![a]);
    assert(seq![a].drop_last() =~= Seq::<u8>::empty());
    assert(last_dot(Seq::<u8>::empty()) == -1);
    assert(seq![a].len() == 1 && seq![a][0] == a);
    assert(last_dot(seq![a]) == -1);
    assert(s.len() == 2 && s[1] == b);
    assert(last_dot(s) == last_dot(seq![a]));
}

proof fn lemma_last_dot_yaml()
    ensures
        last_dot(yaml_suffix()) == 0,
{
    let s = yaml_suffix();
    assert(s.drop_last() =~= seq![B_DOT, B_Y, B_A, B_M]);
    assert(seq![B_DOT, B_Y, B_A, B_M].drop_last() =~= seq![B_DOT, B_Y, B_A]);
    assert(seq![B_DOT, B_Y, B_A].drop_last() =~= seq![B_DOT, B_Y]);
    assert(seq![B_DOT, B_Y].drop_last() =~= seq![B_DOT]);
    assert(seq![B_DOT].len() == 1 && seq![B_DOT][0] == B_DOT);
    assert(last_dot(seq![B_DOT]) == 0);
    assert(seq![B_DOT, B_Y].len() == 2 && seq![B_DOT, B_Y][1] == B_Y);
    assert(last_dot(seq![B_DOT, B_Y]) == 0);
    assert(seq![B_DOT, B_Y, B_A][2] == B_A);
    assert(last_dot(seq![B_DOT, B_Y, B_A]) == 0);
    assert(seq![B_DOT, B_Y, B_A, B_M][3] == B_M);
    assert(last_dot(seq![B_DOT, B_Y, B_A, B_M]) == 0);
    assert(s.len() == 5 && s[4] == B_L);
    assert(last_dot(s) == 0);
}

proof fn lemma_last_dot_single_dot()
    ensures
        last_dot(seq![B_DOT]) == 0,
{
}

/// File names round-trip: parsing the file name of a well-formed object
/// entry, in the context of that entry's parent directory, yields the entry
/// itself.
pub proof fn lemma_file_name_round_trip(e: EntryModel)
    requires
        e.is_regular(),
        e.object_well_formed(),
    ensures
        parse_child_name_model(e.parent_of(), e.file_name()) == Some(e),
{
    let (name, kind) = match e {
        EntryModel::ObjectFreestanding { name, kind } => (name, kind),
        EntryModel::ObjectNamespaced { name, kind, .. } => (name, kind),
        _ => (arbitrary(), arbitrary()),
    };
    let n = object_file_name(name, kind);
    let head = name + seq![B_DOT] + kind;

    assert(kind[0] != B_DOT && kind[1] != B_DOT && kind.len() == 2);
    lemma_last_dot_pair(kind[0], kind[1]);
    assert(kind =~= seq![kind[0], kind[1]]);
    lemma_last_dot_yaml();
    lemma_last_dot_single_dot();

    // The last dot of the whole name is the one that starts `.yaml`.
    lemma_last_dot_append(head, yaml_suffix());
    assert(n == head + yaml_suffix());
    let d1 = last_dot(n);
    assert(d1 == head.len());
    assert(n.subrange(d1, n.len() as int) =~= yaml_suffix());

    // The dot before it is the separator between name and kind.
    assert(n.subrange(0, d1) =~= head);
    lemma_last_dot_append(name + seq![B_DOT], kind);
    lemma_last_dot_append(name, seq![B_DOT]);
    assert(head =~= (name + seq![B_DOT]) + kind);
    let d2 = last_dot(n.subrange(0, d1));
    assert(d2 == name.len());

    assert(n.subrange(0, d2) =~= name);
    assert(n.subrange(d2 + 1, d1) =~= kind);
}

impl Entry {
    /// True for the directory entries (root, `_/`, namespace directories).
    pub fn is_dir(&self) -> (r: bool)
        ensures
            r == self@.is_dir(),
    {
        match self {
            Entry::Mountpoint => true,
            Entry::FreestandingDir => true,
            Entry::NamespaceDir { .. } => true,
            _ => false,
        }
    }

    /// True for the object entries, which appear as regular files.
    pub fn is_regular(&self) -> (r: bool)
        ensures
            r == self@.is_regular(),
    {
        match self {
            Entry::ObjectFreestanding { .. } => true,
            Entry::ObjectNamespaced { .. } => true,
            _ => false,
        }
    }

    /// Classifies this entry as the kernel's directory / regular-file split.
    pub fn classify(&self) -> (r: EntryClass)
        ensures
            r == self@.classify(),
    {
        if self.is_dir() {
            EntryClass::Directory
        } else {
            EntryClass::Regular
        }
    }

    /// Copies an entry.
    pub fn clone_entry(&self) -> (r: Entry)
        ensures
            r@ == self@,
    {
        match self {
            Entry::Mountpoint => Entry::Mountpoint,
            Entry::FreestandingDir => Entry::FreestandingDir,
            Entry::NamespaceDir { name } => Entry::NamespaceDir { name: clone_bytes(name) },
            Entry::ObjectFreestanding { name, kind } => Entry::ObjectFreestanding {
                name: clone_bytes(name),
                kind: clone_bytes(kind),
            },
            Entry::ObjectNamespaced { namespace, name, kind } => Entry::ObjectNamespaced {
                namespace: clone_bytes(namespace),
                name: clone_bytes(name),
                kind: clone_bytes(kind),
            },
        }
    }

    /// Compares two entries for equality of their logical values.
    pub fn entry_eq(&self, other: &Entry) -> (r: bool)
        ensures
            r == (self@ == other@),
    {
        match (self, other) {
            (Entry::Mountpoint, Entry::Mountpoint) => true,
            (Entry::FreestandingDir, Entry::FreestandingDir) => true,
            (Entry::NamespaceDir { name: n1 }, Entry::NamespaceDir { name: n2 }) => bytes_eq(
                n1,
                n2,
            ),
            (
                Entry::ObjectFreestanding { name: n1, kind: k1 },
                Entry::ObjectFreestanding { name: n2, kind: k2 },
            ) => bytes_eq(n1, n2) && bytes_eq(k1, k2),
            (
                Entry::ObjectNamespaced { namespace: s1, name: n1, kind: k1 },
                Entry::ObjectNamespaced { namespace: s2, name: n2, kind: k2 },
            ) => bytes_eq(s1, s2) && bytes_eq(n1, n2) && bytes_eq(k1, k2),
            _ => false,
        }
    }

    /// The name under which this entry appears in its parent directory.
    pub fn file_name(&self) -> (r: Vec<u8>)
        requires
            self@ != EntryModel::Mountpoint,
        ensures
            r@ == self@.file_name(),
    {
        match self {
            Entry::Mountpoint => {
                proof {
                    assert(false);
                }
                Vec::new()
            },
            Entry::FreestandingDir => {
                let mut v: Vec<u8> = Vec::new();
                v.push(B_UNDERSCORE);
                proof {
                    assert(v@ =~= seq![B_UNDERSCORE]);
                }
                v
            },
            Entry::NamespaceDir { name } => clone_bytes(name),
            Entry::ObjectFreestanding { name, kind } => build_object_file_name(name, kind),
            Entry::ObjectNamespaced { name, kind, .. } => build_object_file_name(name, kind),
        }
    }
}

/// Builds `<name>.<kind>.yaml`.
pub fn build_object_file_name(name: &Vec<u8>, kind: &Vec<u8>) -> (r: Vec<u8>)
    ensures
        r@ == object_file_name(name@, kind@),
{
    let mut out = clone_bytes(name);
    out.push(B_DOT);
    let mut i: usize = 0;
    while i < kind.len()
        invariant
            i <= kind.len(),
            out@ == name@ + seq![B_DOT] + kind@.subrange(0, i as int),
        decreases kind.len() - i,
    {
        out.push(kind[i]);
        i = i + 1;
        proof {
            assert(out@ =~= name@ + seq![B_DOT] + kind@.subrange(0, i as int));
        }
    }
    proof {
        assert(kind@.subrange(0, kind@.len() as int) =~= kind@);
    }
    out.push(B_DOT);
    out.push(B_Y);
    out.push(B_A);
    out.push(B_M);
    out.push(B_L);
    proof {
        assert(out@ =~= object_file_name(name@, kind@));
    }
    out
}

/// Finds the last `.` strictly before `end`.
fn find_last_dot(n: &Vec<u8>, end: usize) -> (r: Option<usize>)
    requires
        end <= n@.len(),
    ensures
        match r {
            Some(i) => i < end && last_dot(n@.subrange(0, end as int)) == i as int,
            None => last_dot(n@.subrange(0, end as int)) == -1,
        },
{
    let mut i: usize = end;
    while i > 0
        invariant
            i <= end <= n@.len(),
            last_dot(n@.subrange(0, end as int)) == last_dot(n@.subrange(0, i as int)),
        decreases i,
    {
        if n[i - 1] == B_DOT {
            proof {
                assert(n@.subrange(0, i as int)[i - 1] == B_DOT);
            }
            return Some(i - 1);
        }
        proof {
            assert(n@.subrange(0, i as int).drop_last() =~= n@.subrange(0, i - 1));
            assert(n@.subrange(0, i as int)[i - 1] != B_DOT);
        }
        i = i - 1;
    }
    proof {
        assert(n@.subrange(0, 0) =~= Seq::<u8>::empty());
    }
    None
}

/// Splits `<name>.<kind>.yaml` from the right, returning the object name
/// (which may contain dots) and the kind.
pub fn parse_object_name_bytes(n: &Vec<u8>) -> (r: Option<(Vec<u8>, Vec<u8>)>)
    ensures
        match r {
            Some(p) => parse_object_name(n@) == Some((p.0@, p.1@)),
            None => parse_object_name(n@) is None,
        },
{
    proof {
        assert(n@.subrange(0, n@.len() as int) =~= n@);
    }
    let d1 = match find_last_dot(n, n.len()) {
        Some(d1) => d1,
        None => {
            return None;
        },
    };
    if n.len() - d1 != 5 {
        proof {
            assert(n@.subrange(d1 as int, n@.len() as int).len() != yaml_suffix().len());
        }
        return None;
    }
    if n[d1 + 1] != B_Y || n[d1 + 2] != B_A || n[d1 + 3] != B_M || n[d1 + 4] != B_L {
        proof {
            assert(n@.subrange(d1 as int, n@.len() as int) != yaml_suffix()) by {
                if n@.subrange(d1 as int, n@.len() as int) == yaml_suffix() {
                    assert(n@.subrange(d1 as int, n@.len() as int)[1] == B_Y);
                    assert(n@.subrange(d1 as int, n@.len() as int)[2] == B_A);
                    assert(n@.subrange(d1 as int, n@.len() as int)[3] == B_M);
                    assert(n@.subrange(d1 as int, n@.len() as int)[4] == B_L);
                }
            }
        }
        return None;
    }
    proof {
        lemma_last_dot_bounds(n@);
        assert(n@.subrange(d1 as int, n@.len() as int) =~= yaml_suffix());
    }
    match find_last_dot(n, d1) {
        Some(d2) => {
            let nm = bytes_range(n, 0, d2);
            let k = bytes_range(n, d2 + 1, d1);
            Some((nm, k))
        },
        None => None,
    }
}

/// True when `k` is the Namespace short code.
pub fn is_kind_ns(k: &Vec<u8>) -> (r: bool)
    ensures
        r == (k@ == kind_ns()),
{
    let r = k.len() == 2 && k[0] == B_N && k[1] == B_S;
    proof {
        if r {
            assert(k@ =~= kind_ns());
        }
    }
    r
}

/// True when `k` is the Node short code.
pub fn is_kind_no(k: &Vec<u8>) -> (r: bool)
    ensures
        r == (k@ == kind_no()),
{
    let r = k.len() == 2 && k[0] == B_N && k[1] == B_O;
    proof {
        if r {
            assert(k@ =~= kind_no());
        }
    }
    r
}

/// True when `k` is the Pod short code.
pub fn is_kind_po(k: &Vec<u8>) -> (r: bool)
    ensures
        r == (k@ == kind_po()),
{
    let r = k.len() == 2 && k[0] == B_P && k[1] == B_O;
    proof {
        if r {
            assert(k@ =~= kind_po());
        }
    }
    r
}

/// Interprets a child name in the context of a parent directory.
pub fn parse_child_name(parent: &Entry, name: &Vec<u8>) -> (r: Option<Entry>)
    ensures
        match r {
            Some(e) => parse_child_name_model(parent@, name@) == Some(e@),
            None => parse_child_name_model(parent@, name@) is None,
        },
{
    match parent {
        Entry::Mountpoint => {
            if name.len() == 1 && name[0] == B_UNDERSCORE {
                proof {
                    assert(name@ =~= seq![B_UNDERSCORE]);
                }
                Some(Entry::FreestandingDir)
            } else {
                proof {
                    assert(name@ != seq![B_UNDERSCORE]) by {
                        if name@ == seq![B_UNDERSCORE] {
                            assert(name@.len() == 1);
                            assert(name@[0] == B_UNDERSCORE);
                        }
                    }
                }
                Some(Entry::NamespaceDir { name: clone_bytes(name) })
            }
        },
        Entry::FreestandingDir => {
            match parse_object_name_bytes(name) {
                Some((nm, k)) => {
                    if is_kind_ns(&k) || is_kind_no(&k) {
                        Some(Entry::ObjectFreestanding { name: nm, kind: k })
                    } else {
                        None
                    }
                },
                None => None,
            }
        },
        Entry::NamespaceDir { name: ns } => {
            match parse_object_name_bytes(name) {
                Some((nm, k)) => {
                    if is_kind_po(&k) {
                        Some(
                            Entry::ObjectNamespaced {
                                namespace: clone_bytes(ns),
                                name: nm,
                                kind: k,
                            },
                        )
                    } else {
                        None
                    }
                },
                None => None,
            }
        },
        _ => None,
    }
}

} // verus!
