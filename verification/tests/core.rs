//! End-to-end scenarios against a deterministic mock cluster, plus unit
//! tests of the naming rules and the registry.

use f8s::dispatch::{resume, step, FsState};
use f8s::entry::{parse_object_name_bytes, Entry, EntryClass};
use f8s::registry::{Registry, FH_START, INO_FREESTANDING, INO_ROOT};
use f8s::wire::{
    Errno, Pending, Query, QueryResult, Reply, Request, Step, DT_DIR, DT_REG, MODE_DIR, MODE_REG,
    PLACEHOLDER_FILE_SIZE, TTL_LONG_SECS, TTL_SHORT_SECS,
};

struct Fixture {
    namespaces: Vec<Vec<u8>>,
    nodes: Vec<Vec<u8>>,
    pods: Vec<(Vec<u8>, Vec<Vec<u8>>)>,
    bodies: Vec<(Option<Vec<u8>>, Vec<u8>, Vec<u8>, Vec<u8>)>,
}

fn fixture() -> Fixture {
    Fixture {
        namespaces: vec![b"default".to_vec(), b"kube-system".to_vec()],
        nodes: vec![b"worker-1".to_vec()],
        pods: vec![
            (
                b"kube-system".to_vec(),
                vec![b"coredns-x".to_vec(), b"coredns-y".to_vec()],
            ),
            (b"default".to_vec(), vec![b"my.app".to_vec()]),
        ],
        bodies: vec![
            (
                None,
                b"ns".to_vec(),
                b"default".to_vec(),
                b"kind: Namespace\nmetadata:\n  name: default\n".to_vec(),
            ),
            (
                Some(b"kube-system".to_vec()),
                b"po".to_vec(),
                b"coredns-x".to_vec(),
                b"kind: Pod\nmetadata:\n  name: coredns-x\n".to_vec(),
            ),
        ],
    }
}

fn answer(fix: &Fixture, query: &Query) -> QueryResult {
    match query {
        Query::ListNamespaces => QueryResult::Names {
            names: fix.namespaces.clone(),
        },
        Query::ListClusterScoped { kind } => {
            if kind == b"ns" {
                QueryResult::Names {
                    names: fix.namespaces.clone(),
                }
            } else if kind == b"no" {
                QueryResult::Names {
                    names: fix.nodes.clone(),
                }
            } else {
                QueryResult::Names { names: vec![] }
            }
        }
        Query::ListNamespaced { namespace, kind } => {
            if kind == b"po" {
                for (ns, pods) in &fix.pods {
                    if ns == namespace {
                        return QueryResult::Names { names: pods.clone() };
                    }
                }
            }
            QueryResult::Names { names: vec![] }
        }
        Query::GetObject {
            namespace,
            kind,
            name,
        } => {
            for (ns, k, n, body) in &fix.bodies {
                if ns == namespace && k == kind && n == name {
                    return QueryResult::Body { bytes: body.clone() };
                }
            }
            QueryResult::NotFound
        }
    }
}

fn drive(s: &mut FsState, req: Request, fix: &Fixture) -> Reply {
    let mut st = step(s, req);
    loop {
        match st {
            Step::Done { reply } => return reply,
            Step::Need { query, pending } => {
                let qr = answer(fix, &query);
                st = resume(s, pending, qr);
            }
        }
    }
}

fn fresh() -> FsState {
    FsState::new(1000, 1000)
}

fn opendir_fh(s: &mut FsState, ino: u64, fix: &Fixture) -> u64 {
    match drive(s, Request::Opendir { ino }, fix) {
        Reply::Opened { fh, direct_io } => {
            assert!(direct_io);
            fh
        }
        other => panic!("opendir did not open: {:?}", reply_tag(&other)),
    }
}

fn readdir_all(s: &mut FsState, fh: u64, fix: &Fixture) -> Vec<(Vec<u8>, u64, u32)> {
    match drive(
        s,
        Request::Readdir {
            fh,
            offset: 0,
            size: 65536,
            plus: false,
        },
        fix,
    ) {
        Reply::Dir { entries } => entries
            .into_iter()
            .map(|e| (e.name, e.ino, e.dtype))
            .collect(),
        other => panic!("readdir failed: {:?}", reply_tag(&other)),
    }
}

fn reply_tag(r: &Reply) -> &'static str {
    match r {
        Reply::Attr { .. } => "attr",
        Reply::Entry { .. } => "entry",
        Reply::Opened { .. } => "opened",
        Reply::Dir { .. } => "dir",
        Reply::Data { .. } => "data",
        Reply::Empty => "empty",
        Reply::Error { .. } => "error",
    }
}

fn expect_errno(r: Reply) -> Errno {
    match r {
        Reply::Error { errno } => errno,
        other => panic!("expected an error, got {:?}", reply_tag(&other)),
    }
}

#[test]
fn root_listing_order_and_fixed_inodes() {
    let fix = fixture();
    let mut s = fresh();
    let fh = opendir_fh(&mut s, INO_ROOT, &fix);
    let rows = readdir_all(&mut s, fh, &fix);
    let names: Vec<&[u8]> = rows.iter().map(|r| r.0.as_slice()).collect();
    assert_eq!(
        names,
        vec![
            b".".as_slice(),
            b"..".as_slice(),
            b"_".as_slice(),
            b"default".as_slice(),
            b"kube-system".as_slice()
        ]
    );
    assert_eq!(rows[0].1, INO_ROOT);
    assert_eq!(rows[1].1, INO_ROOT);
    assert_eq!(rows[2].1, INO_FREESTANDING);
    assert!(rows[3].1 >= 3);
    assert!(rows[4].1 >= 3);
    assert_ne!(rows[3].1, rows[4].1);
    for r in &rows {
        assert_eq!(r.2, DT_DIR);
    }
}

#[test]
fn root_listing_inodes_are_stable_across_opendirs() {
    let fix = fixture();
    let mut s = fresh();
    let fh1 = opendir_fh(&mut s, INO_ROOT, &fix);
    let rows1 = readdir_all(&mut s, fh1, &fix);
    let fh2 = opendir_fh(&mut s, INO_ROOT, &fix);
    let rows2 = readdir_all(&mut s, fh2, &fix);
    assert_ne!(fh1, fh2);
    assert_eq!(rows1.len(), rows2.len());
    for (a, b) in rows1.iter().zip(rows2.iter()) {
        assert_eq!(a.0, b.0);
        assert_eq!(a.1, b.1);
    }
}

#[test]
fn freestanding_listing_groups_kinds_in_order() {
    let fix = fixture();
    let mut s = fresh();
    let fh = opendir_fh(&mut s, INO_FREESTANDING, &fix);
    let rows = readdir_all(&mut s, fh, &fix);
    let names: Vec<&[u8]> = rows.iter().map(|r| r.0.as_slice()).collect();
    assert_eq!(
        names,
        vec![
            b".".as_slice(),
            b"..".as_slice(),
            b"default.ns.yaml".as_slice(),
            b"kube-system.ns.yaml".as_slice(),
            b"worker-1.no.yaml".as_slice()
        ]
    );
    assert_eq!(rows[0].1, INO_FREESTANDING);
    assert_eq!(rows[1].1, INO_ROOT);
    for r in rows.iter().skip(2) {
        assert_eq!(r.2, DT_REG);
    }
}

#[test]
fn namespaced_listing_lists_pods() {
    let fix = fixture();
    let mut s = fresh();
    let ns_ino = match drive(
        &mut s,
        Request::Lookup {
            parent: INO_ROOT,
            name: b"kube-system".to_vec(),
        },
        &fix,
    ) {
        Reply::Entry { ino, .. } => ino,
        other => panic!("lookup failed: {:?}", reply_tag(&other)),
    };
    let fh = opendir_fh(&mut s, ns_ino, &fix);
    let rows = readdir_all(&mut s, fh, &fix);
    let names: Vec<&[u8]> = rows.iter().map(|r| r.0.as_slice()).collect();
    assert_eq!(
        names,
        vec![
            b".".as_slice(),
            b"..".as_slice(),
            b"coredns-x.po.yaml".as_slice(),
            b"coredns-y.po.yaml".as_slice()
        ]
    );
    assert_eq!(rows[0].1, ns_ino);
    assert_eq!(rows[1].1, INO_ROOT);
    assert_eq!(rows[2].2, DT_REG);
    assert_eq!(rows[3].2, DT_REG);
}

#[test]
fn freestanding_object_lookup_getattr_open_read() {
    let fix = fixture();
    let mut s = fresh();
    let ino = match drive(
        &mut s,
        Request::Lookup {
            parent: INO_FREESTANDING,
            name: b"default.ns.yaml".to_vec(),
        },
        &fix,
    ) {
        Reply::Entry {
            ino,
            attr,
            ttl_secs,
        } => {
            assert_eq!(attr.mode, MODE_REG);
            assert_eq!(attr.nlink, 1);
            assert_eq!(ttl_secs, TTL_SHORT_SECS);
            ino
        }
        other => panic!("lookup failed: {:?}", reply_tag(&other)),
    };
    assert!(ino >= 3);
    match drive(&mut s, Request::Getattr { ino }, &fix) {
        Reply::Attr { attr, ttl_secs } => {
            assert_eq!(attr.mode, MODE_REG);
            assert_eq!(attr.ino, ino);
            assert_eq!(attr.uid, 1000);
            assert_eq!(attr.gid, 1000);
            assert_eq!(attr.size, PLACEHOLDER_FILE_SIZE);
            assert_eq!(ttl_secs, TTL_SHORT_SECS);
        }
        other => panic!("getattr failed: {:?}", reply_tag(&other)),
    }
    let fh = match drive(
        &mut s,
        Request::Open { ino, write: false },
        &fix,
    ) {
        Reply::Opened { fh, direct_io } => {
            assert!(direct_io);
            fh
        }
        other => panic!("open failed: {:?}", reply_tag(&other)),
    };
    match drive(
        &mut s,
        Request::Read {
            fh,
            offset: 0,
            size: 65536,
        },
        &fix,
    ) {
        Reply::Data { bytes } => {
            assert_eq!(bytes, b"kind: Namespace\nmetadata:\n  name: default\n".to_vec());
        }
        other => panic!("read failed: {:?}", reply_tag(&other)),
    }
}

#[test]
fn read_at_and_past_end_returns_zero_bytes() {
    let fix = fixture();
    let mut s = fresh();
    let ino = match drive(
        &mut s,
        Request::Lookup {
            parent: INO_FREESTANDING,
            name: b"default.ns.yaml".to_vec(),
        },
        &fix,
    ) {
        Reply::Entry { ino, .. } => ino,
        other => panic!("lookup failed: {:?}", reply_tag(&other)),
    };
    let fh = match drive(&mut s, Request::Open { ino, write: false }, &fix) {
        Reply::Opened { fh, .. } => fh,
        other => panic!("open failed: {:?}", reply_tag(&other)),
    };
    let body_len = b"kind: Namespace\nmetadata:\n  name: default\n".len() as u64;
    for offset in [body_len, body_len + 1, 10_000] {
        match drive(
            &mut s,
            Request::Read {
                fh,
                offset,
                size: 4096,
            },
            &fix,
        ) {
            Reply::Data { bytes } => assert!(bytes.is_empty()),
            other => panic!("read failed: {:?}", reply_tag(&other)),
        }
    }
    match drive(
        &mut s,
        Request::Read {
            fh,
            offset: 6,
            size: 9,
        },
        &fix,
    ) {
        Reply::Data { bytes } => assert_eq!(bytes, b"Namespace".to_vec()),
        other => panic!("read failed: {:?}", reply_tag(&other)),
    }
}

#[test]
fn readdir_past_end_is_empty_reply() {
    let fix = fixture();
    let mut s = fresh();
    let fh = opendir_fh(&mut s, INO_ROOT, &fix);
    match drive(
        &mut s,
        Request::Readdir {
            fh,
            offset: 100,
            size: 65536,
            plus: false,
        },
        &fix,
    ) {
        Reply::Dir { entries } => assert!(entries.is_empty()),
        other => panic!("readdir failed: {:?}", reply_tag(&other)),
    }
}

#[test]
fn readdir_respects_the_size_limit() {
    let fix = fixture();
    let mut s = fresh();
    let fh = opendir_fh(&mut s, INO_ROOT, &fix);
    // "." and ".." each serialize to 32 bytes (24-byte header plus the name,
    // padded to 8), so a 64-byte buffer holds exactly two rows.
    match drive(
        &mut s,
        Request::Readdir {
            fh,
            offset: 0,
            size: 64,
            plus: false,
        },
        &fix,
    ) {
        Reply::Dir { entries } => {
            assert_eq!(entries.len(), 2);
            assert_eq!(entries[0].name, b".".to_vec());
            assert_eq!(entries[0].off, 1);
            assert_eq!(entries[1].name, b"..".to_vec());
            assert_eq!(entries[1].off, 2);
        }
        other => panic!("readdir failed: {:?}", reply_tag(&other)),
    }
    // Resuming at the replied offset returns the next rows.
    match drive(
        &mut s,
        Request::Readdir {
            fh,
            offset: 2,
            size: 65536,
            plus: false,
        },
        &fix,
    ) {
        Reply::Dir { entries } => {
            assert_eq!(entries[0].name, b"_".to_vec());
            assert_eq!(entries[0].off, 3);
        }
        other => panic!("readdir failed: {:?}", reply_tag(&other)),
    }
}

#[test]
fn readdirplus_is_not_implemented() {
    let fix = fixture();
    let mut s = fresh();
    let fh = opendir_fh(&mut s, INO_ROOT, &fix);
    let r = drive(
        &mut s,
        Request::Readdir {
            fh,
            offset: 0,
            size: 65536,
            plus: true,
        },
        &fix,
    );
    assert_eq!(expect_errno(r), Errno::Enosys);
}

#[test]
fn embedded_dots_split_on_the_last_two() {
    let parsed = parse_object_name_bytes(&b"my.app.po.yaml".to_vec());
    let (name, kind) = parsed.expect("well-formed object name");
    assert_eq!(name, b"my.app".to_vec());
    assert_eq!(kind, b"po".to_vec());
    assert!(parse_object_name_bytes(&b"x.yaml".to_vec()).is_none());
    assert!(parse_object_name_bytes(&b"noyaml".to_vec()).is_none());
    assert_eq!(
        parse_object_name_bytes(&b"a.b.c.po.yaml".to_vec()),
        Some((b"a.b.c".to_vec(), b"po".to_vec()))
    );
}

#[test]
fn lookup_with_embedded_dots_finds_the_pod() {
    let fix = fixture();
    let mut s = fresh();
    let ns_ino = match drive(
        &mut s,
        Request::Lookup {
            parent: INO_ROOT,
            name: b"default".to_vec(),
        },
        &fix,
    ) {
        Reply::Entry { ino, .. } => ino,
        other => panic!("lookup failed: {:?}", reply_tag(&other)),
    };
    match drive(
        &mut s,
        Request::Lookup {
            parent: ns_ino,
            name: b"my.app.po.yaml".to_vec(),
        },
        &fix,
    ) {
        Reply::Entry { attr, .. } => assert_eq!(attr.mode, MODE_REG),
        other => panic!("lookup failed: {:?}", reply_tag(&other)),
    }
}

#[test]
fn lookup_under_root_replies_fixed_and_short_ttls() {
    let fix = fixture();
    let mut s = fresh();
    match drive(
        &mut s,
        Request::Lookup {
            parent: INO_ROOT,
            name: b"_".to_vec(),
        },
        &fix,
    ) {
        Reply::Entry {
            ino,
            attr,
            ttl_secs,
        } => {
            assert_eq!(ino, INO_FREESTANDING);
            assert_eq!(attr.mode, MODE_DIR);
            assert_eq!(attr.nlink, 2);
            assert_eq!(ttl_secs, TTL_LONG_SECS);
        }
        other => panic!("lookup failed: {:?}", reply_tag(&other)),
    }
    match drive(
        &mut s,
        Request::Lookup {
            parent: INO_ROOT,
            name: b"default".to_vec(),
        },
        &fix,
    ) {
        Reply::Entry { ttl_secs, .. } => assert_eq!(ttl_secs, TTL_SHORT_SECS),
        other => panic!("lookup failed: {:?}", reply_tag(&other)),
    }
}

#[test]
fn unknown_namespace_lookup_is_enoent() {
    let fix = fixture();
    let mut s = fresh();
    let r = drive(
        &mut s,
        Request::Lookup {
            parent: INO_ROOT,
            name: b"no-such-namespace".to_vec(),
        },
        &fix,
    );
    assert_eq!(expect_errno(r), Errno::Enoent);
}

#[test]
fn malformed_and_wrong_kind_lookups_are_enoent() {
    let fix = fixture();
    let mut s = fresh();
    for name in [
        b"default".to_vec(),
        b"x.yaml".to_vec(),
        b"default.po.yaml".to_vec(),
        b"default.zz.yaml".to_vec(),
    ] {
        let r = drive(
            &mut s,
            Request::Lookup {
                parent: INO_FREESTANDING,
                name,
            },
            &fix,
        );
        assert_eq!(expect_errno(r), Errno::Enoent);
    }
}

#[test]
fn lookup_on_unknown_parent_is_einval() {
    let fix = fixture();
    let mut s = fresh();
    let r = drive(
        &mut s,
        Request::Lookup {
            parent: 424242,
            name: b"x".to_vec(),
        },
        &fix,
    );
    assert_eq!(expect_errno(r), Errno::Einval);
}

#[test]
fn wrong_type_operations() {
    let fix = fixture();
    let mut s = fresh();
    // open on a directory
    let r = drive(
        &mut s,
        Request::Open {
            ino: INO_ROOT,
            write: false,
        },
        &fix,
    );
    assert_eq!(expect_errno(r), Errno::Eisdir);
    // lookup and opendir on a regular file
    let file_ino = match drive(
        &mut s,
        Request::Lookup {
            parent: INO_FREESTANDING,
            name: b"default.ns.yaml".to_vec(),
        },
        &fix,
    ) {
        Reply::Entry { ino, .. } => ino,
        other => panic!("lookup failed: {:?}", reply_tag(&other)),
    };
    let r = drive(&mut s, Request::Opendir { ino: file_ino }, &fix);
    assert_eq!(expect_errno(r), Errno::Enotdir);
    let r = drive(
        &mut s,
        Request::Lookup {
            parent: file_ino,
            name: b"child".to_vec(),
        },
        &fix,
    );
    assert_eq!(expect_errno(r), Errno::Enotdir);
    // read on a handle that was never opened
    let r = drive(
        &mut s,
        Request::Read {
            fh: 999,
            offset: 0,
            size: 16,
        },
        &fix,
    );
    assert_eq!(expect_errno(r), Errno::Einval);
}

#[test]
fn write_open_is_rejected_readonly() {
    let fix = fixture();
    let mut s = fresh();
    let ino = match drive(
        &mut s,
        Request::Lookup {
            parent: INO_FREESTANDING,
            name: b"default.ns.yaml".to_vec(),
        },
        &fix,
    ) {
        Reply::Entry { ino, .. } => ino,
        other => panic!("lookup failed: {:?}", reply_tag(&other)),
    };
    let r = drive(&mut s, Request::Open { ino, write: true }, &fix);
    assert_eq!(expect_errno(r), Errno::Erofs);
}

#[test]
fn open_of_a_missing_object_is_enoent() {
    let fix = fixture();
    let mut s = fresh();
    // kube-system.ns.yaml is listable but the fixture has no body for it.
    let ino = match drive(
        &mut s,
        Request::Lookup {
            parent: INO_FREESTANDING,
            name: b"kube-system.ns.yaml".to_vec(),
        },
        &fix,
    ) {
        Reply::Entry { ino, .. } => ino,
        other => panic!("lookup failed: {:?}", reply_tag(&other)),
    };
    let r = drive(&mut s, Request::Open { ino, write: false }, &fix);
    assert_eq!(expect_errno(r), Errno::Enoent);
}

#[test]
fn transport_errors_surface_as_eio() {
    let mut s = fresh();
    let st = step(&mut s, Request::Opendir { ino: INO_ROOT });
    match st {
        Step::Need { pending, .. } => {
            match resume(&mut s, pending, QueryResult::TransportError) {
                Step::Done { reply } => assert_eq!(expect_errno(reply), Errno::Eio),
                Step::Need { .. } => panic!("expected a reply"),
            }
        }
        Step::Done { .. } => panic!("expected a query"),
    }
}

#[test]
fn handle_lifecycle_release_and_reuse() {
    let fix = fixture();
    let mut s = fresh();
    let fh = opendir_fh(&mut s, INO_ROOT, &fix);
    assert!(fh >= FH_START);
    match drive(&mut s, Request::Releasedir { fh }, &fix) {
        Reply::Empty => {}
        other => panic!("releasedir failed: {:?}", reply_tag(&other)),
    }
    let r = drive(&mut s, Request::Releasedir { fh }, &fix);
    assert_eq!(expect_errno(r), Errno::Ebadf);
    let r = drive(
        &mut s,
        Request::Readdir {
            fh,
            offset: 0,
            size: 65536,
            plus: false,
        },
        &fix,
    );
    assert_eq!(expect_errno(r), Errno::Enosys);
}

#[test]
fn file_handle_lifecycle() {
    let fix = fixture();
    let mut s = fresh();
    let ino = match drive(
        &mut s,
        Request::Lookup {
            parent: INO_FREESTANDING,
            name: b"default.ns.yaml".to_vec(),
        },
        &fix,
    ) {
        Reply::Entry { ino, .. } => ino,
        other => panic!("lookup failed: {:?}", reply_tag(&other)),
    };
    let fh = match drive(&mut s, Request::Open { ino, write: false }, &fix) {
        Reply::Opened { fh, .. } => fh,
        other => panic!("open failed: {:?}", reply_tag(&other)),
    };
    match drive(&mut s, Request::Release { fh }, &fix) {
        Reply::Empty => {}
        other => panic!("release failed: {:?}", reply_tag(&other)),
    }
    let r = drive(&mut s, Request::Release { fh }, &fix);
    assert_eq!(expect_errno(r), Errno::Einval);
    let r = drive(
        &mut s,
        Request::Read {
            fh,
            offset: 0,
            size: 16,
        },
        &fix,
    );
    assert_eq!(expect_errno(r), Errno::Einval);
}

#[test]
fn concurrent_opendir_handles_are_independent() {
    let fix = fixture();
    let mut s = fresh();
    let fh1 = opendir_fh(&mut s, INO_ROOT, &fix);
    let fh2 = opendir_fh(&mut s, INO_ROOT, &fix);
    assert_ne!(fh1, fh2);
    // Releasing the second handle leaves the first readable.
    match drive(&mut s, Request::Releasedir { fh: fh2 }, &fix) {
        Reply::Empty => {}
        other => panic!("releasedir failed: {:?}", reply_tag(&other)),
    }
    let rows = readdir_all(&mut s, fh1, &fix);
    assert_eq!(rows.len(), 5);
}

#[test]
fn getattr_of_the_fixed_directories() {
    let fix = fixture();
    let mut s = fresh();
    for ino in [INO_ROOT, INO_FREESTANDING] {
        match drive(&mut s, Request::Getattr { ino }, &fix) {
            Reply::Attr { attr, ttl_secs } => {
                assert_eq!(attr.ino, ino);
                assert_eq!(attr.mode, MODE_DIR);
                assert_eq!(attr.nlink, 2);
                assert_eq!(ttl_secs, TTL_LONG_SECS);
            }
            other => panic!("getattr failed: {:?}", reply_tag(&other)),
        }
    }
    let r = drive(&mut s, Request::Getattr { ino: 777 }, &fix);
    assert_eq!(expect_errno(r), Errno::Einval);
}

#[test]
fn unknown_operations_are_enosys() {
    let fix = fixture();
    let mut s = fresh();
    let r = drive(&mut s, Request::Other, &fix);
    assert_eq!(expect_errno(r), Errno::Enosys);
}

#[test]
fn file_names_round_trip_through_parsing() {
    let e = Entry::ObjectNamespaced {
        namespace: b"default".to_vec(),
        name: b"my.app".to_vec(),
        kind: b"po".to_vec(),
    };
    let fname = e.file_name();
    assert_eq!(fname, b"my.app.po.yaml".to_vec());
    let parent = Entry::NamespaceDir {
        name: b"default".to_vec(),
    };
    match f8s::entry::parse_child_name(&parent, &fname) {
        Some(Entry::ObjectNamespaced {
            namespace,
            name,
            kind,
        }) => {
            assert_eq!(namespace, b"default".to_vec());
            assert_eq!(name, b"my.app".to_vec());
            assert_eq!(kind, b"po".to_vec());
        }
        _ => panic!("round trip failed"),
    }
}

#[test]
fn registry_intern_is_idempotent_and_bijective() {
    let mut reg = Registry::new();
    assert_eq!(Registry::root_inode(), INO_ROOT);
    assert_eq!(Registry::freestanding_inode(), INO_FREESTANDING);
    let e1 = Entry::NamespaceDir {
        name: b"default".to_vec(),
    };
    let e2 = Entry::NamespaceDir {
        name: b"kube-system".to_vec(),
    };
    let i1 = reg.intern(e1).unwrap();
    let i2 = reg.intern(e2).unwrap();
    assert_ne!(i1, i2);
    let again = reg
        .intern(Entry::NamespaceDir {
            name: b"default".to_vec(),
        })
        .unwrap();
    assert_eq!(i1, again);
    match reg.entry_of(i1) {
        Some(Entry::NamespaceDir { name }) => assert_eq!(name, b"default".to_vec()),
        _ => panic!("entry_of lost the binding"),
    }
    let back = reg.inode_of(&Entry::NamespaceDir {
        name: b"default".to_vec(),
    });
    assert_eq!(back, Some(i1));
    assert_eq!(reg.inode_of(&Entry::Mountpoint), Some(INO_ROOT));
    assert!(reg
        .inode_of(&Entry::NamespaceDir {
            name: b"missing".to_vec()
        })
        .is_none());
}

#[test]
fn mismatched_resume_results_are_eio() {
    let mut s = fresh();
    match resume(
        &mut s,
        Pending::Open,
        QueryResult::Names { names: vec![] },
    ) {
        Step::Done { reply } => assert_eq!(expect_errno(reply), Errno::Eio),
        Step::Need { .. } => panic!("expected a reply"),
    }
    match resume(
        &mut s,
        Pending::LookupNamespace {
            name: b"default".to_vec(),
        },
        QueryResult::Body { bytes: vec![] },
    ) {
        Step::Done { reply } => assert_eq!(expect_errno(reply), Errno::Eio),
        Step::Need { .. } => panic!("expected a reply"),
    }
}

#[test]
fn node_objects_are_discoverable_under_freestanding() {
    let fix = fixture();
    let mut s = fresh();
    match drive(
        &mut s,
        Request::Lookup {
            parent: INO_FREESTANDING,
            name: b"worker-1.no.yaml".to_vec(),
        },
        &fix,
    ) {
        Reply::Entry { attr, ttl_secs, .. } => {
            assert_eq!(attr.mode, MODE_REG);
            assert_eq!(ttl_secs, TTL_SHORT_SECS);
        }
        other => panic!("lookup failed: {:?}", reply_tag(&other)),
    }
}

#[test]
fn interned_lookup_skips_the_cluster_and_keeps_its_inode() {
    let fix = fixture();
    let mut s = fresh();
    // First lookup discovers and interns the object.
    let ino1 = match drive(
        &mut s,
        Request::Lookup {
            parent: INO_FREESTANDING,
            name: b"default.ns.yaml".to_vec(),
        },
        &fix,
    ) {
        Reply::Entry { ino, .. } => ino,
        other => panic!("lookup failed: {:?}", reply_tag(&other)),
    };
    // A second lookup is answered from the registry alone: step finishes
    // without asking for any query, and the inode is unchanged.
    match step(
        &mut s,
        Request::Lookup {
            parent: INO_FREESTANDING,
            name: b"default.ns.yaml".to_vec(),
        },
    ) {
        Step::Done {
            reply: Reply::Entry { ino, .. },
        } => assert_eq!(ino, ino1),
        _ => panic!("expected an immediate entry reply"),
    }
}

#[test]
fn classification_splits_directories_from_files() {
    assert_eq!(Entry::Mountpoint.classify(), EntryClass::Directory);
    assert_eq!(Entry::FreestandingDir.classify(), EntryClass::Directory);
    assert_eq!(
        Entry::NamespaceDir {
            name: b"default".to_vec()
        }
        .classify(),
        EntryClass::Directory
    );
    assert_eq!(
        Entry::ObjectFreestanding {
            name: b"default".to_vec(),
            kind: b"ns".to_vec()
        }
        .classify(),
        EntryClass::Regular
    );
    assert_eq!(
        Entry::ObjectNamespaced {
            namespace: b"default".to_vec(),
            name: b"x".to_vec(),
            kind: b"po".to_vec()
        }
        .classify(),
        EntryClass::Regular
    );
}

#[test]
fn empty_namespace_lists_only_dot_entries() {
    let fix = Fixture {
        namespaces: vec![b"empty-ns".to_vec()],
        nodes: vec![],
        pods: vec![],
        bodies: vec![],
    };
    let mut s = fresh();
    let ns_ino = match drive(
        &mut s,
        Request::Lookup {
            parent: INO_ROOT,
            name: b"empty-ns".to_vec(),
        },
        &fix,
    ) {
        Reply::Entry { ino, .. } => ino,
        other => panic!("lookup failed: {:?}", reply_tag(&other)),
    };
    let fh = opendir_fh(&mut s, ns_ino, &fix);
    let rows = readdir_all(&mut s, fh, &fix);
    let names: Vec<&[u8]> = rows.iter().map(|r| r.0.as_slice()).collect();
    assert_eq!(names, vec![b".".as_slice(), b"..".as_slice()]);
}
