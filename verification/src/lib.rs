//! A read-only virtual filesystem core that presents a Kubernetes cluster's
//! objects as a directory tree: one directory per namespace, a `_/` directory
//! for cluster-scoped objects, and one `<name>.<kind>.yaml` file per object.
//!
//! This crate holds the verified logic: the entry model and its file-name
//! rules, the bijective inode registry, the open-handle tables, and the
//! request dispatcher that turns each kernel operation into exactly one typed
//! reply. All I/O (the FUSE channel, the cluster client) is performed by the
//! embedding program, which feeds requests and query results in as plain
//! values.

pub mod bytes;
pub mod dispatch;
pub mod entry;
pub mod registry;
pub mod tables;
pub mod wire;

pub use entry::Entry;
pub use registry::Registry;
