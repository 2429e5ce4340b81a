//! A read-only filesystem over a remote folder tree: the remote tree is
//! walked once into an entry store of dense integer handles, and lookups,
//! attribute queries, ranged reads and directory listings are answered from
//! that store and from a time-bounded cache of file contents.
//!
//! - `api`: the remote store's listing types and the requests it is asked.
//! - `entry`: entries built from listings.
//! - `store`: the rules an entry store obeys, and lookup by remote ID.
//! - `materialize`: the walk that discovers the tree.
//! - `fs`: the mounted filesystem and its operations.
//! - `cache`: the content cache's contract.

pub mod api;
pub mod cache;
pub mod entry;
pub mod fs;
pub mod materialize;
pub mod store;
