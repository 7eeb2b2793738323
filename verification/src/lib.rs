//! A read-only view of a git repository's object graph (commits, trees,
//! blobs) through the kernel filesystem model: stable inode numbers for
//! content-addressed objects, metadata synthesis, and the lookup / getattr /
//! read / readdir request handlers, written against a repository backend that
//! the embedding program drives.

pub mod attr;
pub mod fs;
pub mod inode;
pub mod oid;
