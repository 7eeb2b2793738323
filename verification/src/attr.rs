//! Filesystem metadata synthesis for resolved objects.
//!
//! Trees surface as directories, blobs as regular files. Permission bits and
//! link counts are fixed per kind, the owning identity is fixed at mount
//! time, and every timestamp is the epoch sentinel: content-addressed
//! objects carry no natural timestamp, and a constant avoids fabricating
//! history.

use vstd::prelude::*;

verus! {

/// The kinds of filesystem node this system exposes.
#[derive(Clone, Copy, Debug, PartialEq, Eq, Structural)]
pub enum FileKind {
    Directory,
    RegularFile,
}

/// A point in time, in whole seconds and nanoseconds.
#[derive(Clone, Copy, Debug, PartialEq, Eq, Structural)]
pub struct TimeSpec {
    pub sec: i64,
    pub nsec: i32,
}

/// The epoch sentinel used for every timestamp.
pub open spec fn epoch_spec() -> TimeSpec {
    TimeSpec { sec: 0, nsec: 0 }
}

/// Seconds of the constant time-to-live attached to every entry and
/// attribute reply, instructing the kernel to re-validate rather than cache
/// indefinitely.
pub const TTL_SECS: i64 = 1;

/// Filesystem metadata for one inode.
#[derive(Clone, Copy, Debug, PartialEq, Eq, Structural)]
pub struct FileAttr {
    pub ino: u64,
    pub size: u64,
    pub blocks: u64,
    pub atime: TimeSpec,
    pub mtime: TimeSpec,
    pub ctime: TimeSpec,
    pub crtime: TimeSpec,
    pub kind: FileKind,
    pub perm: u16,
    pub nlink: u32,
    pub uid: u32,
    pub gid: u32,
    pub rdev: u32,
    pub flags: u32,
}

/// The attributes of a directory node owned by `uid`/`gid`: content size is
/// not meaningful for directories, the permission bits make it traversable,
/// and the link count is the conventional 2.
pub open spec fn dir_attr_spec(ino: u64, uid: u32, gid: u32) -> FileAttr {
    FileAttr {
        ino,
        size: 0,
        blocks: 0,
        atime: epoch_spec(),
        mtime: epoch_spec(),
        ctime: epoch_spec(),
        crtime: epoch_spec(),
        kind: FileKind::Directory,
        perm: 0o755,
        nlink: 2,
        uid,
        gid,
        rdev: 0,
        flags: 0,
    }
}

/// The attributes of a regular file of `size` bytes owned by `uid`/`gid`:
/// readable, with the conventional link count 1.
pub open spec fn file_attr_spec(ino: u64, size: u64, uid: u32, gid: u32) -> FileAttr {
    FileAttr {
        ino,
        size,
        blocks: 0,
        atime: epoch_spec(),
        mtime: epoch_spec(),
        ctime: epoch_spec(),
        crtime: epoch_spec(),
        kind: FileKind::RegularFile,
        perm: 0o644,
        nlink: 1,
        uid,
        gid,
        rdev: 0,
        flags: 0,
    }
}

/// The fixed attributes of the synthetic filesystem root: a directory under
/// inode 1 with a fixed owning identity.
pub open spec fn root_attr_spec() -> FileAttr {
    FileAttr {
        ino: 1,
        size: 0,
        blocks: 0,
        atime: epoch_spec(),
        mtime: epoch_spec(),
        ctime: epoch_spec(),
        crtime: epoch_spec(),
        kind: FileKind::Directory,
        perm: 0o755,
        nlink: 2,
        uid: 501,
        gid: 20,
        rdev: 0,
        flags: 0,
    }
}

/// Returns the fixed attributes of the synthetic filesystem root.
pub fn root_attr() -> (a: FileAttr)
    ensures
        a == root_attr_spec(),
{
    FileAttr {
        ino: 1,
        size: 0,
        blocks: 0,
        atime: TimeSpec { sec: 0, nsec: 0 },
        mtime: TimeSpec { sec: 0, nsec: 0 },
        ctime: TimeSpec { sec: 0, nsec: 0 },
        crtime: TimeSpec { sec: 0, nsec: 0 },
        kind: FileKind::Directory,
        perm: 0o755,
        nlink: 2,
        uid: 501,
        gid: 20,
        rdev: 0,
        flags: 0,
    }
}

/// Carries the owning user and group identity fixed at mount time and
/// synthesizes attributes for resolved objects from it.
#[derive(Clone, Copy, Debug, PartialEq, Eq, Structural)]
pub struct FileAttrBuilder {
    pub uid: u32,
    pub gid: u32,
}

impl FileAttrBuilder {
    pub fn new() -> (b: FileAttrBuilder)
        ensures
            b.uid == 0,
            b.gid == 0,
    {
        FileAttrBuilder { uid: 0, gid: 0 }
    }

    /// Sets the owning user reported for every synthesized attribute.
    pub fn uid(self, uid: u32) -> (b: FileAttrBuilder)
        ensures
            b.uid == uid,
            b.gid == self.gid,
    {
        FileAttrBuilder { uid, gid: self.gid }
    }

    /// Sets the owning group reported for every synthesized attribute.
    pub fn gid(self, gid: u32) -> (b: FileAttrBuilder)
        ensures
            b.uid == self.uid,
            b.gid == gid,
    {
        FileAttrBuilder { uid: self.uid, gid }
    }

    /// Synthesizes directory metadata for a resolved tree.
    pub fn tree_attr(&self, ino: u64) -> (a: FileAttr)
        ensures
            a == dir_attr_spec(ino, self.uid, self.gid),
    {
        FileAttr {
            ino,
            size: 0,
            blocks: 0,
            atime: TimeSpec { sec: 0, nsec: 0 },
            mtime: TimeSpec { sec: 0, nsec: 0 },
            ctime: TimeSpec { sec: 0, nsec: 0 },
            crtime: TimeSpec { sec: 0, nsec: 0 },
            kind: FileKind::Directory,
            perm: 0o755,
            nlink: 2,
            uid: self.uid,
            gid: self.gid,
            rdev: 0,
            flags: 0,
        }
    }

    /// Synthesizes regular-file metadata for a resolved blob of `size`
    /// bytes.
    pub fn blob_attr(&self, ino: u64, size: u64) -> (a: FileAttr)
        ensures
            a == file_attr_spec(ino, size, self.uid, self.gid),
    {
        FileAttr {
            ino,
            size,
            blocks: 0,
            atime: TimeSpec { sec: 0, nsec: 0 },
            mtime: TimeSpec { sec: 0, nsec: 0 },
            ctime: TimeSpec { sec: 0, nsec: 0 },
            crtime: TimeSpec { sec: 0, nsec: 0 },
            kind: FileKind::RegularFile,
            perm: 0o644,
            nlink: 1,
            uid: self.uid,
            gid: self.gid,
            rdev: 0,
            flags: 0,
        }
    }
}

} // verus!
