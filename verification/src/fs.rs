//! The filesystem protocol handlers.
//!
//! Each kernel operation is handled in steps: a start step decides from the
//! registry alone what the object store must fetch, the embedding driver
//! performs the fetch, and a finish step turns the fetched object into the
//! reply. Every decision, and everything computed from fetched data, lives
//! here; the driver only moves bytes.

use vstd::prelude::*;

use crate::attr::{dir_attr_spec, file_attr_spec, root_attr_spec, FileAttr, FileAttrBuilder,
    FileKind};
use crate::inode::{lemma_registered_ino_stable, lemma_resolve_keeps_pairs,
    lemma_resolve_registers, resolve_ino, resolve_next, resolve_table, table_extends,
    table_has_hash, table_ino_of, table_wf, InodeRegistry, ROOT_INO};
use crate::oid::{hash_of_text, is_hash_text, parse_hash_text};

verus! {

/// The error vocabulary of the kernel filesystem protocol as this system
/// uses it.
#[derive(Clone, Copy, Debug, PartialEq, Eq, Structural)]
pub enum FsError {
    /// "no such entry"
    NotFound,
    /// "is a directory"
    IsDirectory,
    /// "invalid argument"
    InvalidArgument,
}

/// The kind of object a content hash resolves to in the object store.
#[derive(Clone, Copy, Debug, PartialEq, Eq, Structural)]
pub enum ObjKind {
    Commit,
    Tree,
    Blob,
    /// Any further kind the store can report; never surfaced as filesystem
    /// content.
    Other,
}

/// One named entry of a tree, as captured at resolution time: its name, the
/// hash of the object it names, and the kind the tree records for it.
pub struct TreeEntry {
    pub name: Vec<u8>,
    pub hash: Vec<u8>,
    pub kind: Option<ObjKind>,
}

/// The mathematical model of a captured tree entry.
pub struct TreeEntryModel {
    pub name: Seq<u8>,
    pub hash: Seq<u8>,
    pub kind: Option<ObjKind>,
}

impl View for TreeEntry {
    type V = TreeEntryModel;

    open spec fn view(&self) -> TreeEntryModel {
        TreeEntryModel { name: self.name@, hash: self.hash@, kind: self.kind }
    }
}

/// A tree as surfaced to the kernel: its own inode, the inode of the
/// directory it was reached through (the ".." identity), and an ordered
/// snapshot of its entries captured at resolution time. Listing offsets are
/// positions into this captured ordering, which is never re-sorted.
pub struct TreeData {
    pub ino: u64,
    pub parent_ino: u64,
    pub entries: Vec<TreeEntry>,
}

/// The mathematical model of a surfaced tree.
pub struct TreeDataModel {
    pub ino: u64,
    pub parent_ino: u64,
    pub entries: Seq<TreeEntryModel>,
}

impl View for TreeData {
    type V = TreeDataModel;

    open spec fn view(&self) -> TreeDataModel {
        TreeDataModel {
            ino: self.ino,
            parent_ino: self.parent_ino,
            entries: self.entries@.map_values(|e: TreeEntry| e@),
        }
    }
}

/// One row of a directory listing reply: the entry's inode, its position in
/// the listing, its kind, and its name.
pub struct DirEntry {
    pub ino: u64,
    pub pos: i64,
    pub kind: FileKind,
    pub name: Vec<u8>,
}

/// The mathematical model of a listing row.
pub struct DirEntryModel {
    pub ino: u64,
    pub pos: i64,
    pub kind: FileKind,
    pub name: Seq<u8>,
}

impl View for DirEntry {
    type V = DirEntryModel;

    open spec fn view(&self) -> DirEntryModel {
        DirEntryModel { ino: self.ino, pos: self.pos, kind: self.kind, name: self.name@ }
    }
}

/// Whether the byte strings behind two vectors are equal.
fn bytes_eq(a: &Vec<u8>, b: &Vec<u8>) -> (r: bool)
    ensures
        r <==> a@ == b@,
{
    if a.len() != b.len() {
        return false;
    }
    let mut i: usize = 0;
    while i < a.len()
        invariant
            0 <= i <= a@.len(),
            a@.len() == b@.len(),
            forall|j: int| 0 <= j < i ==> a@[j] == b@[j],
        decreases a@.len() - i,
    {
        if a[i] != b[i] {
            return false;
        }
        i = i + 1;
    }
    proof {
        assert(a@ =~= b@);
    }
    true
}

/// What the `lookup` handler must do next, decided from the registry alone.
pub enum LookupStep {
    /// The parent was the synthetic root and the name parsed as a content
    /// hash: fetch the commit with that hash and hand over its root tree.
    CommitTree(Vec<u8>),
    /// The parent is a registered inode: fetch its tree and hand over the
    /// captured entry snapshot.
    ParentTree(Vec<u8>),
    /// The lookup already failed.
    Fail(FsError),
}

/// First step of `lookup(parent, name)`. Under the synthetic root only a
/// well-formed textual commit hash can be looked up; under any other inode
/// the parent must already be registered.
pub fn lookup_start(reg: &InodeRegistry, parent: u64, name: &Vec<u8>) -> (s: LookupStep)
    ensures
        parent == ROOT_INO ==> (if is_hash_text(name@) {
            s matches LookupStep::CommitTree(h) && h@ == hash_of_text(name@)
        } else {
            s == LookupStep::Fail(FsError::NotFound)
        }),
        parent != ROOT_INO ==> (if reg.table().contains_key(parent) {
            s matches LookupStep::ParentTree(h) && h@ == reg.table()[parent]
        } else {
            s == LookupStep::Fail(FsError::NotFound)
        }),
{
    if parent == ROOT_INO {
        match parse_hash_text(name) {
            Some(h) => LookupStep::CommitTree(h),
            None => LookupStep::Fail(FsError::NotFound),
        }
    } else {
        match reg.hash_for(parent) {
            Some(h) => LookupStep::ParentTree(h),
            None => LookupStep::Fail(FsError::NotFound),
        }
    }
}

/// The first entry of `es` named `name`, if any.
pub open spec fn find_entry_spec(es: Seq<TreeEntryModel>, name: Seq<u8>) -> Option<TreeEntryModel>
    decreases es.len(),
{
    if es.len() == 0 {
        None
    } else if es[0].name == name {
        Some(es[0])
    } else {
        find_entry_spec(es.drop_first(), name)
    }
}

proof fn lemma_find_entry_skip(es: Seq<TreeEntryModel>, name: Seq<u8>, i: int)
    requires
        0 <= i <= es.len(),
        forall|j: int| 0 <= j < i ==> es[j].name != name,
    ensures
        find_entry_spec(es, name) == find_entry_spec(es.skip(i), name),
    decreases i,
{
    if i == 0 {
        assert(es.skip(0) =~= es);
    } else {
        lemma_find_entry_skip(es, name, i - 1);
        assert(es.skip(i - 1).len() > 0);
        assert(es.skip(i - 1)[0] == es[i - 1]);
        assert(es.skip(i - 1).drop_first() =~= es.skip(i));
    }
}

/// How a named entry found under a tree must be fetched.
pub enum EntryStep {
    /// The entry names a tree: fetch it and reply with directory
    /// attributes.
    FetchTree(Vec<u8>),
    /// The entry names a blob: fetch it and reply with file attributes.
    FetchBlob(Vec<u8>),
    /// The lookup already failed.
    Fail(FsError),
}

/// Second step of `lookup` under a registered tree: walks the captured
/// entry list for `name`. A missing name, and an entry of any kind other
/// than tree or blob, is "no such entry".
pub fn lookup_entry(tree: &TreeData, name: &Vec<u8>) -> (s: EntryStep)
    ensures
        ({
            let found = find_entry_spec(tree@.entries, name@);
            match found {
                None => s == EntryStep::Fail(FsError::NotFound),
                Some(e) => match e.kind {
                    Some(ObjKind::Blob) => s matches EntryStep::FetchBlob(h) && h@ == e.hash,
                    Some(ObjKind::Tree) => s matches EntryStep::FetchTree(h) && h@ == e.hash,
                    _ => s == EntryStep::Fail(FsError::NotFound),
                },
            }
        }),
{
    let ghost es = tree@.entries;
    let n = tree.entries.len();
    let mut i: usize = 0;
    while i < n
        invariant
            0 <= i <= n == tree.entries@.len(),
            es == tree@.entries,
            es.len() == n,
            forall|j: int| 0 <= j < i ==> es[j].name != name@,
        decreases n - i,
    {
        let e = &tree.entries[i];
        if bytes_eq(&e.name, name) {
            proof {
                lemma_find_entry_skip(es, name@, i as int);
                assert(es.skip(i as int)[0] == es[i as int]);
                assert(find_entry_spec(es, name@) == Some(es[i as int]));
            }
            return match e.kind {
                Some(ObjKind::Blob) => EntryStep::FetchBlob(clone_bytes(&e.hash)),
                Some(ObjKind::Tree) => EntryStep::FetchTree(clone_bytes(&e.hash)),
                _ => EntryStep::Fail(FsError::NotFound),
            };
        }
        i = i + 1;
    }
    proof {
        lemma_find_entry_skip(es, name@, n as int);
        assert(es.skip(n as int) =~= Seq::<TreeEntryModel>::empty());
    }
    EntryStep::Fail(FsError::NotFound)
}

/// A copy of the byte string behind a vector.
fn clone_bytes(a: &Vec<u8>) -> (r: Vec<u8>)
    ensures
        r@ == a@,
{
    let mut out: Vec<u8> = Vec::new();
    let mut i: usize = 0;
    while i < a.len()
        invariant
            0 <= i <= a@.len(),
            out@ == a@.take(i as int),
        decreases a@.len() - i,
    {
        out.push(a[i]);
        proof {
            assert(out@ =~= a@.take(i + 1));
        }
        i = i + 1;
    }
    proof {
        assert(a@.take(a@.len() as int) =~= a@);
    }
    out
}

/// Final step of a lookup that reached a tree (a commit's root tree, or a
/// tree entry): registers the tree's hash and synthesizes the directory
/// attributes of the entry reply.
pub fn lookup_finish_tree(reg: &mut InodeRegistry, b: &FileAttrBuilder, hash: &Vec<u8>) -> (r: (
    u64,
    FileAttr,
))
    requires
        old(reg).wf(),
        old(reg).next_ino() < u64::MAX,
    ensures
        final(reg).wf(),
        r.0 == resolve_ino(old(reg).table(), old(reg).next_ino(), hash@),
        final(reg).table() == resolve_table(old(reg).table(), old(reg).next_ino(), hash@),
        final(reg).next_ino() == resolve_next(old(reg).table(), old(reg).next_ino(), hash@),
        r.1 == dir_attr_spec(r.0, b.uid, b.gid),
{
    let ino = reg.resolve_or_assign(hash);
    let a = b.tree_attr(ino);
    (ino, a)
}

/// Final step of a lookup that reached a blob of `size` bytes: registers
/// the blob's hash and synthesizes the file attributes of the entry reply.
pub fn lookup_finish_blob(
    reg: &mut InodeRegistry,
    b: &FileAttrBuilder,
    hash: &Vec<u8>,
    size: u64,
) -> (r: (u64, FileAttr))
    requires
        old(reg).wf(),
        old(reg).next_ino() < u64::MAX,
    ensures
        final(reg).wf(),
        r.0 == resolve_ino(old(reg).table(), old(reg).next_ino(), hash@),
        final(reg).table() == resolve_table(old(reg).table(), old(reg).next_ino(), hash@),
        final(reg).next_ino() == resolve_next(old(reg).table(), old(reg).next_ino(), hash@),
        r.1 == file_attr_spec(r.0, size, b.uid, b.gid),
{
    let ino = reg.resolve_or_assign(hash);
    let a = b.blob_attr(ino, size);
    (ino, a)
}

/// What the `getattr` handler must do next.
pub enum AttrStep {
    /// The inode was the synthetic root: reply with its fixed attributes.
    Root(FileAttr),
    /// Fetch the object registered under the inode.
    FetchObject(Vec<u8>),
    /// The query already failed.
    Fail(FsError),
}

/// First step of `getattr(ino)`: the synthetic root answers at once; any
/// other inode must be registered, and its object is fetched.
pub fn getattr_start(reg: &InodeRegistry, ino: u64) -> (s: AttrStep)
    ensures
        ino == ROOT_INO ==> s == AttrStep::Root(root_attr_spec()),
        ino != ROOT_INO && reg.table().contains_key(ino) ==> (s matches AttrStep::FetchObject(h)
            && h@ == reg.table()[ino]),
        ino != ROOT_INO && !reg.table().contains_key(ino) ==> s == AttrStep::Fail(
            FsError::NotFound,
        ),
{
    if ino == ROOT_INO {
        AttrStep::Root(crate::attr::root_attr())
    } else {
        match reg.hash_for(ino) {
            Some(h) => AttrStep::FetchObject(h),
            None => AttrStep::Fail(FsError::NotFound),
        }
    }
}

/// Final step of `getattr`: metadata for the fetched object. A tree reports
/// directory attributes of size 0; a blob reports file attributes carrying
/// its byte length; a commit or unsupported object is no filesystem entry.
pub fn getattr_finish(b: &FileAttrBuilder, ino: u64, kind: ObjKind, blob_size: u64) -> (r: Result<
    FileAttr,
    FsError,
>)
    ensures
        kind == ObjKind::Tree ==> r == Ok::<FileAttr, FsError>(dir_attr_spec(ino, b.uid, b.gid)),
        kind == ObjKind::Blob ==> r == Ok::<FileAttr, FsError>(
            file_attr_spec(ino, blob_size, b.uid, b.gid),
        ),
        kind == ObjKind::Commit || kind == ObjKind::Other ==> r == Err::<FileAttr, FsError>(
            FsError::NotFound,
        ),
{
    match kind {
        ObjKind::Tree => Ok(b.tree_attr(ino)),
        ObjKind::Blob => Ok(b.blob_attr(ino, blob_size)),
        ObjKind::Commit => Err(FsError::NotFound),
        ObjKind::Other => Err(FsError::NotFound),
    }
}

/// What the `read` handler must do next.
pub enum ReadStep {
    /// Fetch the object registered under the inode.
    Fetch(Vec<u8>),
    /// The read already failed.
    Fail(FsError),
}

/// First step of `read(ino, ..)`: the synthetic root is a directory and
/// cannot be read; any other inode must be registered, and its object is
/// fetched.
pub fn read_start(reg: &InodeRegistry, ino: u64) -> (s: ReadStep)
    ensures
        ino == ROOT_INO ==> s == ReadStep::Fail(FsError::IsDirectory),
        ino != ROOT_INO && reg.table().contains_key(ino) ==> (s matches ReadStep::Fetch(h) && h@
            == reg.table()[ino]),
        ino != ROOT_INO && !reg.table().contains_key(ino) ==> s == ReadStep::Fail(
            FsError::NotFound,
        ),
{
    if ino == ROOT_INO {
        ReadStep::Fail(FsError::IsDirectory)
    } else {
        match reg.hash_for(ino) {
            Some(h) => ReadStep::Fetch(h),
            None => ReadStep::Fail(FsError::NotFound),
        }
    }
}

/// The bytes a read returns: the byte range `[offset, offset + size)`
/// clipped to the content's length, and empty once the offset reaches the
/// end, matching read-past-end-of-file semantics.
pub open spec fn read_range(content: Seq<u8>, offset: int, size: int) -> Seq<u8> {
    if offset >= content.len() {
        Seq::empty()
    } else if offset + size <= content.len() {
        content.subrange(offset, offset + size)
    } else {
        content.subrange(offset, content.len() as int)
    }
}

/// Final step of `read`: a tree is a directory and cannot be read; a commit
/// or unsupported object is no entry; a blob yields its clipped byte range.
/// An offset that cannot index memory is an invalid argument.
pub fn read_finish(kind: ObjKind, content: &Vec<u8>, offset: i64, size: u32) -> (r: Result<
    Vec<u8>,
    FsError,
>)
    ensures
        kind == ObjKind::Tree ==> r == Err::<Vec<u8>, FsError>(FsError::IsDirectory),
        kind == ObjKind::Commit || kind == ObjKind::Other ==> r == Err::<Vec<u8>, FsError>(
            FsError::NotFound,
        ),
        kind == ObjKind::Blob && !(0 <= offset <= usize::MAX) ==> r == Err::<Vec<u8>, FsError>(
            FsError::InvalidArgument,
        ),
        kind == ObjKind::Blob && 0 <= offset <= usize::MAX ==> (r matches Ok(d) && d@
            == read_range(content@, offset as int, size as int)),
{
    match kind {
        ObjKind::Tree => Err(FsError::IsDirectory),
        ObjKind::Commit => Err(FsError::NotFound),
        ObjKind::Other => Err(FsError::NotFound),
        ObjKind::Blob => {
            if offset < 0 || offset as u64 > usize::MAX as u64 {
                return Err(FsError::InvalidArgument);
            }
            let off = offset as usize;
            let mut out: Vec<u8> = Vec::new();
            if off >= content.len() {
                return Ok(out);
            }
            let end: usize = if (size as usize) <= content.len() - off {
                off + (size as usize)
            } else {
                content.len()
            };
            let mut j: usize = off;
            while j < end
                invariant
                    off <= j <= end <= content@.len(),
                    out@ == content@.subrange(off as int, j as int),
                decreases end - j,
            {
                out.push(content[j]);
                proof {
                    assert(out@ =~= content@.subrange(off as int, j + 1));
                }
                j = j + 1;
            }
            Ok(out)
        }
    }
}

/// What the `readdir` handler must do next.
pub enum ReaddirStep {
    /// Fetch the tree registered under the inode.
    Fetch(Vec<u8>),
    /// The listing already failed.
    Fail(FsError),
}

/// First step of `readdir(ino, offset)`: the synthetic root lists nothing —
/// it supports only lookup by exact commit-hash name; a negative resume
/// offset is an invalid argument; any other inode must be registered, and
/// its tree is fetched.
pub fn readdir_start(reg: &InodeRegistry, ino: u64, offset: i64) -> (s: ReaddirStep)
    ensures
        ino == ROOT_INO ==> s == ReaddirStep::Fail(FsError::NotFound),
        ino != ROOT_INO && offset < 0 ==> s == ReaddirStep::Fail(FsError::InvalidArgument),
        ino != ROOT_INO && offset >= 0 && reg.table().contains_key(ino) ==> (
        s matches ReaddirStep::Fetch(h) && h@ == reg.table()[ino]),
        ino != ROOT_INO && offset >= 0 && !reg.table().contains_key(ino) ==> s
            == ReaddirStep::Fail(FsError::NotFound),
{
    if ino == ROOT_INO {
        ReaddirStep::Fail(FsError::NotFound)
    } else if offset < 0 {
        ReaddirStep::Fail(FsError::InvalidArgument)
    } else {
        match reg.hash_for(ino) {
            Some(h) => ReaddirStep::Fetch(h),
            None => ReaddirStep::Fail(FsError::NotFound),
        }
    }
}

/// Outcome of scanning a tree's captured entries: the registry table and
/// counter left behind, and the listing rows produced.
pub struct ScanModel {
    pub table: Map<u64, Seq<u8>>,
    pub next: u64,
    pub rows: Seq<DirEntryModel>,
}

/// The listing row of the entry at index `i`, which stands at position
/// `i + 3`, after the synthetic rows at positions 1 and 2.
pub open spec fn row_model(ino: u64, i: int, kind: FileKind, name: Seq<u8>) -> DirEntryModel {
    DirEntryModel { ino, pos: (i + 3) as i64, kind, name }
}

/// Scanning a tree's captured entries from index `i` on, over registry
/// state `(t, next)`: every entry the store found (`ks[i]` present) is
/// registered in passing; blobs and trees are listed, any other kind is
/// omitted from the listing.
pub open spec fn scan(
    t: Map<u64, Seq<u8>>,
    next: u64,
    es: Seq<TreeEntryModel>,
    ks: Seq<Option<ObjKind>>,
    i: int,
) -> ScanModel
    decreases es.len() - i,
{
    if i < 0 || i >= es.len() {
        ScanModel { table: t, next, rows: Seq::empty() }
    } else {
        match ks[i] {
            None => scan(t, next, es, ks, i + 1),
            Some(k) => {
                let ino = resolve_ino(t, next, es[i].hash);
                let rest = scan(
                    resolve_table(t, next, es[i].hash),
                    resolve_next(t, next, es[i].hash),
                    es,
                    ks,
                    i + 1,
                );
                if k == ObjKind::Blob {
                    ScanModel {
                        table: rest.table,
                        next: rest.next,
                        rows: seq![row_model(ino, i, FileKind::RegularFile, es[i].name)]
                            + rest.rows,
                    }
                } else if k == ObjKind::Tree {
                    ScanModel {
                        table: rest.table,
                        next: rest.next,
                        rows: seq![row_model(ino, i, FileKind::Directory, es[i].name)] + rest.rows,
                    }
                } else {
                    rest
                }
            }
        }
    }
}

/// The two synthetic rows every listing starts with — "." at position 1 and
/// ".." at position 2 — as far as the resume offset has not passed them.
pub open spec fn header_rows(tree: TreeDataModel, offset: int) -> Seq<DirEntryModel> {
    let dot = DirEntryModel { ino: tree.ino, pos: 1, kind: FileKind::Directory, name: seq![46u8] };
    let dotdot = DirEntryModel {
        ino: tree.parent_ino,
        pos: 2,
        kind: FileKind::Directory,
        name: seq![46u8, 46u8],
    };
    if offset < 1 {
        seq![dot, dotdot]
    } else if offset < 2 {
        seq![dotdot]
    } else {
        Seq::empty()
    }
}

/// The index of the first captured entry whose listing position follows the
/// resume offset, clipped to the entry count `n`.
pub open spec fn start_index(offset: int, n: int) -> int {
    if offset - 2 < 0 {
        0
    } else if offset - 2 > n {
        n
    } else {
        offset - 2
    }
}

/// The name of the synthetic self row.
fn dot_name() -> (r: Vec<u8>)
    ensures
        r@ == seq![46u8],
{
    let mut v: Vec<u8> = Vec::new();
    v.push(46);
    proof {
        assert(v@ =~= seq![46u8]);
    }
    v
}

/// The name of the synthetic parent row.
fn dotdot_name() -> (r: Vec<u8>)
    ensures
        r@ == seq![46u8, 46u8],
{
    let mut v: Vec<u8> = Vec::new();
    v.push(46);
    v.push(46);
    proof {
        assert(v@ =~= seq![46u8, 46u8]);
    }
    v
}

/// Final step of `readdir`: the listing of a fetched tree from the resume
/// offset on. Rows at positions up to and including the offset are skipped;
/// the synthetic "." and ".." rows come first, then the captured entries in
/// their stored order, each under the kind the store resolved it to
/// (`kinds[i]`, absent when the store could not find the entry's object).
/// Missing and unsupported objects are omitted row by row, never failing
/// the whole listing; every found object is registered in passing.
pub fn readdir_reply(
    reg: &mut InodeRegistry,
    tree: &TreeData,
    offset: i64,
    kinds: &Vec<Option<ObjKind>>,
) -> (rows: Vec<DirEntry>)
    requires
        old(reg).wf(),
        offset >= 0,
        kinds@.len() == tree.entries@.len(),
        tree.entries@.len() + 3 <= i64::MAX,
        old(reg).next_ino() + tree.entries@.len() < u64::MAX,
    ensures
        final(reg).wf(),
        ({
            let sm = scan(
                old(reg).table(),
                old(reg).next_ino(),
                tree@.entries,
                kinds@,
                start_index(offset as int, tree.entries@.len() as int),
            );
            &&& final(reg).table() == sm.table
            &&& final(reg).next_ino() == sm.next
            &&& rows@.map_values(|d: DirEntry| d@) == header_rows(tree@, offset as int) + sm.rows
        }),
{
    let ghost t0 = reg.table();
    let ghost n0 = reg.next_ino();
    let ghost es = tree@.entries;
    let ghost ks = kinds@;
    let n = tree.entries.len();
    let mut rows: Vec<DirEntry> = Vec::new();
    if offset < 1 {
        rows.push(
            DirEntry { ino: tree.ino, pos: 1, kind: FileKind::Directory, name: dot_name() },
        );
    }
    if offset < 2 {
        rows.push(
            DirEntry {
                ino: tree.parent_ino,
                pos: 2,
                kind: FileKind::Directory,
                name: dotdot_name(),
            },
        );
    }
    let ghost hdr = header_rows(tree@, offset as int);
    proof {
        assert(rows@.map_values(|d: DirEntry| d@) =~~= hdr);
    }
    let start: usize = if offset <= 2 {
        0
    } else if (offset - 2) as u64 >= n as u64 {
        n
    } else {
        (offset - 2) as usize
    };
    assert(start as int == start_index(offset as int, n as int));
    let mut i: usize = start;
    while i < n
        invariant
            start <= i <= n,
            n == tree.entries@.len(),
            es == tree@.entries,
            ks == kinds@,
            es.len() == n,
            ks.len() == n,
            tree.entries@.len() + 3 <= i64::MAX,
            reg.wf(),
            n0 + n < u64::MAX,
            reg.next_ino() <= n0 + (i - start),
            hdr == header_rows(tree@, offset as int),
            ({
                let full = scan(t0, n0, es, ks, start as int);
                let cur = scan(reg.table(), reg.next_ino(), es, ks, i as int);
                &&& full.table == cur.table
                &&& full.next == cur.next
                &&& hdr + full.rows == rows@.map_values(|d: DirEntry| d@) + cur.rows
            }),
        decreases n - i,
    {
        let ghost tp = reg.table();
        let ghost np = reg.next_ino();
        let ghost rows_pre = rows@.map_values(|d: DirEntry| d@);
        let e = &tree.entries[i];
        proof {
            assert(es[i as int] == tree.entries@[i as int]@);
        }
        match kinds[i] {
            None => {
                proof {
                    assert(scan(tp, np, es, ks, i as int) == scan(tp, np, es, ks, i as int + 1));
                }
            },
            Some(k) => {
                let ino_i = reg.resolve_or_assign(&e.hash);
                proof {
                    assert(e.hash@ == es[i as int].hash);
                    assert(reg.table() == resolve_table(tp, np, es[i as int].hash));
                    assert(reg.next_ino() == resolve_next(tp, np, es[i as int].hash));
                }
                match k {
                    ObjKind::Blob => {
                        rows.push(
                            DirEntry {
                                ino: ino_i,
                                pos: (i as i64) + 3,
                                kind: FileKind::RegularFile,
                                name: clone_bytes(&e.name),
                            },
                        );
                        proof {
                            let rm = row_model(ino_i, i as int, FileKind::RegularFile,
                                es[i as int].name);
                            assert(rows@.map_values(|d: DirEntry| d@) =~~= rows_pre.push(rm));
                            assert(rows_pre.push(rm) =~= rows_pre + seq![rm]);
                        }
                    },
                    ObjKind::Tree => {
                        rows.push(
                            DirEntry {
                                ino: ino_i,
                                pos: (i as i64) + 3,
                                kind: FileKind::Directory,
                                name: clone_bytes(&e.name),
                            },
                        );
                        proof {
                            let rm = row_model(ino_i, i as int, FileKind::Directory,
                                es[i as int].name);
                            assert(rows@.map_values(|d: DirEntry| d@) =~~= rows_pre.push(rm));
                            assert(rows_pre.push(rm) =~= rows_pre + seq![rm]);
                        }
                    },
                    _ => {},
                }
                proof {
                    let cur = scan(tp, np, es, ks, i as int);
                    let rest = scan(reg.table(), reg.next_ino(), es, ks, i as int + 1);
                    assert(cur.table == rest.table && cur.next == rest.next);
                    if k == ObjKind::Blob {
                        let rm = row_model(ino_i, i as int, FileKind::RegularFile,
                            es[i as int].name);
                        assert(cur.rows == seq![rm] + rest.rows);
                        assert((rows_pre + seq![rm]) + rest.rows =~= rows_pre + (seq![rm]
                            + rest.rows));
                    } else if k == ObjKind::Tree {
                        let rm = row_model(ino_i, i as int, FileKind::Directory,
                            es[i as int].name);
                        assert(cur.rows == seq![rm] + rest.rows);
                        assert((rows_pre + seq![rm]) + rest.rows =~= rows_pre + (seq![rm]
                            + rest.rows));
                    } else {
                        assert(cur.rows == rest.rows);
                    }
                }
            },
        }
        i = i + 1;
    }
    proof {
        let cur = scan(reg.table(), reg.next_ino(), es, ks, n as int);
        assert(cur.rows =~= Seq::<DirEntryModel>::empty());
        assert(rows@.map_values(|d: DirEntry| d@) + cur.rows =~= rows@.map_values(
            |d: DirEntry| d@));
    }
    rows
}

/// The listing rows of the entries `[i, end)` of `es`, with every row's
/// inode read back from the fixed table `tbl`.
pub open spec fn rows_between(
    tbl: Map<u64, Seq<u8>>,
    es: Seq<TreeEntryModel>,
    ks: Seq<Option<ObjKind>>,
    i: int,
    end: int,
) -> Seq<DirEntryModel>
    decreases end - i,
{
    if i < 0 || i >= end || end > es.len() {
        Seq::empty()
    } else {
        let rest = rows_between(tbl, es, ks, i + 1, end);
        match ks[i] {
            None => rest,
            Some(k) => {
                if k == ObjKind::Blob {
                    seq![
                        row_model(table_ino_of(tbl, es[i].hash), i, FileKind::RegularFile,
                            es[i].name),
                    ] + rest
                } else if k == ObjKind::Tree {
                    seq![
                        row_model(table_ino_of(tbl, es[i].hash), i, FileKind::Directory,
                            es[i].name),
                    ] + rest
                } else {
                    rest
                }
            }
        }
    }
}

/// After a scan the registry is still well formed, still holds every pair
/// it held, and holds a pair for every entry the store found; the counter
/// has grown by at most one per scanned entry.
pub proof fn lemma_scan_registers(
    t: Map<u64, Seq<u8>>,
    next: u64,
    es: Seq<TreeEntryModel>,
    ks: Seq<Option<ObjKind>>,
    i: int,
)
    requires
        table_wf(t, next),
        es.len() == ks.len(),
        0 <= i <= es.len(),
        next + (es.len() - i) < u64::MAX,
    ensures
        table_wf(scan(t, next, es, ks, i).table, scan(t, next, es, ks, i).next),
        scan(t, next, es, ks, i).next <= next + (es.len() - i),
        table_extends(scan(t, next, es, ks, i).table, t),
        forall|j: int| i <= j < es.len() && (#[trigger] ks[j]) is Some ==> table_has_hash(
            scan(t, next, es, ks, i).table,
            es[j].hash,
        ),
    decreases es.len() - i,
{
    if i < es.len() {
        let sm = scan(t, next, es, ks, i);
        match ks[i] {
            None => {
                lemma_scan_registers(t, next, es, ks, i + 1);
                assert(sm == scan(t, next, es, ks, i + 1));
            },
            Some(_) => {
                lemma_resolve_registers(t, next, es[i].hash);
                lemma_resolve_keeps_pairs(t, next, es[i].hash);
                let ino = resolve_ino(t, next, es[i].hash);
                let t1 = resolve_table(t, next, es[i].hash);
                let n1 = resolve_next(t, next, es[i].hash);
                lemma_scan_registers(t1, n1, es, ks, i + 1);
                let sm1 = scan(t1, n1, es, ks, i + 1);
                assert(sm.table == sm1.table && sm.next == sm1.next);
                assert(n1 <= next + 1);
                assert forall|k2: u64| #[trigger] t.contains_key(k2) implies sm.table
                    .contains_key(k2) && sm.table[k2] == t[k2] by {
                    assert(t1.contains_key(k2) && t1[k2] == t[k2]);
                    assert(sm1.table.contains_key(k2) && sm1.table[k2] == t1[k2]);
                }
                assert forall|j: int| i <= j < es.len() && (#[trigger] ks[j]) is Some
                    implies table_has_hash(sm.table, es[j].hash) by {
                    if j == i {
                        assert(t1.contains_key(ino) && t1[ino] == es[i].hash);
                        assert(sm1.table.contains_key(ino) && sm1.table[ino] == t1[ino]);
                    } else {
                        assert(table_has_hash(sm1.table, es[j].hash));
                    }
                }
            },
        }
    } else {
        let sm = scan(t, next, es, ks, i);
        assert(sm.table == t);
        assert(table_extends(t, t));
    }
}

/// The rows a scan produces are exactly the listing rows read back from
/// the table the scan leaves behind.
pub proof fn lemma_scan_rows(
    t: Map<u64, Seq<u8>>,
    next: u64,
    es: Seq<TreeEntryModel>,
    ks: Seq<Option<ObjKind>>,
    i: int,
)
    requires
        table_wf(t, next),
        es.len() == ks.len(),
        0 <= i <= es.len(),
        next + (es.len() - i) < u64::MAX,
    ensures
        ({
            let sm = scan(t, next, es, ks, i);
            sm.rows == rows_between(sm.table, es, ks, i, es.len() as int)
        }),
    decreases es.len() - i,
{
    if i < es.len() {
        let sm = scan(t, next, es, ks, i);
        match ks[i] {
            None => {
                lemma_scan_rows(t, next, es, ks, i + 1);
            },
            Some(k) => {
                lemma_resolve_registers(t, next, es[i].hash);
                let ino = resolve_ino(t, next, es[i].hash);
                let t1 = resolve_table(t, next, es[i].hash);
                let n1 = resolve_next(t, next, es[i].hash);
                lemma_scan_rows(t1, n1, es, ks, i + 1);
                lemma_scan_registers(t1, n1, es, ks, i + 1);
                assert(sm.table.contains_key(ino) && sm.table[ino] == es[i].hash) by {
                    assert(t1.contains_key(ino) && t1[ino] == es[i].hash);
                }
                assert(table_ino_of(sm.table, es[i].hash) == ino) by {
                    assert(table_has_hash(sm.table, es[i].hash));
                    let io = table_ino_of(sm.table, es[i].hash);
                    assert(sm.table.contains_key(io) && sm.table[io] == es[i].hash);
                    if io != ino {
                        assert(sm.table[io] != sm.table[ino]);
                    }
                }
            },
        }
    }
}

/// On a registry that already holds every object a scan would register,
/// the scan changes nothing and lists every entry under its registered
/// inode.
pub proof fn lemma_scan_stable(
    t: Map<u64, Seq<u8>>,
    next: u64,
    es: Seq<TreeEntryModel>,
    ks: Seq<Option<ObjKind>>,
    i: int,
)
    requires
        table_wf(t, next),
        es.len() == ks.len(),
        0 <= i <= es.len(),
        forall|j: int| i <= j < es.len() && ks[j] is Some ==> table_has_hash(t, es[j].hash),
    ensures
        ({
            let sm = scan(t, next, es, ks, i);
            &&& sm.table == t
            &&& sm.next == next
            &&& sm.rows == rows_between(t, es, ks, i, es.len() as int)
        }),
    decreases es.len() - i,
{
    if i < es.len() {
        match ks[i] {
            None => {
                lemma_scan_stable(t, next, es, ks, i + 1);
            },
            Some(_) => {
                assert(table_has_hash(t, es[i].hash));
                let io = table_ino_of(t, es[i].hash);
                assert(t.contains_key(io) && t[io] == es[i].hash);
                lemma_registered_ino_stable(t, next, es[i].hash, io);
                lemma_scan_stable(t, next, es, ks, i + 1);
            },
        }
    }
}

/// Listing rows over a range concatenate across any split point.
pub proof fn lemma_rows_between_split(
    tbl: Map<u64, Seq<u8>>,
    es: Seq<TreeEntryModel>,
    ks: Seq<Option<ObjKind>>,
    i: int,
    mid: int,
    end: int,
)
    requires
        0 <= i <= mid <= end <= es.len(),
    ensures
        rows_between(tbl, es, ks, i, end) == rows_between(tbl, es, ks, i, mid) + rows_between(
            tbl,
            es,
            ks,
            mid,
            end,
        ),
    decreases mid - i,
{
    if i == mid {
        assert(rows_between(tbl, es, ks, i, mid) =~= Seq::<DirEntryModel>::empty());
        assert(rows_between(tbl, es, ks, i, mid) + rows_between(tbl, es, ks, mid, end)
            =~= rows_between(tbl, es, ks, mid, end));
    } else {
        lemma_rows_between_split(tbl, es, ks, i + 1, mid, end);
        assert(rows_between(tbl, es, ks, i, end) =~= rows_between(tbl, es, ks, i, mid)
            + rows_between(tbl, es, ks, mid, end));
    }
}

/// The rows a scan produces stand at strictly increasing positions, each
/// above the positions of the synthetic rows and of every entry before the
/// scanned range: a resume offset taken from any row therefore never skips
/// or repeats another row.
pub proof fn lemma_scan_positions(
    t: Map<u64, Seq<u8>>,
    next: u64,
    es: Seq<TreeEntryModel>,
    ks: Seq<Option<ObjKind>>,
    i: int,
)
    requires
        0 <= i,
        es.len() == ks.len(),
        es.len() + 3 <= i64::MAX,
    ensures
        forall|a: int| 0 <= a < scan(t, next, es, ks, i).rows.len() ==> (#[trigger] scan(
            t,
            next,
            es,
            ks,
            i,
        ).rows[a].pos) >= i + 3,
        forall|a: int, b: int| 0 <= a < b < scan(t, next, es, ks, i).rows.len() ==> scan(
            t,
            next,
            es,
            ks,
            i,
        ).rows[a].pos < scan(t, next, es, ks, i).rows[b].pos,
    decreases es.len() - i,
{
    if i < es.len() {
        let sm = scan(t, next, es, ks, i);
        match ks[i] {
            None => {
                lemma_scan_positions(t, next, es, ks, i + 1);
                assert(sm == scan(t, next, es, ks, i + 1));
                assert forall|a: int| 0 <= a < sm.rows.len() implies (#[trigger] sm.rows[a].pos)
                    >= i + 3 by {
                    assert(sm.rows[a].pos >= i + 1 + 3);
                }
            },
            Some(k) => {
                let ino = resolve_ino(t, next, es[i].hash);
                let t1 = resolve_table(t, next, es[i].hash);
                let n1 = resolve_next(t, next, es[i].hash);
                lemma_scan_positions(t1, n1, es, ks, i + 1);
                let rest = scan(t1, n1, es, ks, i + 1);
                if k == ObjKind::Blob || k == ObjKind::Tree {
                    if k == ObjKind::Blob {
                        assert(sm.rows == seq![
                            row_model(ino, i, FileKind::RegularFile, es[i].name),
                        ] + rest.rows);
                    } else {
                        assert(sm.rows == seq![row_model(ino, i, FileKind::Directory, es[i].name)]
                            + rest.rows);
                    }
                    assert(sm.rows[0].pos == i + 3);
                    assert forall|a: int| 0 <= a < sm.rows.len() implies (#[trigger] sm
                        .rows[a].pos) >= i + 3 by {
                        if a > 0 {
                            assert(sm.rows[a] == rest.rows[a - 1]);
                            assert(rest.rows[a - 1].pos >= i + 4);
                        }
                    }
                    assert forall|a: int, b: int| 0 <= a < b < sm.rows.len() implies sm
                        .rows[a].pos < sm.rows[b].pos by {
                        assert(sm.rows[b] == rest.rows[b - 1]);
                        assert(rest.rows[b - 1].pos >= i + 4);
                        if a > 0 {
                            assert(sm.rows[a] == rest.rows[a - 1]);
                        }
                    }
                } else {
                    assert(sm == rest);
                    assert forall|a: int| 0 <= a < sm.rows.len() implies (#[trigger] sm
                        .rows[a].pos) >= i + 3 by {
                        assert(sm.rows[a].pos >= i + 1 + 3);
                    }
                }
            },
        }
    }
}

/// Law (listing resumable by offset): a full scan registers every object
/// the store found; rescanning from any index over the state the full scan
/// left changes nothing further and yields exactly the full listing's rows
/// from that index on — so pages taken with advancing offsets concatenate
/// to the single full listing, with no row duplicated or missing.
pub proof fn lemma_scan_resumable(
    t: Map<u64, Seq<u8>>,
    next: u64,
    es: Seq<TreeEntryModel>,
    ks: Seq<Option<ObjKind>>,
    i: int,
)
    requires
        table_wf(t, next),
        es.len() == ks.len(),
        next + es.len() < u64::MAX,
        0 <= i <= es.len(),
    ensures
        ({
            let full = scan(t, next, es, ks, 0);
            let again = scan(full.table, full.next, es, ks, i);
            &&& again.table == full.table
            &&& again.next == full.next
            &&& full.rows == rows_between(full.table, es, ks, 0, i) + again.rows
        }),
{
    lemma_scan_registers(t, next, es, ks, 0);
    lemma_scan_rows(t, next, es, ks, 0);
    let full = scan(t, next, es, ks, 0);
    lemma_scan_stable(full.table, full.next, es, ks, i);
    lemma_rows_between_split(full.table, es, ks, 0, i, es.len() as int);
}

} // verus!
