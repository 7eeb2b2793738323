use gilber::attr::{root_attr, FileAttrBuilder, FileKind, TTL_SECS};
use gilber::fs::{
    getattr_finish, getattr_start, lookup_entry, lookup_start, read_finish, read_start,
    readdir_start, AttrStep, EntryStep, FsError, LookupStep, ObjKind, ReadStep, ReaddirStep,
    TreeData, TreeEntry,
};
use gilber::inode::InodeRegistry;
use gilber::oid::parse_hash_text;

const COMMIT_TEXT: &str = "0123456789abcdef0123456789abcdef01234567";

fn bytes(s: &str) -> Vec<u8> {
    s.as_bytes().to_vec()
}

#[test]
fn parse_hash_accepts_forty_hex_chars() {
    let h = parse_hash_text(&bytes(COMMIT_TEXT)).unwrap();
    assert_eq!(h.len(), 20);
    assert_eq!(h[0], 0x01);
    assert_eq!(h[1], 0x23);
    assert_eq!(h[7], 0xef);
    assert_eq!(h[19], 0x67);
}

#[test]
fn parse_hash_accepts_upper_case() {
    let h = parse_hash_text(&bytes("ABCDEF0123456789ABCDEF0123456789ABCDEF01")).unwrap();
    assert_eq!(h[0], 0xab);
    assert_eq!(h[2], 0xef);
}

#[test]
fn parse_hash_rejects_other_text() {
    assert_eq!(parse_hash_text(&bytes("not-a-hash")), None);
    assert_eq!(parse_hash_text(&bytes("")), None);
    // one character short
    assert_eq!(parse_hash_text(&bytes("0123456789abcdef0123456789abcdef0123456")), None);
    // one character long
    assert_eq!(parse_hash_text(&bytes("0123456789abcdef0123456789abcdef012345678")), None);
    // right length, one character outside the hexadecimal alphabet
    assert_eq!(parse_hash_text(&bytes("0123456789abcdef0123456789abcdef0123456g")), None);
}

#[test]
fn lookup_at_root_accepts_only_hash_names() {
    let reg = InodeRegistry::new();
    match lookup_start(&reg, 1, &bytes(COMMIT_TEXT)) {
        LookupStep::CommitTree(h) => assert_eq!(h, parse_hash_text(&bytes(COMMIT_TEXT)).unwrap()),
        _ => panic!("a hash name under the root must ask for the commit's tree"),
    }
    match lookup_start(&reg, 1, &bytes("not-a-hash")) {
        LookupStep::Fail(e) => assert_eq!(e, FsError::NotFound),
        _ => panic!("a non-hash name under the root must fail"),
    }
}

#[test]
fn lookup_under_unregistered_parent_fails() {
    let reg = InodeRegistry::new();
    match lookup_start(&reg, 42, &bytes("a.txt")) {
        LookupStep::Fail(e) => assert_eq!(e, FsError::NotFound),
        _ => panic!("an unregistered parent must fail"),
    }
}

#[test]
fn lookup_under_registered_parent_hands_over_its_hash() {
    let mut reg = InodeRegistry::new();
    let h = vec![9u8; 20];
    let ino = reg.resolve_or_assign(&h);
    match lookup_start(&reg, ino, &bytes("a.txt")) {
        LookupStep::ParentTree(h2) => assert_eq!(h2, h),
        _ => panic!("a registered parent's hash must be fetched"),
    }
}

fn sample_tree() -> TreeData {
    TreeData {
        ino: 2,
        parent_ino: 1,
        entries: vec![
            TreeEntry { name: bytes("a.txt"), hash: vec![1u8; 20], kind: Some(ObjKind::Blob) },
            TreeEntry { name: bytes("d"), hash: vec![2u8; 20], kind: Some(ObjKind::Tree) },
            TreeEntry { name: bytes("link"), hash: vec![3u8; 20], kind: Some(ObjKind::Other) },
        ],
    }
}

#[test]
fn lookup_entry_dispatches_on_the_recorded_kind() {
    let tree = sample_tree();
    match lookup_entry(&tree, &bytes("a.txt")) {
        EntryStep::FetchBlob(h) => assert_eq!(h, vec![1u8; 20]),
        _ => panic!("a blob entry must be fetched as a blob"),
    }
    match lookup_entry(&tree, &bytes("d")) {
        EntryStep::FetchTree(h) => assert_eq!(h, vec![2u8; 20]),
        _ => panic!("a tree entry must be fetched as a tree"),
    }
    match lookup_entry(&tree, &bytes("link")) {
        EntryStep::Fail(e) => assert_eq!(e, FsError::NotFound),
        _ => panic!("an unsupported entry kind must fail"),
    }
    match lookup_entry(&tree, &bytes("missing")) {
        EntryStep::Fail(e) => assert_eq!(e, FsError::NotFound),
        _ => panic!("a missing name must fail"),
    }
}

#[test]
fn root_attributes_are_a_directory_under_inode_one() {
    let a = root_attr();
    assert_eq!(a.ino, 1);
    assert_eq!(a.kind, FileKind::Directory);
    assert_eq!(a.size, 0);
    assert_eq!(a.perm, 0o755);
    assert_eq!(a.nlink, 2);
    assert_eq!(a.atime.sec, 0);
}

#[test]
fn builder_carries_the_mount_identity() {
    let b = FileAttrBuilder::new().uid(7).gid(8);
    assert_eq!(b.uid, 7);
    assert_eq!(b.gid, 8);
    let a = b.tree_attr(3);
    assert_eq!(a.uid, 7);
    assert_eq!(a.gid, 8);
    assert_eq!(TTL_SECS, 1);
}

#[test]
fn getattr_on_root_is_the_fixed_attr() {
    let reg = InodeRegistry::new();
    match getattr_start(&reg, 1) {
        AttrStep::Root(a) => {
            assert_eq!(a, root_attr());
        }
        _ => panic!("the root answers at once"),
    }
}

#[test]
fn getattr_reports_directory_for_trees_and_file_for_blobs() {
    let b = FileAttrBuilder::new().uid(1000).gid(100);
    let t = getattr_finish(&b, 5, ObjKind::Tree, 0).unwrap();
    assert_eq!(t.kind, FileKind::Directory);
    assert_eq!(t.size, 0);
    assert_eq!(t.perm, 0o755);
    assert_eq!(t.nlink, 2);
    assert_eq!(t.uid, 1000);
    assert_eq!(t.gid, 100);
    let f = getattr_finish(&b, 6, ObjKind::Blob, 17).unwrap();
    assert_eq!(f.kind, FileKind::RegularFile);
    assert_eq!(f.size, 17);
    assert_eq!(f.perm, 0o644);
    assert_eq!(f.nlink, 1);
    assert_eq!(getattr_finish(&b, 7, ObjKind::Commit, 0), Err(FsError::NotFound));
    assert_eq!(getattr_finish(&b, 8, ObjKind::Other, 0), Err(FsError::NotFound));
}

#[test]
fn getattr_on_unregistered_inode_fails() {
    let reg = InodeRegistry::new();
    match getattr_start(&reg, 33) {
        AttrStep::Fail(e) => assert_eq!(e, FsError::NotFound),
        _ => panic!("an unregistered inode has no attributes"),
    }
}

#[test]
fn read_on_root_is_a_directory() {
    let reg = InodeRegistry::new();
    match read_start(&reg, 1) {
        ReadStep::Fail(e) => assert_eq!(e, FsError::IsDirectory),
        _ => panic!("the root cannot be read"),
    }
}

#[test]
fn read_on_tree_is_a_directory() {
    let empty: Vec<u8> = Vec::new();
    assert_eq!(read_finish(ObjKind::Tree, &empty, 0, 10), Err(FsError::IsDirectory));
}

#[test]
fn read_returns_the_clipped_byte_range() {
    let content = bytes("hello, filesystem");
    let whole = read_finish(ObjKind::Blob, &content, 0, 1000).unwrap();
    assert_eq!(whole, content);
    let middle = read_finish(ObjKind::Blob, &content, 7, 10).unwrap();
    assert_eq!(middle, bytes("filesystem"));
    let clipped = read_finish(ObjKind::Blob, &content, 12, 1000).unwrap();
    assert_eq!(clipped, bytes("ystem"));
    let one = read_finish(ObjKind::Blob, &content, 1, 1).unwrap();
    assert_eq!(one, bytes("e"));
}

#[test]
fn read_past_the_end_is_empty_not_an_error() {
    let content = bytes("hi");
    assert_eq!(read_finish(ObjKind::Blob, &content, 2, 10).unwrap(), Vec::<u8>::new());
    assert_eq!(read_finish(ObjKind::Blob, &content, 1000, 10).unwrap(), Vec::<u8>::new());
}

#[test]
fn read_with_negative_offset_is_invalid() {
    let content = bytes("hi");
    assert_eq!(read_finish(ObjKind::Blob, &content, -1, 10), Err(FsError::InvalidArgument));
}

#[test]
fn readdir_on_root_fails_not_found() {
    let reg = InodeRegistry::new();
    match readdir_start(&reg, 1, 0) {
        ReaddirStep::Fail(e) => assert_eq!(e, FsError::NotFound),
        _ => panic!("the root is not listable"),
    }
}

#[test]
fn readdir_with_negative_offset_is_invalid() {
    let reg = InodeRegistry::new();
    match readdir_start(&reg, 5, -3) {
        ReaddirStep::Fail(e) => assert_eq!(e, FsError::InvalidArgument),
        _ => panic!("a negative resume offset is invalid"),
    }
}

#[test]
fn readdir_on_unregistered_inode_fails() {
    let reg = InodeRegistry::new();
    match readdir_start(&reg, 5, 0) {
        ReaddirStep::Fail(e) => assert_eq!(e, FsError::NotFound),
        _ => panic!("an unregistered inode has no listing"),
    }
}
