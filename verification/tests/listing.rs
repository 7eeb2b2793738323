use gilber::attr::{FileAttrBuilder, FileKind};
use gilber::fs::{
    lookup_finish_blob, lookup_finish_tree, read_finish, readdir_reply, FsError, ObjKind,
    TreeData, TreeEntry,
};
use gilber::inode::InodeRegistry;

fn name(s: &str) -> Vec<u8> {
    s.as_bytes().to_vec()
}

/// A repository with one commit whose root tree holds one file "a.txt"
/// (content "hi") and one empty subdirectory "d".
fn scenario_tree(reg: &mut InodeRegistry) -> TreeData {
    let tree_hash = vec![0xaau8; 20];
    let root_tree_ino = reg.resolve_or_assign(&tree_hash);
    TreeData {
        ino: root_tree_ino,
        parent_ino: 1,
        entries: vec![
            TreeEntry { name: name("a.txt"), hash: vec![1u8; 20], kind: Some(ObjKind::Blob) },
            TreeEntry { name: name("d"), hash: vec![2u8; 20], kind: Some(ObjKind::Tree) },
        ],
    }
}

#[test]
fn listing_of_the_one_commit_scenario() {
    let mut reg = InodeRegistry::new();
    let tree = scenario_tree(&mut reg);
    let kinds = vec![Some(ObjKind::Blob), Some(ObjKind::Tree)];
    let rows = readdir_reply(&mut reg, &tree, 0, &kinds);
    assert_eq!(rows.len(), 4);
    assert_eq!(rows[0].name, name("."));
    assert_eq!(rows[0].pos, 1);
    assert_eq!(rows[0].ino, tree.ino);
    assert_eq!(rows[0].kind, FileKind::Directory);
    assert_eq!(rows[1].name, name(".."));
    assert_eq!(rows[1].pos, 2);
    assert_eq!(rows[1].ino, 1);
    assert_eq!(rows[1].kind, FileKind::Directory);
    assert_eq!(rows[2].name, name("a.txt"));
    assert_eq!(rows[2].pos, 3);
    assert_eq!(rows[2].kind, FileKind::RegularFile);
    assert_eq!(rows[3].name, name("d"));
    assert_eq!(rows[3].pos, 4);
    assert_eq!(rows[3].kind, FileKind::Directory);
    assert_ne!(rows[2].ino, rows[3].ino);

    let content = name("hi");
    let data = read_finish(ObjKind::Blob, &content, 0, 10).unwrap();
    assert_eq!(data, name("hi"));
}

#[test]
fn paged_listings_concatenate_to_the_full_listing() {
    let mut reg = InodeRegistry::new();
    let tree = scenario_tree(&mut reg);
    let kinds = vec![Some(ObjKind::Blob), Some(ObjKind::Tree)];
    let full = readdir_reply(&mut reg, &tree, 0, &kinds);

    // resume where each prefix left off: offset = position of the last row
    // received so far
    let mut paged: Vec<(u64, i64, FileKind, Vec<u8>)> = Vec::new();
    let mut offset: i64 = 0;
    loop {
        let page = readdir_reply(&mut reg, &tree, offset, &kinds);
        if page.is_empty() {
            break;
        }
        let row = &page[0];
        offset = row.pos;
        paged.push((row.ino, row.pos, row.kind, row.name.clone()));
    }
    assert_eq!(paged.len(), full.len());
    for (p, f) in paged.iter().zip(full.iter()) {
        assert_eq!(p.0, f.ino);
        assert_eq!(p.1, f.pos);
        assert_eq!(p.2, f.kind);
        assert_eq!(p.3, f.name);
    }
}

#[test]
fn repeated_listings_reuse_the_same_inodes() {
    let mut reg = InodeRegistry::new();
    let tree = scenario_tree(&mut reg);
    let kinds = vec![Some(ObjKind::Blob), Some(ObjKind::Tree)];
    let first = readdir_reply(&mut reg, &tree, 0, &kinds);
    let next_after_first = reg.next_inode();
    let second = readdir_reply(&mut reg, &tree, 0, &kinds);
    assert_eq!(reg.next_inode(), next_after_first);
    assert_eq!(first.len(), second.len());
    for (a, b) in first.iter().zip(second.iter()) {
        assert_eq!(a.ino, b.ino);
        assert_eq!(a.name, b.name);
    }
}

#[test]
fn missing_and_unsupported_objects_are_omitted_row_by_row() {
    let mut reg = InodeRegistry::new();
    let tree_hash = vec![0xbbu8; 20];
    let ino = reg.resolve_or_assign(&tree_hash);
    let tree = TreeData {
        ino,
        parent_ino: 1,
        entries: vec![
            TreeEntry { name: name("keep"), hash: vec![1u8; 20], kind: Some(ObjKind::Blob) },
            TreeEntry { name: name("gone"), hash: vec![2u8; 20], kind: Some(ObjKind::Blob) },
            TreeEntry { name: name("odd"), hash: vec![3u8; 20], kind: Some(ObjKind::Blob) },
            TreeEntry { name: name("sub"), hash: vec![4u8; 20], kind: Some(ObjKind::Tree) },
        ],
    };
    // the store found no object for "gone", and an unsupported one for "odd"
    let kinds = vec![Some(ObjKind::Blob), None, Some(ObjKind::Other), Some(ObjKind::Tree)];
    let rows = readdir_reply(&mut reg, &tree, 0, &kinds);
    assert_eq!(rows.len(), 4);
    assert_eq!(rows[2].name, name("keep"));
    assert_eq!(rows[2].pos, 3);
    assert_eq!(rows[3].name, name("sub"));
    // the position reflects the captured ordering, omissions leave gaps
    assert_eq!(rows[3].pos, 6);
}

#[test]
fn offset_skips_rows_at_and_before_it() {
    let mut reg = InodeRegistry::new();
    let tree = scenario_tree(&mut reg);
    let kinds = vec![Some(ObjKind::Blob), Some(ObjKind::Tree)];
    let from_two = readdir_reply(&mut reg, &tree, 2, &kinds);
    assert_eq!(from_two.len(), 2);
    assert_eq!(from_two[0].name, name("a.txt"));
    assert_eq!(from_two[1].name, name("d"));
    let from_three = readdir_reply(&mut reg, &tree, 3, &kinds);
    assert_eq!(from_three.len(), 1);
    assert_eq!(from_three[0].name, name("d"));
    let from_four = readdir_reply(&mut reg, &tree, 4, &kinds);
    assert!(from_four.is_empty());
}

#[test]
fn lookup_finishers_register_and_synthesize() {
    let mut reg = InodeRegistry::new();
    let b = FileAttrBuilder::new().uid(501).gid(20);
    let tree_hash = vec![0xccu8; 20];
    let (tino, tattr) = lookup_finish_tree(&mut reg, &b, &tree_hash);
    assert_eq!(tattr.ino, tino);
    assert_eq!(tattr.kind, FileKind::Directory);
    assert_eq!(tattr.size, 0);
    assert_eq!(tattr.uid, 501);
    assert_eq!(tattr.gid, 20);

    let blob_hash = vec![0xddu8; 20];
    let (bino, battr) = lookup_finish_blob(&mut reg, &b, &blob_hash, 2);
    assert_ne!(bino, tino);
    assert_eq!(battr.ino, bino);
    assert_eq!(battr.kind, FileKind::RegularFile);
    assert_eq!(battr.size, 2);

    // looking the same objects up again reuses their inodes
    let (tino2, _) = lookup_finish_tree(&mut reg, &b, &tree_hash);
    let (bino2, _) = lookup_finish_blob(&mut reg, &b, &blob_hash, 2);
    assert_eq!(tino2, tino);
    assert_eq!(bino2, bino);
}

#[test]
fn error_mapping_is_stable() {
    assert_ne!(FsError::NotFound, FsError::IsDirectory);
    assert_ne!(FsError::IsDirectory, FsError::InvalidArgument);
}
