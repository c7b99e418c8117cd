use shared_storage::entry::{
    copy_path, name_to_text, text_to_name, Directory, DirectoryEntry, PathComponent,
};
use shared_storage::storage::StorageIdentifier;
use shared_storage::Error;

fn path(names: &[&str]) -> Vec<PathComponent> {
    names.iter().map(|n| PathComponent::Normal(n.as_bytes().to_vec())).collect()
}

fn id(bytes: &[u8]) -> StorageIdentifier {
    StorageIdentifier::compute(bytes, false)
}

#[test]
fn empty_dir() {
    let dir = Directory::default();
    assert!(dir.is_empty());
}

#[test]
fn mkdir_is_idempotent() {
    let mut dir = Directory::new();
    dir.mkdir(b"bin".to_vec()).unwrap();
    assert!(!dir.is_empty());
    dir.traverse_mut(&path(&["bin"]), false).unwrap().insert_file(b"sh".to_vec(), id(b"sh")).unwrap();
    dir.mkdir(b"bin".to_vec()).unwrap();
    assert_eq!(dir.len(), 1);
    let bin = dir.traverse(&path(&["bin"])).unwrap();
    assert_eq!(bin.len(), 1);
    assert!(matches!(bin.get(b"sh"), Some(DirectoryEntry::File(_))));
}

#[test]
fn mkdir_over_a_file_fails() {
    let mut dir = Directory::new();
    dir.insert_file(b"README".to_vec(), id(b"r")).unwrap();
    match dir.mkdir(b"README".to_vec()) {
        Err(Error::DirectoryEntryExistsAsFile(name)) => assert_eq!(name, b"README".to_vec()),
        other => panic!("{:?}", other),
    }
    assert!(matches!(dir.get(b"README"), Some(DirectoryEntry::File(_))));
}

#[test]
fn insert_file_same_identifier_is_idempotent() {
    let mut dir = Directory::new();
    dir.insert_file(b"README".to_vec(), id(b"r")).unwrap();
    dir.insert_file(b"README".to_vec(), id(b"r")).unwrap();
    assert_eq!(dir.len(), 1);
    match dir.get(b"README") {
        Some(DirectoryEntry::File(f)) => assert!(f.same_as(&id(b"r"))),
        other => panic!("{:?}", other),
    }
}

#[test]
fn insert_file_different_identifier_fails() {
    let mut dir = Directory::new();
    dir.insert_file(b"README".to_vec(), id(b"r")).unwrap();
    match dir.insert_file(b"README".to_vec(), id(b"other")) {
        Err(Error::FileEntryExistsAsFile(name)) => assert_eq!(name, b"README".to_vec()),
        other => panic!("{:?}", other),
    }
    match dir.insert_file(b"README".to_vec(), StorageIdentifier::compute(b"r", true)) {
        Err(Error::FileEntryExistsAsFile(name)) => assert_eq!(name, b"README".to_vec()),
        other => panic!("{:?}", other),
    }
    match dir.get(b"README") {
        Some(DirectoryEntry::File(f)) => assert!(f.same_as(&id(b"r"))),
        other => panic!("{:?}", other),
    }
}

#[test]
fn insert_file_over_a_directory_fails() {
    let mut dir = Directory::new();
    dir.mkdir(b"share".to_vec()).unwrap();
    match dir.insert_file(b"share".to_vec(), id(b"r")) {
        Err(Error::FileEntryExistsAsDirectory(name)) => assert_eq!(name, b"share".to_vec()),
        other => panic!("{:?}", other),
    }
    assert!(matches!(dir.get(b"share"), Some(DirectoryEntry::Directory(_))));
}

#[test]
fn traverse_reports_what_is_in_the_way() {
    let mut dir = Directory::new();
    dir.mkdir(b"share".to_vec()).unwrap();
    dir.insert_file(b"README".to_vec(), id(b"r")).unwrap();
    assert!(dir.traverse(&Vec::new()).unwrap().len() == 2);
    assert!(dir.traverse(&path(&["share"])).unwrap().is_empty());
    match dir.traverse(&path(&["share", "doc"])) {
        Err(Error::EntryNotFound(name)) => assert_eq!(name, b"doc".to_vec()),
        other => panic!("{:?}", other),
    }
    match dir.traverse(&path(&["README", "doc"])) {
        Err(Error::EntryNotDirectory(name)) => assert_eq!(name, b"README".to_vec()),
        other => panic!("{:?}", other),
    }
}

#[test]
fn traverse_rejects_components_that_are_no_names() {
    let mut dir = Directory::new();
    dir.mkdir(b"a".to_vec()).unwrap();
    let cur = vec![PathComponent::CurDir, PathComponent::Normal(b"a".to_vec())];
    assert!(dir.traverse(&cur).unwrap().is_empty());
    let parent = vec![PathComponent::Normal(b"a".to_vec()), PathComponent::ParentDir];
    assert!(matches!(dir.traverse(&parent), Err(Error::UnexpectedParent(p)) if p.len() == 2));
    let root = vec![PathComponent::RootDir, PathComponent::Normal(b"a".to_vec())];
    assert!(matches!(dir.traverse(&root), Err(Error::UnexpectedRootDir(p)) if p.len() == 2));
    let prefix = vec![PathComponent::Prefix];
    assert!(matches!(dir.traverse(&prefix), Err(Error::UnexpectedPrefix(p)) if p.len() == 1));
    assert!(matches!(dir.traverse_mut(&parent, true), Err(Error::UnexpectedParent(_))));
    assert!(matches!(dir.traverse_mut(&root, true), Err(Error::UnexpectedRootDir(_))));
    assert!(matches!(dir.traverse_mut(&prefix, true), Err(Error::UnexpectedPrefix(_))));
}

#[test]
fn traverse_mut_creates_only_when_asked() {
    let mut dir = Directory::new();
    match dir.traverse_mut(&path(&["share", "doc"]), false) {
        Err(Error::EntryNotFound(name)) => assert_eq!(name, b"share".to_vec()),
        other => panic!("{:?}", other.map(|_| ())),
    }
    assert!(dir.is_empty());
    dir.traverse_mut(&path(&["share", "doc"]), true)
        .unwrap()
        .insert_file(b"README".to_vec(), id(b"r"))
        .unwrap();
    let doc = dir.traverse(&path(&["share", "doc"])).unwrap();
    assert_eq!(doc.len(), 1);
    let (name, entry) = doc.entry_at(0);
    assert_eq!(name, &b"README".to_vec());
    assert!(matches!(entry, DirectoryEntry::File(f) if f.same_as(&id(b"r"))));
}

#[test]
fn traverse_mut_keeps_what_it_created_before_failing() {
    let mut dir = Directory::new();
    dir.insert_file(b"f".to_vec(), id(b"f")).unwrap();
    let p = vec![
        PathComponent::Normal(b"a".to_vec()),
        PathComponent::Normal(b"b".to_vec()),
        PathComponent::ParentDir,
    ];
    assert!(matches!(dir.traverse_mut(&p, true), Err(Error::UnexpectedParent(_))));
    assert!(dir.traverse(&path(&["a", "b"])).unwrap().is_empty());
    match dir.traverse_mut(&path(&["f", "g"]), true) {
        Err(Error::EntryNotDirectory(name)) => assert_eq!(name, b"f".to_vec()),
        other => panic!("{:?}", other.map(|_| ())),
    }
    assert_eq!(dir.len(), 2);
}

#[test]
fn names_need_not_be_text() {
    let mut dir = Directory::new();
    let odd = vec![0xff, 0xfe, b'/', 0x00];
    dir.mkdir(odd.clone()).unwrap();
    assert!(matches!(dir.get(&odd), Some(DirectoryEntry::Directory(_))));
    assert!(dir.get(&odd[..3]).is_none());
    let p = vec![PathComponent::Normal(odd.clone())];
    assert!(dir.traverse(&p).unwrap().is_empty());
    let copy = copy_path(&p);
    assert!(matches!(&copy[0], PathComponent::Normal(n) if n == &odd));
}

#[test]
fn name_text_round_trips() {
    assert_eq!(name_to_text(b"README"), vec!['R', 'E', 'A', 'D', 'M', 'E']);
    let every: Vec<u8> = (0..=255u8).collect();
    let text = name_to_text(&every);
    assert_eq!(text.len(), 256);
    assert_eq!(text[0xe9], '\u{e9}');
    assert_eq!(text_to_name(&text), Some(every));
    assert_eq!(text_to_name(&[]), Some(Vec::new()));
    assert_eq!(text_to_name(&['a', '\u{ff}']), Some(vec![b'a', 0xff]));
    assert_eq!(text_to_name(&['a', '\u{100}']), None);
    assert_eq!(text_to_name(&['\u{20ac}']), None);
}

#[test]
fn insert_directory_puts_a_tree_in() {
    let mut sub = Directory::new();
    sub.insert_file(b"README".to_vec(), id(b"r")).unwrap();
    let mut dir = Directory::new();
    dir.insert_directory(b"doc".to_vec(), sub).unwrap();
    let doc = dir.traverse(&path(&["doc"])).unwrap();
    assert!(matches!(doc.get(b"README"), Some(DirectoryEntry::File(f)) if f.same_as(&id(b"r"))));
    match dir.insert_directory(b"doc".to_vec(), Directory::new()) {
        Err(Error::FileEntryExistsAsDirectory(name)) => assert_eq!(name, b"doc".to_vec()),
        other => panic!("{:?}", other),
    }
    assert_eq!(dir.traverse(&path(&["doc"])).unwrap().len(), 1);
    dir.insert_file(b"f".to_vec(), id(b"f")).unwrap();
    match dir.insert_directory(b"f".to_vec(), Directory::new()) {
        Err(Error::DirectoryEntryExistsAsFile(name)) => assert_eq!(name, b"f".to_vec()),
        other => panic!("{:?}", other),
    }
}
