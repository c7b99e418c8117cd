use shared_storage::entry::{Directory, DirectoryEntry, PathComponent};
use shared_storage::import::{Import, ImportAction, ImportInput};
use shared_storage::storage::{
    ImportEvent, SaveStage, SharedStorage, StorageIdentifier, MAX_METADATA_SIZE,
};
use shared_storage::Error;

fn tree(file: &[u8]) -> Directory {
    let mut dir = Directory::new();
    dir.insert_file(file.to_vec(), StorageIdentifier::compute(file, false)).unwrap();
    dir
}

#[test]
fn create_twice() {
    let ss = SharedStorage::new(b"/tmp/store".to_vec());
    assert_eq!(
        ss.prepare_paths(),
        vec![b"/tmp/store".to_vec(), b"/tmp/store/data".to_vec(), b"/tmp/store/indices".to_vec()]
    );
    assert_eq!(ss.len(), 0);
    drop(ss);
    let ss = SharedStorage::new(b"/tmp/store".to_vec());
    assert_eq!(ss.base(), &b"/tmp/store".to_vec());
    assert_eq!(ss.len(), 0);
    assert!(!ss.has(b"test-index-1"));
}

#[test]
fn index_files_lie_under_indices() {
    let ss = SharedStorage::new(b"/s".to_vec());
    assert_eq!(ss.indices_directory(), b"/s/indices".to_vec());
    assert_eq!(ss.index_file(b"test-index-1"), b"/s/indices/test-index-1".to_vec());
    let mut ss = ss;
    ss.insert(b"test-index-1".to_vec(), tree(b"a"), true);
    ss.insert(b"a.json".to_vec(), tree(b"a"), true);
    let plan = ss.save_index(b"test-index-1", 10).unwrap().unwrap();
    assert_eq!(plan.target, b"/s/indices/test-index-1".to_vec());
    assert_eq!(plan.temp, b"/s/indices/test-index-1.tmp".to_vec());
    let dotted = ss.save_index(b"a.json", 10).unwrap().unwrap();
    assert_eq!(dotted.temp, b"/s/indices/a.json.tmp".to_vec());
}

#[test]
fn save_failures_name_the_file_at_fault() {
    let mut ss = SharedStorage::new(b"/s".to_vec());
    ss.insert(b"i".to_vec(), tree(b"a"), true);
    let plan = ss.save_index(b"i", 10).unwrap().unwrap();
    match plan.failure(SaveStage::Write, String::from("exists")) {
        Error::WritingIndex(path, cause) => {
            assert_eq!(path, b"/s/indices/i.tmp".to_vec());
            assert_eq!(cause, "exists");
        }
        other => panic!("{:?}", other),
    }
    match plan.failure(SaveStage::Rename, String::from("busy")) {
        Error::WritingIndex(path, cause) => {
            assert_eq!(path, b"/s/indices/i".to_vec());
            assert_eq!(cause, "busy");
        }
        other => panic!("{:?}", other),
    }
}

#[test]
fn only_dirty_indices_are_saved() {
    let mut ss = SharedStorage::new(b"/s".to_vec());
    ss.insert(b"clean".to_vec(), tree(b"a"), false);
    ss.insert(b"dirty".to_vec(), tree(b"a"), true);
    assert!(ss.save_index(b"clean", 10).unwrap().is_none());
    assert!(ss.save_index(b"clean", 2000000).unwrap().is_none());
    assert!(ss.save_index(b"dirty", 10).unwrap().is_some());
    ss.mark_saved(b"dirty");
    assert!(ss.save_index(b"dirty", 10).unwrap().is_none());
    assert_eq!(ss.indices(), vec![b"clean".to_vec(), b"dirty".to_vec()]);
}

#[test]
fn finished_import_becomes_a_dirty_index() {
    let mut ss = SharedStorage::new(b"/s".to_vec());
    let import: Import<u8> = Import::new();
    let (import, action) = import.step(ImportInput::Event(Some(ImportEvent::Directory(vec![
        PathComponent::Normal(b"bin".to_vec()),
    ]))));
    assert!(matches!(action, ImportAction::Pull));
    let (import, action) = import.step(ImportInput::Event(None));
    assert!(matches!(action, ImportAction::Commit));
    ss.import(b"test-index-1".to_vec(), import).unwrap();
    assert!(ss.is_dirty(b"test-index-1"));
    assert!(matches!(
        ss.index(b"test-index-1").unwrap().get(b"bin"),
        Some(DirectoryEntry::Directory(d)) if d.is_empty()
    ));
}

#[test]
fn failed_import_leaves_no_index() {
    let mut ss = SharedStorage::new(b"/s".to_vec());
    ss.insert(b"test-index-1".to_vec(), tree(b"a"), false);
    let import: Import<u8> = Import::new();
    let (import, action) =
        import.step(ImportInput::Event(Some(ImportEvent::FileData(b"stray".to_vec()))));
    assert!(matches!(action, ImportAction::Fail));
    assert!(matches!(
        ss.import(b"test-index-1".to_vec(), import),
        Err(Error::UnexpectedFileData)
    ));
    assert!(!ss.is_dirty(b"test-index-1"));
    assert!(ss.index(b"test-index-1").unwrap().get(b"a").is_some());
    assert_eq!(ss.len(), 1);
}

#[test]
fn index_over_the_limit_is_not_saved() {
    let mut ss = SharedStorage::new(b"/s".to_vec());
    ss.insert(b"big".to_vec(), tree(b"a"), true);
    assert_eq!(MAX_METADATA_SIZE, 1024 * 1024);
    assert!(ss.save_index(b"big", 1048576).unwrap().is_some());
    match ss.save_index(b"big", 1048577) {
        Err(Error::IndexTooLarge(name, len)) => {
            assert_eq!(name, b"big".to_vec());
            assert_eq!(len, 1048577);
        }
        other => panic!("{:?}", other),
    }
}

#[test]
fn index_over_the_limit_is_not_loaded() {
    let ss = SharedStorage::new(b"/s".to_vec());
    assert!(matches!(ss.admit_index_file(b"a", true, 0), Ok(true)));
    assert!(matches!(ss.admit_index_file(b"a", true, 1048576), Ok(true)));
    assert!(matches!(ss.admit_index_file(b"a", false, 5), Ok(false)));
    assert!(matches!(ss.admit_index_file(b"a", false, 1048577), Ok(false)));
    match ss.admit_index_file(b"a", true, 1048577) {
        Err(Error::IndexTooLarge(path, len)) => {
            assert_eq!(path, b"/s/indices/a".to_vec());
            assert_eq!(len, 1048577);
        }
        other => panic!("{:?}", other),
    }
}

#[test]
fn loaded_indices_are_clean_and_imported_ones_dirty() {
    let mut ss = SharedStorage::new(b"/s".to_vec());
    ss.insert(b"old".to_vec(), tree(b"a"), false);
    ss.insert(b"new".to_vec(), tree(b"b"), true);
    assert_eq!(ss.len(), 2);
    assert!(!ss.is_dirty(b"old"));
    assert!(ss.is_dirty(b"new"));
    assert!(!ss.is_dirty(b"none"));
    ss.mark_saved(b"new");
    assert!(!ss.is_dirty(b"new"));
    assert!(matches!(ss.index(b"new").unwrap().get(b"b"), Some(DirectoryEntry::File(_))));
    assert!(ss.index(b"new").unwrap().get(b"a").is_none());
    assert!(ss.index(b"none").is_none());
    assert_eq!(ss.name_at(0), &b"old".to_vec());
    assert_eq!(ss.name_at(1), &b"new".to_vec());
}

#[test]
fn insert_replaces_an_index_of_the_same_name() {
    let mut ss = SharedStorage::new(b"/s".to_vec());
    ss.insert(b"i".to_vec(), tree(b"a"), false);
    ss.insert(b"i".to_vec(), tree(b"b"), true);
    assert_eq!(ss.len(), 1);
    assert!(ss.is_dirty(b"i"));
    assert!(ss.index(b"i").unwrap().get(b"a").is_none());
    assert!(ss.index(b"i").unwrap().get(b"b").is_some());
}

#[test]
fn failed_commit_takes_the_index_out_again() {
    let mut ss = SharedStorage::new(b"/s".to_vec());
    ss.insert(b"keep".to_vec(), tree(b"a"), false);
    ss.insert(b"drop".to_vec(), tree(b"b"), true);
    ss.insert(b"also".to_vec(), tree(b"c"), false);
    ss.remove(b"drop");
    assert_eq!(ss.len(), 2);
    assert!(ss.has(b"keep") && ss.has(b"also") && !ss.has(b"drop"));
    ss.remove(b"drop");
    assert_eq!(ss.len(), 2);
    assert!(ss.index(b"also").unwrap().get(b"c").is_some());
}
