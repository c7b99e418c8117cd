use shared_storage::storage::{BlobPlan, BlobStage, BlobStat, StorageIdentifier};
use shared_storage::Error;

const README: &[u8] = b"This is the README file\n";
const README_HASH: &[u8] = b"c284ed2ff7715893b8ad67ceb229e717e74e5fe03f47fdf5557ab397acf6b8b7";
const PROGRAM: &[u8] = b"This is a program file\n";
const PROGRAM_HASH: &[u8] = b"2e71aa8d11ad7aeaaeee2fa412ee762e6e9f269acbbd18b3f95d700d58fe4b03";

#[test]
fn compute_hashes_the_bytes() {
    let id = StorageIdentifier::compute(README, false);
    assert_eq!(id.hash().as_slice(), README_HASH);
    assert_eq!(id.size(), 24);
    assert!(!id.executable());
    let empty = StorageIdentifier::compute(b"", true);
    assert_eq!(
        empty.hash().as_slice(),
        &b"e3b0c44298fc1c149afbf4c8996fb92427ae41e4649b934ca495991b7852b855"[..]
    );
    assert_eq!(empty.size(), 0);
    assert!(empty.executable());
}

#[test]
fn from_digest_writes_lower_case_hex() {
    let mut digest = [0u8; 32];
    digest[0] = 0x0f;
    digest[1] = 0xa0;
    digest[31] = 0xff;
    let id = StorageIdentifier::from_digest(&digest, 5, false);
    let hash = id.hash();
    assert_eq!(hash.len(), 64);
    assert_eq!(&hash[0..4], &b"0fa0"[..]);
    assert_eq!(&hash[4..62], &[b'0'; 58][..]);
    assert_eq!(&hash[62..64], &b"ff"[..]);
}

#[test]
fn filename_follows_the_layout() {
    let id = StorageIdentifier::compute(README, false);
    assert_eq!(
        id.filename(b"/srv/store"),
        b"/srv/store/data/c2/84/ed2ff7715893b8ad67ceb229e717e74e5fe03f47fdf5557ab397acf6b8b7-24".to_vec()
    );
    let program = StorageIdentifier::compute(PROGRAM, true);
    assert_eq!(program.hash().as_slice(), PROGRAM_HASH);
    assert_eq!(
        program.filename(b"base"),
        b"base/data/2e/71/aa8d11ad7aeaaeee2fa412ee762e6e9f269acbbd18b3f95d700d58fe4b03-23x".to_vec()
    );
}

#[test]
fn filename_writes_the_size_in_decimal() {
    let hash = vec![b'a'; 64];
    let zero = StorageIdentifier::new(hash.clone(), 0, false).unwrap();
    assert!(zero.filename(b"b").ends_with(b"-0"));
    let big = StorageIdentifier::new(hash.clone(), 1048576, true).unwrap();
    assert!(big.filename(b"b").ends_with(b"-1048576x"));
    let ten = StorageIdentifier::new(hash, 10, false).unwrap();
    assert!(ten.filename(b"b").ends_with(b"aaaa-10"));
}

#[test]
fn identifier_is_pure() {
    let a = StorageIdentifier::compute(README, false);
    let b = StorageIdentifier::compute(README, false);
    assert!(a.same_as(&b));
    assert_eq!(a, b);
    assert_eq!(a.filename(b"root"), b.filename(b"root"));
    let x = StorageIdentifier::compute(README, true);
    assert!(!a.same_as(&x));
    assert_ne!(a, x);
    assert_ne!(a.filename(b"root"), x.filename(b"root"));
    let other = StorageIdentifier::compute(PROGRAM, false);
    assert!(!a.same_as(&other));
    assert!(a.duplicate().same_as(&a));
}

#[test]
fn new_accepts_only_hashes() {
    assert!(StorageIdentifier::new(README_HASH.to_vec(), 24, false).is_some());
    assert!(StorageIdentifier::new(b"c284".to_vec(), 24, false).is_none());
    let mut upper = README_HASH.to_vec();
    upper[0] = b'C';
    assert!(StorageIdentifier::new(upper, 24, false).is_none());
    let mut other = README_HASH.to_vec();
    other[63] = b'g';
    assert!(StorageIdentifier::new(other, 24, false).is_none());
    let same = StorageIdentifier::new(README_HASH.to_vec(), 24, false).unwrap();
    assert!(same.same_as(&StorageIdentifier::compute(README, false)));
    let longer = StorageIdentifier::new(README_HASH.to_vec(), 25, false).unwrap();
    assert!(!longer.same_as(&same));
}

#[test]
fn blob_plan_names_directory_target_and_temp() {
    let plan = BlobPlan::new(b"/s", PROGRAM, true);
    assert!(plan.identity.same_as(&StorageIdentifier::compute(PROGRAM, true)));
    assert_eq!(plan.directory, b"/s/data/2e/71".to_vec());
    assert_eq!(
        plan.target,
        b"/s/data/2e/71/aa8d11ad7aeaaeee2fa412ee762e6e9f269acbbd18b3f95d700d58fe4b03-23x".to_vec()
    );
    let mut temp = plan.target.clone();
    temp.extend_from_slice(b".tmp");
    assert_eq!(plan.temp, temp);
}

#[test]
fn blob_is_written_only_when_missing() {
    let plan = BlobPlan::new(b"/s", README, false);
    assert!(matches!(plan.must_write(BlobStat::Present), Ok(false)));
    assert!(matches!(plan.must_write(BlobStat::Missing), Ok(true)));
    match plan.must_write(BlobStat::Failed(String::from("denied"))) {
        Err(Error::IOErrorAddingToStorage(path, cause)) => {
            assert_eq!(path, plan.target);
            assert_eq!(cause, "denied");
        }
        other => panic!("{:?}", other),
    }
}

#[test]
fn blob_failures_name_the_file_at_fault() {
    let plan = BlobPlan::new(b"/s", README, false);
    match plan.failure(BlobStage::MakeDirectories, String::from("a")) {
        Error::IOErrorAddingToStorage(path, cause) => {
            assert_eq!(path, plan.target);
            assert_eq!(cause, "a");
        }
        other => panic!("{:?}", other),
    }
    match plan.failure(BlobStage::Write, String::from("exists")) {
        Error::IOErrorAddingToStorage(path, cause) => {
            assert_eq!(path, plan.temp);
            assert_eq!(cause, "exists");
        }
        other => panic!("{:?}", other),
    }
}
