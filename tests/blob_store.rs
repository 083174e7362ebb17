use maven_cache::blob::blob_storage::BlobKey;
use maven_cache::blob::fs_blob_storage::{BlobDirOp, FsBlobStorage, FsckBlobAction, FsckDirAction};
use maven_cache::blob::transient_blob_storage::{StorageError, TransientBlobStorage};
use maven_cache::util::digests::BlobDigester;

const KEY: BlobKey = BlobKey(0x550e8400e29b41d4a716446655440000);
const KEY_TEXT: &str = "550e8400-e29b-41d4-a716-446655440000";

#[test]
fn transient_store_round_trip_with_digests() {
    let mut store = TransientBlobStorage::new();
    let key = store.insert(&vec![b"a".to_vec(), b"".to_vec(), b"bc".to_vec()]).unwrap();
    let blob = store.get(&key).unwrap();
    assert_eq!(blob.data, b"abc".to_vec());
    assert_eq!(blob.sha1, [
        0xa9, 0x99, 0x3e, 0x36, 0x47, 0x06, 0x81, 0x6a, 0xba, 0x3e, 0x25, 0x71, 0x78, 0x50, 0xc2, 0x6c,
        0x9c, 0xd0, 0xd8, 0x9d,
    ]);
    assert_eq!(blob.md5, [0x90, 0x01, 0x50, 0x98, 0x3c, 0xd2, 0x4f, 0xb0, 0xd6, 0x96, 0x3f, 0x7d, 0x28, 0xe1, 0x7f, 0x72]);
    assert!(store.delete(&key));
    assert!(store.get(&key).is_none());
    assert!(!store.delete(&key));
}

#[test]
fn transient_store_keeps_blobs_apart() {
    let mut store = TransientBlobStorage::new();
    let a = store.insert(&vec![b"one".to_vec()]).unwrap();
    let b = store.insert(&vec![]).unwrap();
    assert_ne!(a, b);
    assert_eq!(store.get(&a).unwrap().data, b"one".to_vec());
    let empty = store.get(&b).unwrap();
    assert!(empty.data.is_empty());
    assert_eq!(empty.md5, [0xd4, 0x1d, 0x8c, 0xd9, 0x8f, 0x00, 0xb2, 0x04, 0xe9, 0x80, 0x09, 0x98, 0xec, 0xf8, 0x42, 0x7e]);
}

#[test]
fn sharded_layout() {
    let store = FsBlobStorage::new("/var/blobs".to_string());
    assert_eq!(store.directory_path_for_key(KEY), format!("/var/blobs/5/50e/84/00/{}", KEY_TEXT));
    assert_eq!(store.inserting_path_for_key(KEY), format!("/var/blobs/5/50e/84/00/{}.inserting", KEY_TEXT));
    assert_eq!(store.deleting_path_for_key(KEY), format!("/var/blobs/5/50e/84/00/{}.deleting", KEY_TEXT));
    let rooted = FsBlobStorage::new("/var/blobs/".to_string());
    assert_eq!(rooted.directory_path_for_key(BlobKey(0)), "/var/blobs/0/000/00/00/00000000-0000-0000-0000-000000000000");
}

#[test]
fn blob_directories_are_recognised_by_key() {
    assert_eq!(FsBlobStorage::fsck_directory_action(KEY_TEXT, true, false), FsckDirAction::CheckReference(KEY));
    assert_eq!(
        FsBlobStorage::fsck_directory_action("550E8400E29B41D4A716446655440000", true, false),
        FsckDirAction::CheckReference(KEY)
    );
    assert_eq!(FsBlobStorage::fsck_directory_action("not-a-key", true, false), FsckDirAction::Descend);
    assert_eq!(FsBlobStorage::fsck_directory_action("5", true, false), FsckDirAction::Descend);
}

#[test]
fn temp_folders() {
    assert!(FsBlobStorage::is_temp_folder("550e8400-e29b-41d4-a716-446655440000.inserting"));
    assert!(FsBlobStorage::is_temp_folder("x.deleting"));
    assert!(!FsBlobStorage::is_temp_folder(KEY_TEXT));
    assert!(!FsBlobStorage::is_temp_folder("inserting"));
    assert!(!FsBlobStorage::is_temp_folder("x.inserting.old"));
}

#[test]
fn grace_period() {
    assert!(FsBlobStorage::has_expired_grace_period(Some(1), 0));
    assert!(!FsBlobStorage::has_expired_grace_period(Some(0), 0));
    assert!(!FsBlobStorage::has_expired_grace_period(Some(500), 1000));
    assert!(!FsBlobStorage::has_expired_grace_period(None, 0));
}

#[test]
fn fsck_removes_old_insert_and_keeps_referenced_blob() {
    let inserting = format!("{}.inserting", "11111111-2222-4333-8444-555555555555");
    assert_eq!(FsBlobStorage::fsck_directory_action(&inserting, true, false), FsckDirAction::RemoveTempFolder);
    assert_eq!(FsBlobStorage::fsck_directory_action(KEY_TEXT, true, false), FsckDirAction::CheckReference(KEY));
    assert_eq!(FsBlobStorage::fsck_blob_action(true, false), FsckBlobAction::Descend);
}

#[test]
fn fsck_decisions() {
    assert_eq!(FsBlobStorage::fsck_directory_action("a.deleting", true, true), FsckDirAction::ReportTempFolder);
    assert_eq!(FsBlobStorage::fsck_directory_action("a.deleting", false, false), FsckDirAction::Skip);
    assert_eq!(FsBlobStorage::fsck_directory_action(KEY_TEXT, false, false), FsckDirAction::Skip);
    assert_eq!(FsBlobStorage::fsck_directory_action("50e", false, true), FsckDirAction::Skip);
    assert_eq!(FsBlobStorage::fsck_directory_action("50e", true, false), FsckDirAction::Descend);
    assert_eq!(FsBlobStorage::fsck_blob_action(false, false), FsckBlobAction::RemoveBlob);
    assert_eq!(FsBlobStorage::fsck_blob_action(false, true), FsckBlobAction::ReportBlob);
    assert!(FsBlobStorage::fsck_prunes(false, true, false));
    assert!(!FsBlobStorage::fsck_prunes(false, true, true));
    assert!(!FsBlobStorage::fsck_prunes(false, false, false));
    assert!(!FsBlobStorage::fsck_prunes(true, true, false));
    assert!(FsBlobStorage::fsck_reads_level(7));
    assert!(!FsBlobStorage::fsck_reads_level(8));
}

#[test]
fn protocols() {
    assert_eq!(FsBlobStorage::insert_protocol_ops(), vec![BlobDirOp::CreateStaging, BlobDirOp::WriteData, BlobDirOp::WriteMetadata, BlobDirOp::CommitRename]);
    assert_eq!(FsBlobStorage::delete_protocol_ops(), vec![BlobDirOp::DeleteRename, BlobDirOp::RemoveData, BlobDirOp::RemoveMetadata, BlobDirOp::RemoveDir]);
}

#[test]
fn digester_sees_all_chunks() {
    let mut d = BlobDigester::new();
    d.add(b"a");
    d.add(b"bc");
    let (sha1, md5) = d.finish();
    assert_eq!(sha1[0], 0xa9);
    assert_eq!(sha1[19], 0x9d);
    assert_eq!(md5[0], 0x90);
    assert_eq!(md5[15], 0x72);
}

#[test]
fn insert_with_chosen_key() {
    let mut store = TransientBlobStorage::new();
    assert_eq!(store.insert_with_key(KEY, &vec![b"x".to_vec()]), Ok(KEY));
    assert_eq!(store.insert_with_key(KEY, &vec![b"y".to_vec()]), Err(StorageError::KeyCollision));
    assert_eq!(store.get(&KEY).unwrap().data, b"x".to_vec());
}
