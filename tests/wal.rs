use rtain::{ContainerMeta, StorageOperation, WalManager};

fn create(id: &str, name: &str) -> StorageOperation {
    StorageOperation::Create(ContainerMeta::new(
        id.to_string(),
        name.to_string(),
        "nginx:latest".to_string(),
        vec!["nginx".to_string()],
        vec![],
    ))
}

#[test]
fn test_wal_validation() {
    let wal = WalManager::new("/tmp/wal", 3);
    assert!(wal.validate_operation(&create("valid_id", "valid_name")).is_ok());
    assert!(wal.validate_operation(&create("", "name")).is_err());
    assert!(wal.validate_operation(&create("id", "")).is_err());
    assert!(wal.validate_operation(&StorageOperation::Delete(String::new())).is_err());
    assert!(wal.validate_operation(&StorageOperation::DetachNetwork { id: String::new() }).is_err());
    assert!(wal.validate_operation(&StorageOperation::DetachNetwork { id: "x".to_string() }).is_ok());
    assert!(wal
        .validate_operation(&StorageOperation::RemoveMount { id: String::new(), destination: "/d".to_string() })
        .is_err());
    assert!(wal
        .validate_operation(&StorageOperation::Batch(vec![create("a", "b"), StorageOperation::Delete(String::new())]))
        .is_err());
}

#[test]
fn test_wal_integrity_verification() {
    let wal = WalManager::new("/tmp/wal", 3);
    let ops = vec![create("valid_container", "valid_name"), create("", "x"), StorageOperation::Delete("y".to_string()), StorageOperation::Delete(String::new())];
    let report = wal.verify_integrity(ops);
    assert_eq!(report.total_operations, 4);
    assert_eq!(report.error_count(), 2);
    assert!(!report.is_valid());
    assert_eq!(report.errors[0].index, 1);
    assert_eq!(report.errors[1].index, 3);
    assert!(wal.verify_integrity(vec![]).is_valid());
}

#[test]
fn test_wal_compaction() {
    let wal = WalManager::new("/tmp/wal", 3);
    let ops = vec![create("container1", "test1"), create("container2", "test2"), StorageOperation::Delete("container1".to_string())];
    let kept = wal.compact_entries(ops, 1);
    assert_eq!(kept.len(), 1);
    match &kept[0] {
        StorageOperation::Delete(id) => assert_eq!(id, "container1"),
        _ => panic!("Expected Delete operation after compaction"),
    }
    assert!(wal.compact_entries(vec![create("a", "b")], 5).is_empty());
}

#[test]
fn wal_paths_and_purge() {
    let wal = WalManager::new("/var/wal", 2);
    assert_eq!(wal.current_path, "/var/wal/current.wal");
    assert_eq!(wal.archive_dir, "/var/wal/archive");
    assert_eq!(wal.archive_path(1700000000), "/var/wal/archive/wal-1700000000.log");
    assert_eq!(wal.temp_path(), "/var/wal/current.wal.tmp");
    assert_eq!(wal.archives_to_purge(5), 3);
    assert_eq!(wal.archives_to_purge(1), 0);
}
