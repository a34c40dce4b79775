use rtain::{
    get_resource_summary, ContainerMeta, ContainerStatus, InnerState, LoggingEventHandler,
    MetadataEvent, MetricsEventHandler, ResourceConfig, Snapshotter, StorageConfig,
    StorageOperation,
};

fn meta(id: &str, name: &str) -> ContainerMeta {
    ContainerMeta::new(id.to_string(), name.to_string(), "img".to_string(), vec!["sh".to_string()], vec![])
}

#[test]
fn operations_announce_events() {
    let mut state = InnerState::new();
    let create = StorageOperation::Create(meta("a", "web"));
    match state.operation_to_event(&create) {
        Some(MetadataEvent::ContainerCreated { id, name }) => {
            assert_eq!(id, "a");
            assert_eq!(name, "web");
        }
        other => panic!("unexpected {:?}", other),
    }
    state.apply_operation(create).unwrap();
    let up = StorageOperation::UpdateStatus { id: "a".to_string(), status: ContainerStatus::Running };
    match state.operation_to_event(&up) {
        Some(MetadataEvent::StatusChanged { old_status, new_status, name, .. }) => {
            assert_eq!(old_status, ContainerStatus::Creating);
            assert_eq!(new_status, ContainerStatus::Running);
            assert_eq!(name, "web");
        }
        other => panic!("unexpected {:?}", other),
    }
    assert!(state.operation_to_event(&StorageOperation::Delete("zz".to_string())).is_none());
    assert!(state.operation_to_event(&StorageOperation::DetachNetwork { id: "a".to_string() }).is_none());
    match state.operation_to_event(&StorageOperation::Delete("a".to_string())) {
        Some(MetadataEvent::ContainerDeleted { name, .. }) => assert_eq!(name, "web"),
        other => panic!("unexpected {:?}", other),
    }
}

#[test]
fn metrics_and_log_lines() {
    let mut m = MetricsEventHandler::default();
    let created = MetadataEvent::ContainerCreated { id: "a".to_string(), name: "w".to_string() };
    let deleted = MetadataEvent::ContainerDeleted { id: "a".to_string(), name: "w".to_string() };
    let changed = MetadataEvent::StatusChanged {
        id: "a".to_string(),
        name: "w".to_string(),
        old_status: ContainerStatus::Creating,
        new_status: ContainerStatus::Running,
    };
    m.handle(&created);
    m.handle(&created);
    m.handle(&changed);
    m.handle(&deleted);
    assert_eq!(m.container_count, 1);
    assert_eq!(m.status_changes, 1);
    m.handle(&deleted);
    m.handle(&deleted);
    assert_eq!(m.container_count, 0);
    assert_eq!(LoggingEventHandler {}.describe(&created), "Container created: a");
    assert_eq!(LoggingEventHandler {}.describe(&changed), "Container status changed: a");
}

#[test]
fn resource_totals() {
    let mut a = meta("a", "x");
    a.state.status = ContainerStatus::Running;
    a.resources = ResourceConfig { memory_limit: Some(512), cpu_millis: Some(1500), pids_limit: None, disk_limit: None };
    let mut b = meta("b", "y");
    b.resources.memory_limit = Some(1024);
    let mut c = meta("c", "z");
    c.state.status = ContainerStatus::Running;
    c.resources.memory_limit = Some(u64::MAX);
    let s = get_resource_summary(&vec![a, b, c]);
    assert_eq!(s.total_count, 3);
    assert_eq!(s.running_count, 2);
    assert_eq!(s.total_memory, u64::MAX);
    assert_eq!(s.total_cpu_millis, 1500);
    assert_eq!(s.containers_by_status, vec![(ContainerStatus::Running, 2), (ContainerStatus::Creating, 1)]);
    assert_eq!(get_resource_summary(&vec![]).containers_by_status.len(), 0);
}

#[test]
fn snapshot_paths_and_defaults() {
    let s = Snapshotter::new("/snaps", 3);
    assert_eq!(s.temp_path(), "/snaps/tmp.snapshot");
    assert_eq!(s.snapshot_path(42), "/snaps/snapshot-42.bin");
    assert_eq!(s.snapshots_to_purge(5), 2);
    assert_eq!(s.snapshots_to_purge(3), 0);
    let c = StorageConfig::under("/tmp/rtain");
    assert_eq!(c.wal_dir, "/tmp/rtain/containermetas/wal");
    assert_eq!(c.snapshots_dir, "/tmp/rtain/containermetas/snapshots");
    assert_eq!((c.max_wals, c.max_snapshots, c.snapshot_intervals_secs, c.cleanup_interval_secs), (10, 10, 60, 180));
}
