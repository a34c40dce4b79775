use rtain::{
    ContainerFilter, ContainerMeta, ContainerStatus, InnerState, MountPoint, MountType,
    StorageOperation,
};

fn meta(id: &str, name: &str) -> ContainerMeta {
    ContainerMeta::new(
        id.to_string(),
        name.to_string(),
        "ubuntu:latest".to_string(),
        vec!["/bin/bash".to_string()],
        vec![],
    )
}

#[test]
fn test_inner_state_apply_create_operation() {
    let mut state = InnerState::new();
    let m = meta("container1", "test_container");
    let result = state.apply_operation(StorageOperation::Create(m.duplicate()));
    assert!(result.is_ok(), "Failed to apply create operation");
    assert!(state.get_meta_by_id(&m.id).is_some(), "Container not found in by_id map");
    assert!(state.get_meta_by_name(&m.name).is_some(), "Container not found in by_name map");
}

#[test]
fn test_inner_state_apply_update_status() {
    let mut state = InnerState::new();
    let mut m = meta("container1", "test_container");
    m.set_running(1234);
    state.apply_operation(StorageOperation::Create(m.duplicate())).unwrap();
    let result = state.apply_operation(StorageOperation::UpdateStatus {
        id: m.id.clone(),
        status: ContainerStatus::Exited,
    });
    assert!(result.is_ok(), "Failed to apply update status operation");
    match state.get_meta_by_id(&m.id) {
        Some(updated) => assert_eq!(updated.state.status, ContainerStatus::Exited, "Status update failed"),
        None => panic!("Container not found after status update"),
    }
}

#[test]
fn test_inner_state_apply_delete_operation() {
    let mut state = InnerState::new();
    let m = meta("container1", "test_container");
    state.apply_operation(StorageOperation::Create(m.duplicate())).unwrap();
    let result = state.apply_operation(StorageOperation::Delete(m.id.clone()));
    assert!(result.is_ok(), "Failed to apply delete operation");
    assert!(state.get_meta_by_id(&m.id).is_none(), "Container was not removed from by_id map");
    assert!(state.get_meta_by_name(&m.name).is_none(), "Container was not removed from by_name map");
}

#[test]
fn test_batch_operations() {
    let mut state = InnerState::new();
    let m1 = meta("container1", "test_container1");
    let m2 = meta("container2", "test_container2");
    let batch = StorageOperation::Batch(vec![
        StorageOperation::Create(m1.duplicate()),
        StorageOperation::Create(m2.duplicate()),
        StorageOperation::UpdateStatus { id: m1.id.clone(), status: ContainerStatus::Running },
    ]);
    assert!(state.apply_operation(batch).is_ok(), "Failed to apply batch operation");
    assert_eq!(state.get_all_metas().len(), 2);
    assert_eq!(state.get_meta_by_id(&m1.id).unwrap().state.status, ContainerStatus::Running);
    assert_eq!(state.get_meta_by_id(&m2.id).unwrap().state.status, ContainerStatus::Creating);
    assert_eq!(state.get_meta_by_name(&m2.name).unwrap().id, "container2");
}

#[test]
fn test_labels_operation_isolated() {
    let mut state = InnerState::new();
    let m = meta("container1", "test_container");
    state.apply_operation(StorageOperation::Create(m.duplicate())).unwrap();
    let op = StorageOperation::UpdateLabels {
        id: m.id.clone(),
        labels: vec![("version".to_string(), "1.0".to_string())],
    };
    assert!(state.apply_operation(op).is_ok());
    let got = state.get_meta_by_id(&m.id).unwrap();
    assert_eq!(got.labels, vec![("version".to_string(), "1.0".to_string())]);
}

#[test]
fn duplicate_names_and_ids_are_refused() {
    let mut state = InnerState::new();
    state.apply_operation(StorageOperation::Create(meta("a", "web"))).unwrap();
    assert!(state.apply_operation(StorageOperation::Create(meta("b", "web"))).is_err());
    assert!(state.apply_operation(StorageOperation::Create(meta("a", "db"))).is_err());
    assert_eq!(state.get_all_metas().len(), 1);
    assert_eq!(state.get_meta_by_name(&"web".to_string()).unwrap().id, "a");
    assert!(state.get_meta_by_name(&"db".to_string()).is_none());
}

#[test]
fn failed_batch_changes_nothing() {
    let mut state = InnerState::new();
    let batch = StorageOperation::Batch(vec![
        StorageOperation::Create(meta("a", "x")),
        StorageOperation::Create(meta("b", "x")),
        StorageOperation::Create(meta("c", "y")),
    ]);
    assert!(state.apply_operation(batch).is_err());
    // a failed batch leaves nothing behind
    assert!(state.get_meta_by_id(&"a".to_string()).is_none());
    assert!(state.get_all_metas().is_empty());
    assert!(state.get_meta_by_id(&"b".to_string()).is_none());
    assert!(state.get_meta_by_id(&"c".to_string()).is_none());
}

#[test]
fn mounts_network_and_time_stamps() {
    let mut state = InnerState::new();
    state.apply_operation_at(StorageOperation::Create(meta("a", "x")), 10).unwrap();
    let mount = |d: &str| MountPoint {
        source: "/h".to_string(),
        destination: d.to_string(),
        mount_type: MountType::Bind,
        read_only: false,
    };
    state.apply_operation_at(StorageOperation::AddMount { id: "a".to_string(), mount: mount("/d1") }, 20).unwrap();
    state.apply_operation_at(StorageOperation::AddMount { id: "a".to_string(), mount: mount("/d2") }, 30).unwrap();
    state.apply_operation_at(StorageOperation::AddMount { id: "a".to_string(), mount: mount("/d1") }, 40).unwrap();
    state
        .apply_operation_at(StorageOperation::RemoveMount { id: "a".to_string(), destination: "/d1".to_string() }, 50)
        .unwrap();
    let got = state.get_meta_by_id(&"a".to_string()).unwrap();
    assert_eq!(got.mounts.len(), 1);
    assert_eq!(got.mounts[0].destination, "/d2");
    assert_eq!(got.updated_at, 50);
    // an update of an unknown id changes nothing and succeeds
    assert!(state.apply_operation_at(StorageOperation::DetachNetwork { id: "zz".to_string() }, 60).is_ok());
    assert_eq!(state.get_meta_by_id(&"a".to_string()).unwrap().updated_at, 50);
}

#[test]
fn commit_needs_the_log_first() {
    let mut state = InnerState::new();
    let staged = state.stage(StorageOperation::Create(meta("a", "x")), 1).unwrap();
    assert!(state.settle(staged, Err("disk full".to_string())).is_err());
    assert!(state.get_meta_by_id(&"a".to_string()).is_none());
    let staged = state.stage(StorageOperation::Create(meta("a", "x")), 1).unwrap();
    assert!(state.settle(staged, Ok(())).is_ok());
    assert!(state.get_meta_by_id(&"a".to_string()).is_some());
    // an operation that does not apply is refused before anything is logged
    assert!(state.stage(StorageOperation::Create(meta("b", "x")), 2).is_err());
    assert_eq!(state.get_all_metas().len(), 1);
}

#[test]
fn replay_equals_one_by_one() {
    let ops = || {
        vec![
            (5, StorageOperation::Create(meta("a", "x"))),
            (6, StorageOperation::Create(meta("b", "y"))),
            (7, StorageOperation::UpdateStatus { id: "a".to_string(), status: ContainerStatus::Running }),
            (8, StorageOperation::Delete("b".to_string())),
        ]
    };
    let mut one = InnerState::new();
    for (t, op) in ops() {
        one.apply_operation_at(op, t).unwrap();
    }
    let mut all = InnerState::new();
    all.replay(ops()).unwrap();
    let a1 = one.get_meta_by_id(&"a".to_string()).unwrap();
    let a2 = all.get_meta_by_id(&"a".to_string()).unwrap();
    assert_eq!(a1.state.status, a2.state.status);
    assert_eq!(a1.updated_at, a2.updated_at);
    assert_eq!(one.get_all_metas().len(), 1);
    assert_eq!(all.get_all_metas().len(), 1);
    assert!(all.get_meta_by_name(&"y".to_string()).is_none());
}

#[test]
fn listing_with_filter_and_limit() {
    let mut state = InnerState::new();
    for (id, name) in [("1", "web-1"), ("2", "web-2"), ("3", "db")] {
        state.apply_operation(StorageOperation::Create(meta(id, name))).unwrap();
    }
    let f = ContainerFilter { name_pattern: Some("web".to_string()), ..Default::default() };
    let got = state.list_containers(&f);
    assert_eq!(got.len(), 2);
    assert!(got.iter().all(|m| m.name.starts_with("web")));
    let f = ContainerFilter { limit: Some(1), ..Default::default() };
    assert_eq!(state.list_containers(&f).len(), 1);
    let f = ContainerFilter::by_status(ContainerStatus::Running);
    assert!(state.list_containers(&f).is_empty());
}

#[test]
fn queries_by_status_and_label() {
    let mut state = InnerState::new();
    state.apply_operation(StorageOperation::Create(meta("1", "a"))).unwrap();
    state.apply_operation(StorageOperation::Create(meta("2", "b"))).unwrap();
    state
        .apply_operation(StorageOperation::UpdateStatus { id: "2".to_string(), status: ContainerStatus::Running })
        .unwrap();
    state
        .apply_operation(StorageOperation::UpdateLabels {
            id: "1".to_string(),
            labels: vec![("app".to_string(), "web".to_string())],
        })
        .unwrap();
    let running = state.get_containers_by_status(ContainerStatus::Running);
    assert_eq!(running.len(), 1);
    assert_eq!(running[0].id, "2");
    let web = state.get_containers_by_label("app", "web");
    assert_eq!(web.len(), 1);
    assert_eq!(web[0].id, "1");
    assert!(state.get_containers_by_label("app", "db").is_empty());
}

#[test]
fn backward_status_moves_are_refused() {
    let mut state = InnerState::new();
    let mut m = meta("a", "x");
    m.set_running(7);
    state.apply_operation(StorageOperation::Create(m)).unwrap();
    let to = |s| StorageOperation::UpdateStatus { id: "a".to_string(), status: s };
    assert!(state.apply_operation(to(ContainerStatus::Exited)).is_ok());
    assert!(state.apply_operation(to(ContainerStatus::Creating)).is_err());
    assert!(state.apply_operation(to(ContainerStatus::Paused)).is_err());
    assert_eq!(state.get_meta_by_id(&"a".to_string()).unwrap().state.status, ContainerStatus::Exited);
    assert!(state.apply_operation(to(ContainerStatus::Dead)).is_ok());
    assert!(state.apply_operation(to(ContainerStatus::Running)).is_err());
    assert_eq!(state.get_meta_by_id(&"a".to_string()).unwrap().state.status, ContainerStatus::Dead);
}
