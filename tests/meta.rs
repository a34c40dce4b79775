use rtain::{
    current_time, ContainerFilter, ContainerMeta, ContainerStatus, MountPoint, MountType,
    NetworkConfig, ResourceConfig,
};
use std::collections::HashMap;

#[test]
fn test_container_meta_new() {
    let meta = ContainerMeta::new(
        "test_id".to_string(),
        "test_container".to_string(),
        "nginx:latest".to_string(),
        vec!["nginx".to_string()],
        vec!["-g".to_string(), "daemon off;".to_string()],
    );

    assert_eq!(meta.id, "test_id");
    assert_eq!(meta.name, "test_container");
    assert_eq!(meta.image, "nginx:latest");
    assert_eq!(meta.command, vec!["nginx"]);
    assert_eq!(meta.args, vec!["-g", "daemon off;"]);
    assert_eq!(meta.state.status, ContainerStatus::Creating);
    assert!(meta.env.is_empty());
    assert!(meta.labels.is_empty());
    assert!(meta.mounts.is_empty());
}

#[test]
fn test_container_state_transitions() {
    let mut meta = ContainerMeta::new(
        "test_id".to_string(),
        "test_container".to_string(),
        "nginx:latest".to_string(),
        vec!["nginx".to_string()],
        vec![],
    );

    meta.set_running(1234);
    assert_eq!(meta.state.status, ContainerStatus::Running);
    assert_eq!(meta.state.pid, Some(1234));
    assert!(meta.state.started_at.is_some());

    meta.set_stopped(Some(0), None);
    assert_eq!(meta.state.status, ContainerStatus::Exited);
    assert_eq!(meta.state.pid, None);
    assert_eq!(meta.state.exit_code, Some(0));
    assert!(meta.state.finished_at.is_some());

    meta.set_stopped(Some(1), Some("Error occurred".to_string()));
    assert_eq!(meta.state.exit_code, Some(1));
    assert_eq!(meta.state.error, Some("Error occurred".to_string()));
}

#[test]
fn test_container_status_methods() {
    assert!(ContainerStatus::Running.is_running());
    assert!(!ContainerStatus::Exited.is_running());
    assert!(!ContainerStatus::Creating.is_running());

    assert!(ContainerStatus::Exited.is_stopped());
    assert!(ContainerStatus::Dead.is_stopped());
    assert!(!ContainerStatus::Running.is_stopped());

    assert!(ContainerStatus::Exited.can_start());
    assert!(!ContainerStatus::Dead.can_start());
    assert!(!ContainerStatus::Running.can_start());

    assert!(ContainerStatus::Running.can_stop());
    assert!(ContainerStatus::Paused.can_stop());
    assert!(!ContainerStatus::Exited.can_stop());
}

#[test]
fn test_container_filter_matches() {
    let mut meta = ContainerMeta::new(
        "test_id".to_string(),
        "web-app".to_string(),
        "nginx:latest".to_string(),
        vec!["nginx".to_string()],
        vec![],
    );
    meta.state.status = ContainerStatus::Running;
    meta.labels.push(("app".to_string(), "web".to_string()));
    meta.labels.push(("env".to_string(), "prod".to_string()));

    let filter = ContainerFilter {
        status: Some(ContainerStatus::Running),
        ..Default::default()
    };
    assert!(filter.matches(&meta));

    let filter = ContainerFilter {
        status: Some(ContainerStatus::Exited),
        ..Default::default()
    };
    assert!(!filter.matches(&meta));

    let filter = ContainerFilter {
        labels: [("app".to_string(), "web".to_string())].into(),
        ..Default::default()
    };
    assert!(filter.matches(&meta));

    let filter = ContainerFilter {
        labels: [("app".to_string(), "db".to_string())].into(),
        ..Default::default()
    };
    assert!(!filter.matches(&meta));

    let filter = ContainerFilter {
        name_pattern: Some("web".to_string()),
        ..Default::default()
    };
    assert!(filter.matches(&meta));

    let filter = ContainerFilter {
        name_pattern: Some("database".to_string()),
        ..Default::default()
    };
    assert!(!filter.matches(&meta));

    let now = current_time();
    let filter = ContainerFilter {
        since: Some(now - 100),
        until: Some(now + 100),
        ..Default::default()
    };
    assert!(filter.matches(&meta));

    let filter = ContainerFilter {
        since: Some(now + 100),
        ..Default::default()
    };
    assert!(!filter.matches(&meta));
}

#[test]
fn filter_constructors() {
    let f = ContainerFilter::by_status(ContainerStatus::Dead);
    assert_eq!(f.status, Some(ContainerStatus::Dead));
    assert!(f.labels.is_empty() && f.since.is_none() && f.limit.is_none());

    let f = ContainerFilter::by_label("app", "web");
    assert_eq!(f.labels, vec![("app".to_string(), "web".to_string())]);

    let f = ContainerFilter::recent_at(2, 10_000);
    assert_eq!(f.since, Some(10_000 - 7200));
    let f = ContainerFilter::recent_at(5, 100);
    assert_eq!(f.since, Some(0));
    assert!(ContainerFilter::recent(1).since.is_some());
}

#[test]
fn filter_name_and_empty_pattern() {
    let meta = ContainerMeta::new(
        "i".to_string(),
        "abcabd".to_string(),
        "img".to_string(),
        vec!["sh".to_string()],
        vec![],
    );
    let with = |p: &str| ContainerFilter { name_pattern: Some(p.to_string()), ..Default::default() };
    assert!(with("").matches(&meta));
    assert!(with("abd").matches(&meta));
    assert!(with("abcabd").matches(&meta));
    assert!(!with("abcabdx").matches(&meta));
    assert!(!with("abe").matches(&meta));
}

#[test]
fn test_resource_config() {
    let resources = ResourceConfig {
        memory_limit: Some(512 * 1024 * 1024),
        cpu_millis: Some(1500),
        pids_limit: Some(1000),
        disk_limit: None,
    };

    assert_eq!(resources.memory_limit, Some(512 * 1024 * 1024));
    assert_eq!(resources.cpu_millis, Some(1500));
    assert_eq!(resources.pids_limit, Some(1000));
    assert_eq!(resources.disk_limit, None);
}

#[test]
fn test_network_config() {
    let network = NetworkConfig {
        ip_address: Some("172.17.0.2".to_string()),
        network_name: "bridge".to_string(),
        mac_address: Some("02:42:ac:11:00:02".to_string()),
        ports: HashMap::from([(80, 8080), (443, 8443)]),
    };

    assert_eq!(network.ip_address, Some("172.17.0.2".to_string()));
    assert_eq!(network.network_name, "bridge");
    assert_eq!(network.ports.get(&80), Some(&8080));
    assert_eq!(network.ports.get(&443), Some(&8443));
}

#[test]
fn test_mount_point() {
    let mount = MountPoint {
        source: "/host/data".to_string(),
        destination: "/app/data".to_string(),
        mount_type: MountType::Bind,
        read_only: false,
    };

    assert_eq!(mount.source, "/host/data");
    assert_eq!(mount.destination, "/app/data");
    assert!(matches!(mount.mount_type, MountType::Bind));
    assert!(!mount.read_only);
}

#[test]
fn record_copy_keeps_every_field() {
    let mut meta = ContainerMeta::new(
        "id1".to_string(),
        "n1".to_string(),
        "img".to_string(),
        vec!["a".to_string(), "b".to_string()],
        vec!["c".to_string()],
    );
    meta.labels.push(("k".to_string(), "v".to_string()));
    meta.mounts.push(MountPoint {
        source: "/s".to_string(),
        destination: "/d".to_string(),
        mount_type: MountType::Volume,
        read_only: true,
    });
    let copy = meta.duplicate();
    assert_eq!(copy.id, "id1");
    assert_eq!(copy.command, vec!["a", "b"]);
    assert_eq!(copy.labels, meta.labels);
    assert_eq!(copy.mounts.len(), 1);
    assert_eq!(copy.mounts[0].destination, "/d");
    assert_eq!(copy.created_at, meta.created_at);
}
