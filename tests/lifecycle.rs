use rtain::container::lifecycle::{
    check_exec, commit_command, container_name, exit_line, log_path, mount_point, name_id, on_child_token,
    ps_table, random_id, refusal_message, workspace_root, ExitKind, SyncToken,
};
use rtain::container::text::{decimal_text, hex_text, join_text, signed_decimal_text};
use rtain::{
    remove_container, start_container, stop_container, ContainerMeta, ContainerStatus,
    InnerState, LifecycleError, StorageOperation,
};

fn meta(id: &str, name: &str, status: ContainerStatus) -> ContainerMeta {
    let mut m = ContainerMeta::new(
        id.to_string(),
        name.to_string(),
        "busybox.tar".to_string(),
        vec!["/bin/sh".to_string(), "-c".to_string(), "sleep 60".to_string()],
        vec![],
    );
    m.state.status = status;
    m
}

#[test]
fn ps_on_empty_daemon() {
    assert_eq!(ps_table(&vec![]), "ID\tNAME\tPID\tCOMMAND\tSTATUS\n");
}

#[test]
fn ps_lists_rows() {
    let mut m = meta("abc", "web", ContainerStatus::Running);
    m.state.pid = Some(42);
    let s = meta("def", "db", ContainerStatus::Exited);
    assert_eq!(
        ps_table(&vec![m, s]),
        "ID\tNAME\tPID\tCOMMAND\tSTATUS\nabc\tweb\t42\t/bin/sh -c sleep 60\tRunning\ndef\tdb\t0\t/bin/sh -c sleep 60\tExited\n"
    );
}

#[test]
fn rm_of_running_container_is_rejected() {
    let m = meta("a", "web", ContainerStatus::Running);
    let e = remove_container(&Some(m)).unwrap_err();
    assert_eq!(e, LifecycleError::StillRunning);
    let text = refusal_message("rm", "web", e);
    assert_eq!(text, "Failed to rm container web, it's still running");
    assert!(text.ends_with("still running"));
    match remove_container(&Some(meta("a", "web", ContainerStatus::Exited))) {
        Ok(StorageOperation::Delete(id)) => assert_eq!(id, "a"),
        other => panic!("unexpected {:?}", other),
    }
    assert_eq!(remove_container(&None).unwrap_err(), LifecycleError::NotFound);
}

#[test]
fn stop_twice_is_fine() {
    let mut state = InnerState::new();
    state.apply_operation(StorageOperation::Create(meta("a", "sleeper", ContainerStatus::Running))).unwrap();
    let m = state.get_meta_by_name(&"sleeper".to_string());
    state.apply_operation(stop_container(&m).unwrap()).unwrap();
    assert_eq!(state.get_meta_by_id(&"a".to_string()).unwrap().state.status, ContainerStatus::Exited);
    let m = state.get_meta_by_name(&"sleeper".to_string());
    assert!(state.apply_operation(stop_container(&m).unwrap()).is_ok());
    assert_eq!(state.get_meta_by_id(&"a".to_string()).unwrap().state.status, ContainerStatus::Exited);
    assert_eq!(stop_container(&None).unwrap_err(), LifecycleError::NotFound);
}

#[test]
fn start_and_exec_checks() {
    assert_eq!(start_container(&None, 9, 100).unwrap_err(), LifecycleError::NotFound);
    assert_eq!(
        start_container(&Some(meta("a", "x", ContainerStatus::Running)), 9, 100).unwrap_err(),
        LifecycleError::AlreadyRunning
    );
    assert_eq!(
        start_container(&Some(meta("a", "x", ContainerStatus::Dead)), 9, 100).unwrap_err(),
        LifecycleError::NotAllowed
    );
    match start_container(&Some(meta("a", "x", ContainerStatus::Exited)), 9, 100) {
        Ok(StorageOperation::UpdateState { id, state }) => {
            assert_eq!(id, "a");
            assert_eq!(state.status, ContainerStatus::Running);
            assert_eq!(state.pid, Some(9));
            assert_eq!(state.started_at, Some(100));
        },
        other => panic!("unexpected {:?}", other),
    }
    assert_eq!(stop_container(&Some(meta("a", "x", ContainerStatus::Dead))).unwrap_err(), LifecycleError::NotAllowed);
    assert_eq!(
        refusal_message("start", "x", LifecycleError::NotAllowed),
        "Failed to start container x, its status does not allow it"
    );
    assert_eq!(check_exec(&Some(meta("a", "x", ContainerStatus::Exited))), Err(LifecycleError::NotRunning));
    assert_eq!(check_exec(&Some(meta("a", "x", ContainerStatus::Running))), Ok(()));
}

#[test]
fn names_and_paths() {
    let id = random_id();
    assert_eq!(id.len(), 32);
    assert!(id.chars().all(|c| c.is_ascii_hexdigit() && !c.is_ascii_uppercase()));
    assert_eq!(container_name(None, &"abc".to_string()), "abc");
    assert_eq!(container_name(Some("web".to_string()), &"abc".to_string()), "web");
    let nid = name_id("web", "abc");
    assert_eq!(nid, "web-abc");
    let root = workspace_root(&nid);
    assert_eq!(root, "/tmp/rtain/web-abc");
    assert_eq!(mount_point(&root), "/tmp/rtain/web-abc/mnt");
    assert_eq!(log_path(&root), "/tmp/rtain/web-abc/log.log");
}

#[test]
fn handshake_tokens() {
    assert_eq!(SyncToken::Wait.to_bytes(), b"WAIT".to_vec());
    assert_eq!(SyncToken::Cont.to_bytes(), b"CONT".to_vec());
    assert_eq!(SyncToken::Exit.to_bytes(), b"EXIT".to_vec());
    assert_eq!(SyncToken::from_bytes(b"CONT"), Some(SyncToken::Cont));
    assert_eq!(SyncToken::from_bytes(b"WAI"), None);
    assert_eq!(SyncToken::from_bytes(b"WAIX"), None);
    assert_eq!(on_child_token(b"WAIT"), Ok(()));
    assert_eq!(on_child_token(b"EXIT"), Err(LifecycleError::InitFailed));
    assert_eq!(on_child_token(b"CONT"), Err(LifecycleError::UnexpectedToken));
    assert_eq!(on_child_token(b"junk"), Err(LifecycleError::UnexpectedToken));
}

#[test]
fn text_forms() {
    assert_eq!(decimal_text(0), "0");
    assert_eq!(decimal_text(1234567890), "1234567890");
    assert_eq!(signed_decimal_text(-42), "-42");
    assert_eq!(signed_decimal_text(i64::MIN), "-9223372036854775808");
    assert_eq!(hex_text(&[0x00, 0xff, 0x1a]), "00ff1a");
    assert_eq!(join_text(&vec!["a".to_string(), "b c".to_string()]), "a b c");
    assert_eq!(join_text(&vec![]), "");
    assert_eq!(exit_line(ExitKind::Code(0)), "Container exited with code: 0\n");
    assert_eq!(exit_line(ExitKind::Signal(9)), "Container exited with signal: 9\n");
}

#[test]
fn commit_arguments() {
    assert_eq!(commit_command("web", "/r/mnt"), vec!["-czf", "web/web.tar", "-C", "/r/mnt", "."]);
}
