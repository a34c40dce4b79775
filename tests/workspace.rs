use rtain::{delete_workspace, new_workspace, WorkspaceStep};

fn s(x: &str) -> String {
    x.to_string()
}

#[test]
fn workspace_without_volume() {
    let steps = new_workspace("busybox.tar", "/r", "/r/mnt", &None, false).unwrap();
    assert_eq!(
        steps,
        vec![
            WorkspaceStep::CreateDir(s("/r/image")),
            WorkspaceStep::ExtractImage { tar: s("busybox.tar"), dest: s("/r/image") },
            WorkspaceStep::CreateDir(s("/r/writeLayer")),
            WorkspaceStep::CreateDir(s("/r/work")),
            WorkspaceStep::CreateDir(s("/r/mnt")),
            WorkspaceStep::MountOverlay { lower: s("/r/image"), upper: s("/r/writeLayer"), work: s("/r/work"), target: s("/r/mnt") },
        ]
    );
    let present = new_workspace("busybox.tar", "/r", "/r/mnt", &None, true).unwrap();
    assert_eq!(present.len(), 5);
    assert_eq!(
        delete_workspace("/r", "/r/mnt", &None),
        vec![WorkspaceStep::Unmount { target: s("/r/mnt"), detach: false }, WorkspaceStep::RemoveTree(s("/r"))]
    );
}

#[test]
fn workspace_with_volume() {
    let v = Some(s("/host/data:/data"));
    let steps = new_workspace("img.tar", "/r", "/r/mnt", &v, true).unwrap();
    assert_eq!(steps[steps.len() - 1], WorkspaceStep::BindMount { source: s("/host/data"), target: s("/r/mnt/data") });
    assert_eq!(steps[steps.len() - 2], WorkspaceStep::CreateDir(s("/r/mnt/data")));
    assert_eq!(steps[steps.len() - 3], WorkspaceStep::CreateDir(s("/host/data")));
    assert_eq!(
        delete_workspace("/r", "/r/mnt", &v),
        vec![
            WorkspaceStep::Unmount { target: s("/r/mnt/data"), detach: true },
            WorkspaceStep::Unmount { target: s("/r/mnt"), detach: false },
            WorkspaceStep::RemoveTree(s("/r")),
        ]
    );
    assert!(new_workspace("img.tar", "/r", "/r/mnt", &Some(s("bad")), true).is_err());
    assert!(new_workspace("img.tar", "/r", "/r/mnt", &Some(s("a:b:c")), true).is_err());
}
