//! The layered root of a container: the steps that build it and the steps
//! that take it down. The program around the library performs them.
use crate::cmd::{parse_volume, volume_split_at};
use vstd::prelude::*;
use vstd::string::{StrSliceExecFns, StringExecFns};

verus! {

/// One filesystem action on the host.
#[derive(Debug, Clone, PartialEq, Eq)]
pub enum WorkspaceStep {
    /// Create the directory and its parents if absent.
    CreateDir(String),
    /// Extract the image tarball into the directory (`tar -xvf`).
    ExtractImage { tar: String, dest: String },
    /// Mount an overlay at `target`.
    MountOverlay { lower: String, upper: String, work: String, target: String },
    /// Bind-mount `source` at `target`.
    BindMount { source: String, target: String },
    /// Unmount `target`, lazily when `detach` is set.
    Unmount { target: String, detach: bool },
    /// Remove the directory and everything under it.
    RemoveTree(String),
}

/// `mnt` joined with a path inside the container, without its leading `/`.
pub open spec fn inside(mnt: Seq<char>, path: Seq<char>) -> Seq<char> {
    if path.len() > 0 && path[0] == '/' {
        mnt + "/"@ + path.drop_first()
    } else {
        mnt + "/"@ + path
    }
}

fn inside_text(mnt: &str, path: &String) -> (r: String)
    ensures
        r@ == inside(mnt@, path@),
{
    proof {
        reveal_strlit("/");
    }
    let n = path.as_str().unicode_len();
    if n > 0 && path.as_str().get_char(0) == '/' {
        let rest = path.as_str().substring_char(1, n);
        assert(rest@ == path@.drop_first());
        mnt.to_owned().concat("/").concat(rest)
    } else {
        mnt.to_owned().concat("/").concat(path.as_str())
    }
}

/// The target of each mount step, in order.
pub open spec fn mount_targets(steps: Seq<WorkspaceStep>) -> Seq<Seq<char>>
    decreases steps.len(),
{
    if steps.len() == 0 {
        Seq::empty()
    } else {
        let rest = mount_targets(steps.drop_last());
        match steps.last() {
            WorkspaceStep::MountOverlay { target, .. } => rest.push(target@),
            WorkspaceStep::BindMount { target, .. } => rest.push(target@),
            _ => rest,
        }
    }
}

/// The target of each unmount step, in order.
pub open spec fn unmount_targets(steps: Seq<WorkspaceStep>) -> Seq<Seq<char>>
    decreases steps.len(),
{
    if steps.len() == 0 {
        Seq::empty()
    } else {
        let rest = unmount_targets(steps.drop_last());
        match steps.last() {
            WorkspaceStep::Unmount { target, .. } => rest.push(target@),
            _ => rest,
        }
    }
}

/// The host and container halves of a well-formed volume `host:container`.
pub open spec fn volume_halves(v: Seq<char>) -> (Seq<char>, Seq<char>) {
    let p = choose|p: int| volume_split_at(v, p);
    (v.subrange(0, p), v.subrange(p + 1, v.len() as int))
}

/// `steps` is the plan that builds a workspace: the image directory (and its
/// extraction unless the image is present), the write layer, the work
/// directory, the mount point, the overlay, then for a volume its two
/// directories and its bind mount.
pub open spec fn build_plan(
    steps: Seq<WorkspaceStep>,
    image_tar: Seq<char>,
    root: Seq<char>,
    mnt: Seq<char>,
    image_present: bool,
    volume: Option<(Seq<char>, Seq<char>)>,
) -> bool {
    let k: int = if image_present { 0 } else { 1 };
    let image = root + "/image"@;
    let upper = root + "/writeLayer"@;
    let work = root + "/work"@;
    &&& steps.len() == 5 + k + if volume is Some { 3int } else { 0 }
    &&& steps[0] matches WorkspaceStep::CreateDir(d) && d@ == image
    &&& !image_present ==> (steps[1] matches WorkspaceStep::ExtractImage { tar, dest } && tar@ == image_tar
        && dest@ == image)
    &&& steps[1 + k] matches WorkspaceStep::CreateDir(d) && d@ == upper
    &&& steps[2 + k] matches WorkspaceStep::CreateDir(d) && d@ == work
    &&& steps[3 + k] matches WorkspaceStep::CreateDir(d) && d@ == mnt
    &&& steps[4 + k] matches WorkspaceStep::MountOverlay { lower, upper: u, work: w, target } && lower@ == image
        && u@ == upper && w@ == work && target@ == mnt
    &&& volume matches Some((h, c)) ==> {
        &&& steps[5 + k] matches WorkspaceStep::CreateDir(d) && d@ == h
        &&& steps[6 + k] matches WorkspaceStep::CreateDir(d) && d@ == inside(mnt, c)
        &&& steps[7 + k] matches WorkspaceStep::BindMount { source, target } && source@ == h && target@ == inside(
            mnt,
            c,
        )
    }
}

/// The steps that build a workspace under `root` with its root filesystem
/// at `mnt`: the image layer (extracted unless `image_present`), the write
/// layer and work directory, the overlay, and the volume `host:container` if
/// one is given.
pub fn new_workspace(image_tar: &str, root: &str, mnt: &str, volume: &Option<String>, image_present: bool) -> (r: Result<Vec<WorkspaceStep>, String>)
    ensures
        match volume {
            Some(v) => (r is Err <==> forall|p: int| !volume_split_at(v@, p)),
            None => r is Ok,
        },
        r matches Ok(steps) ==> build_plan(
            steps@,
            image_tar@,
            root@,
            mnt@,
            image_present,
            match volume {
                Some(v) => Some(volume_halves(v@)),
                None => None,
            },
        ),
        r matches Ok(steps) ==> {
            &&& mount_targets(steps@) == match volume {
                Some(v) => seq![mnt@, inside(mnt@, v@.subrange(choose|p: int| volume_split_at(v@, p), v@.len() as int).drop_first())],
                None => seq![mnt@],
            }
            &&& unmount_targets(steps@).len() == 0
            &&& steps@.len() >= 5
            &&& steps@[0] == WorkspaceStep::CreateDir(steps@[0]->CreateDir_0)
            &&& steps@[0]->CreateDir_0@ == root@ + "/image"@
        },
{
    proof {
        reveal_strlit("/image");
        reveal_strlit("/writeLayer");
        reveal_strlit("/work");
    }
    let image_dir = root.to_owned().concat("/image");
    let upper = root.to_owned().concat("/writeLayer");
    let work = root.to_owned().concat("/work");
    let mut steps: Vec<WorkspaceStep> = Vec::new();
    steps.push(WorkspaceStep::CreateDir(image_dir.clone()));
    if !image_present {
        steps.push(WorkspaceStep::ExtractImage { tar: image_tar.to_owned(), dest: image_dir.clone() });
    }
    steps.push(WorkspaceStep::CreateDir(upper.clone()));
    steps.push(WorkspaceStep::CreateDir(work.clone()));
    steps.push(WorkspaceStep::CreateDir(mnt.to_owned()));
    let ghost base = steps@;
    proof {
        assert(mount_targets(base) == Seq::<Seq<char>>::empty()) by {
            lemma_no_mounts(base);
        }
        assert(unmount_targets(base) == Seq::<Seq<char>>::empty()) by {
            lemma_no_mounts(base);
        }
    }
    steps.push(WorkspaceStep::MountOverlay { lower: image_dir, upper, work, target: mnt.to_owned() });
    assert(steps@.drop_last() == base);
    match volume {
        None => {
            assert(mount_targets(steps@) == seq![mnt@]);
            assert(unmount_targets(steps@) == Seq::<Seq<char>>::empty());
            Ok(steps)
        },
        Some(v) => {
            match parse_volume(v.as_str()) {
                Err(e) => Err(e),
                Ok((host, cont)) => {
                    let target = inside_text(mnt, &cont);
                    proof {
                        let p = choose|p: int| volume_split_at(v@, p) && host@ == v@.subrange(0, p) && cont@ == v@.subrange(p + 1, v@.len() as int);
                        let q = choose|p: int| volume_split_at(v@, p);
                        assert(p == q) by {
                            if p != q {
                                assert(v@[q] == ':');
                            }
                        }
                        assert(v@.subrange(q, v@.len() as int).drop_first() == cont@);
                        assert(volume_halves(v@) == (host@, cont@));
                    }
                    let ghost with_overlay = steps@;
                    steps.push(WorkspaceStep::CreateDir(host.clone()));
                    steps.push(WorkspaceStep::CreateDir(target.clone()));
                    steps.push(WorkspaceStep::BindMount { source: host, target });
                    proof {
                        let s = steps@;
                        assert(s.drop_last().drop_last().drop_last() == with_overlay);
                        assert(mount_targets(s.drop_last().drop_last()) == mount_targets(with_overlay));
                        assert(unmount_targets(s.drop_last().drop_last()) == unmount_targets(with_overlay));
                        assert(mount_targets(s.drop_last()) == mount_targets(with_overlay));
                        assert(unmount_targets(s.drop_last()) == unmount_targets(with_overlay));
                        assert(mount_targets(with_overlay) == seq![mnt@]);
                        assert(mount_targets(s) == seq![mnt@, target@]);
                        assert(unmount_targets(s) == Seq::<Seq<char>>::empty());
                        assert(s[0] == with_overlay[0]);
                    }
                    Ok(steps)
                },
            }
        },
    }
}

proof fn lemma_no_mounts(s: Seq<WorkspaceStep>)
    requires
        forall|i: int| 0 <= i < s.len() ==> (#[trigger] s[i]) is CreateDir || s[i] is ExtractImage,
    ensures
        mount_targets(s) == Seq::<Seq<char>>::empty(),
        unmount_targets(s) == Seq::<Seq<char>>::empty(),
    decreases s.len(),
{
    if s.len() > 0 {
        lemma_no_mounts(s.drop_last());
    }
}

/// The steps that take a workspace down: the volume's bind mount detached,
/// the overlay unmounted, then the whole workspace removed.
pub fn delete_workspace(root: &str, mnt: &str, volume: &Option<String>) -> (r: Vec<WorkspaceStep>)
    ensures
        ({
            let vol_ok = volume matches Some(v) && exists|p: int| volume_split_at(v@, p);
            &&& r@.len() == if vol_ok { 3int } else { 2 }
            &&& vol_ok ==> (r@[0] matches WorkspaceStep::Unmount { target, detach } && detach && target@ == inside(
                mnt@,
                volume_halves(volume->0@).1,
            ))
            &&& r@[r@.len() - 2] matches WorkspaceStep::Unmount { target, detach } && !detach && target@ == mnt@
        }),
        r@.last() == WorkspaceStep::RemoveTree(r@.last()->RemoveTree_0),
        r@.last()->RemoveTree_0@ == root@,
        mount_targets(r@).len() == 0,
        unmount_targets(r@) == match volume {
            Some(v) => if exists|p: int| volume_split_at(v@, p) {
                seq![inside(mnt@, v@.subrange(choose|p: int| volume_split_at(v@, p), v@.len() as int).drop_first()), mnt@]
            } else {
                seq![mnt@]
            },
            None => seq![mnt@],
        },
{
    let mut steps: Vec<WorkspaceStep> = Vec::new();
    let ghost mut vol_target: Option<Seq<char>> = None;
    if let Some(v) = volume {
        if let Ok((_host, cont)) = parse_volume(v.as_str()) {
            let target = inside_text(mnt, &cont);
            proof {
                let p = choose|p: int| volume_split_at(v@, p) && _host@ == v@.subrange(0, p) && cont@ == v@.subrange(p + 1, v@.len() as int);
                let q = choose|p: int| volume_split_at(v@, p);
                assert(p == q) by {
                    if p != q {
                        assert(v@[q] == ':');
                    }
                }
                assert(v@.subrange(q, v@.len() as int).drop_first() == cont@);
                assert(volume_halves(v@).1 == cont@);
            }
            proof {
                vol_target = Some(target@);
            }
            steps.push(WorkspaceStep::Unmount { target, detach: true });
        }
    }
    let ghost before = steps@;
    steps.push(WorkspaceStep::Unmount { target: mnt.to_owned(), detach: false });
    assert(steps@.drop_last() == before);
    let ghost with_mnt = steps@;
    steps.push(WorkspaceStep::RemoveTree(root.to_owned()));
    assert(steps@.drop_last() == with_mnt);
    proof {
        let e = Seq::<WorkspaceStep>::empty();
        assert(mount_targets(e) == Seq::<Seq<char>>::empty());
        assert(unmount_targets(e) == Seq::<Seq<char>>::empty());
        match vol_target {
            Some(t) => {
                assert(before.len() == 1);
                assert(before.drop_last() == e);
                assert(mount_targets(before) == Seq::<Seq<char>>::empty());
                assert(unmount_targets(before) == seq![t]);
            },
            None => {
                assert(before == e);
            },
        }
        assert(mount_targets(with_mnt) == Seq::<Seq<char>>::empty());
        assert(mount_targets(steps@) == Seq::<Seq<char>>::empty());
        assert(unmount_targets(steps@) == unmount_targets(with_mnt));
    }
    steps
}

/// Taking down a workspace built with a volume unmounts exactly what
/// building it mounted, in the reverse order.
pub proof fn lemma_workspace_symmetry(built: Seq<WorkspaceStep>, removed: Seq<WorkspaceStep>, mnt: Seq<char>, vol_target: Seq<char>)
    requires
        mount_targets(built) == seq![mnt, vol_target],
        unmount_targets(removed) == seq![vol_target, mnt],
    ensures
        unmount_targets(removed) == mount_targets(built).reverse(),
{
    assert(seq![mnt, vol_target].reverse() =~= seq![vol_target, mnt]);
}

} // verus!
