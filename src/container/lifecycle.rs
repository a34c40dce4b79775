//! The decisions of the container verbs: names and paths, the parent/child
//! handshake, which verb applies in which status, and the text the client sees.
use crate::container::text::{
    hex_of, hex_text, join_text, join_words, signed_decimal, signed_decimal_text,
};
use crate::metas::meta::{transition_ok, ContainerMeta, ContainerState, ContainerStatus, MetaView};
use crate::metas::state::{apply_op, Index, StorageOperation};
use vstd::prelude::*;
use vstd::string::{StrSliceExecFns, StringExecFns};

verus! {

/// Where the runtime keeps its state and the containers' workspaces.
pub const ROOT_PATH: &'static str = "/tmp/rtain";

/// Relies on rand::random: sixteen bytes from the thread's generator.
#[verifier::external_body]
fn random_bytes() -> (r: Vec<u8>)
    ensures
        r@.len() == 16,
{
    let b: [u8; 16] = rand::random();
    b.to_vec()
}

/// A fresh container id: sixteen random bytes as 32 hexadecimal digits.
pub fn random_id() -> (r: String)
    ensures
        exists|b: Seq<u8>| b.len() == 16 && r@ == hex_of(b),
{
    let b = random_bytes();
    hex_text(b.as_slice())
}

/// The name of a new container: the one asked for, or else its id.
pub fn container_name(requested: Option<String>, id: &String) -> (r: String)
    ensures
        r@ == match requested {
            Some(n) => n@,
            None => id@,
        },
{
    match requested {
        Some(n) => n,
        None => id.clone(),
    }
}

/// `name-id`, the handle of a container's workspace and cgroup.
pub fn name_id(name: &str, id: &str) -> (r: String)
    ensures
        r@ == name@ + "-"@ + id@,
{
    proof {
        reveal_strlit("-");
    }
    name.to_owned().concat("-").concat(id)
}

/// The workspace of a container: `{ROOT}/{name-id}`.
pub fn workspace_root(name_id: &str) -> (r: String)
    ensures
        r@ == "/tmp/rtain/"@ + name_id@,
{
    proof {
        reveal_strlit("/tmp/rtain/");
    }
    String::from_str("/tmp/rtain/").concat(name_id)
}

/// The overlay mount point inside a workspace.
pub fn mount_point(root: &str) -> (r: String)
    ensures
        r@ == root@ + "/mnt"@,
{
    proof {
        reveal_strlit("/mnt");
    }
    root.to_owned().concat("/mnt")
}

/// The log of a detached container inside a workspace.
pub fn log_path(root: &str) -> (r: String)
    ensures
        r@ == root@ + "/log.log"@,
{
    proof {
        reveal_strlit("/log.log");
    }
    root.to_owned().concat("/log.log")
}

/// A token of the parent/child handshake.
#[derive(Debug, Clone, Copy, PartialEq, Eq, Structural)]
pub enum SyncToken {
    /// The child is past its setup and waits.
    Wait,
    /// The parent lets the child run its program.
    Cont,
    /// The sender gives up.
    Exit,
}

pub open spec fn token_bytes(t: SyncToken) -> Seq<u8> {
    match t {
        SyncToken::Wait => seq![0x57u8, 0x41, 0x49, 0x54],
        SyncToken::Cont => seq![0x43u8, 0x4f, 0x4e, 0x54],
        SyncToken::Exit => seq![0x45u8, 0x58, 0x49, 0x54],
    }
}

impl SyncToken {
    /// The four ASCII bytes `WAIT`, `CONT` or `EXIT`.
    pub fn to_bytes(&self) -> (r: Vec<u8>)
        ensures
            r@ == token_bytes(*self),
    {
        let r = match self {
            SyncToken::Wait => vec![0x57u8, 0x41, 0x49, 0x54],
            SyncToken::Cont => vec![0x43u8, 0x4f, 0x4e, 0x54],
            SyncToken::Exit => vec![0x45u8, 0x58, 0x49, 0x54],
        };
        assert(r@ == token_bytes(*self));
        r
    }

    /// The token that four bytes spell, if any.
    pub fn from_bytes(b: &[u8]) -> (r: Option<SyncToken>)
        ensures
            match r {
                Some(t) => token_bytes(t) == b@,
                None => forall|t: SyncToken| token_bytes(t) != b@,
            },
    {
        if b.len() != 4 {
            return None;
        }
        let w = SyncToken::Wait.to_bytes();
        let c = SyncToken::Cont.to_bytes();
        let e = SyncToken::Exit.to_bytes();
        if b[0] == w[0] && b[1] == w[1] && b[2] == w[2] && b[3] == w[3] {
            assert(b@ == token_bytes(SyncToken::Wait));
            Some(SyncToken::Wait)
        } else if b[0] == c[0] && b[1] == c[1] && b[2] == c[2] && b[3] == c[3] {
            assert(b@ == token_bytes(SyncToken::Cont));
            Some(SyncToken::Cont)
        } else if b[0] == e[0] && b[1] == e[1] && b[2] == e[2] && b[3] == e[3] {
            assert(b@ == token_bytes(SyncToken::Exit));
            Some(SyncToken::Exit)
        } else {
            assert forall|t: SyncToken| token_bytes(t) != b@ by {
                if token_bytes(t) == b@ {
                    assert(b@[0] == token_bytes(t)[0]);
                }
            }
            None
        }
    }
}

/// Why a verb does not apply to a container.
#[derive(Debug, Clone, Copy, PartialEq, Eq, Structural)]
pub enum LifecycleError {
    NotFound,
    AlreadyRunning,
    NotRunning,
    StillRunning,
    /// The container's status does not allow the move.
    NotAllowed,
    /// The child of a run gave up before it was ready.
    InitFailed,
    /// The child answered the handshake with something else.
    UnexpectedToken,
}

/// How the parent goes on after the child's first token: only `WAIT` lets
/// the run go on.
pub fn on_child_token(b: &[u8]) -> (r: Result<(), LifecycleError>)
    ensures
        b@ == token_bytes(SyncToken::Wait) <==> r is Ok,
        b@ == token_bytes(SyncToken::Exit) ==> r == Err::<(), LifecycleError>(LifecycleError::InitFailed),
        r == Err::<(), LifecycleError>(LifecycleError::UnexpectedToken) <==> b@ != token_bytes(SyncToken::Wait)
            && b@ != token_bytes(SyncToken::Exit),
{
    match SyncToken::from_bytes(b) {
        Some(SyncToken::Wait) => Ok(()),
        Some(SyncToken::Exit) => Err(LifecycleError::InitFailed),
        _ => Err(LifecycleError::UnexpectedToken),
    }
}

/// `start` applies to a container that exists, does not run, and whose
/// status lets it move to `Running`.
pub fn check_start(meta: &Option<ContainerMeta>) -> (r: Result<(), LifecycleError>)
    ensures
        match meta {
            None => r == Err::<(), LifecycleError>(LifecycleError::NotFound),
            Some(m) => if m.state.status == ContainerStatus::Running {
                r == Err::<(), LifecycleError>(LifecycleError::AlreadyRunning)
            } else if transition_ok(m.state.status, ContainerStatus::Running) {
                r is Ok
            } else {
                r == Err::<(), LifecycleError>(LifecycleError::NotAllowed)
            },
        },
{
    match meta {
        None => Err(LifecycleError::NotFound),
        Some(m) => if m.state.status.is_running() {
            Err(LifecycleError::AlreadyRunning)
        } else if m.state.status.can_move_to(ContainerStatus::Running) {
            Ok(())
        } else {
            Err(LifecycleError::NotAllowed)
        },
    }
}

/// `exec` applies to a running container.
pub fn check_exec(meta: &Option<ContainerMeta>) -> (r: Result<(), LifecycleError>)
    ensures
        match meta {
            None => r == Err::<(), LifecycleError>(LifecycleError::NotFound),
            Some(m) => if m.state.status == ContainerStatus::Running {
                r is Ok
            } else {
                r == Err::<(), LifecycleError>(LifecycleError::NotRunning)
            },
        },
{
    match meta {
        None => Err(LifecycleError::NotFound),
        Some(m) => if m.state.status.is_running() {
            Ok(())
        } else {
            Err(LifecycleError::NotRunning)
        },
    }
}

/// `rm` applies to a container that exists and does not run.
pub fn check_rm(meta: &Option<ContainerMeta>) -> (r: Result<(), LifecycleError>)
    ensures
        match meta {
            None => r == Err::<(), LifecycleError>(LifecycleError::NotFound),
            Some(m) => if m.state.status == ContainerStatus::Running {
                r == Err::<(), LifecycleError>(LifecycleError::StillRunning)
            } else {
                r is Ok
            },
        },
{
    match meta {
        None => Err(LifecycleError::NotFound),
        Some(m) => if m.state.status.is_running() {
            Err(LifecycleError::StillRunning)
        } else {
            Ok(())
        },
    }
}

/// The record change of `stop`: the container is `Exited`, also when it was
/// already.
pub fn stop_operation(meta: &ContainerMeta) -> (r: StorageOperation)
    ensures
        r matches StorageOperation::UpdateStatus { id, status } && id@ == meta.id@ && status
            == ContainerStatus::Exited,
{
    StorageOperation::UpdateStatus { id: meta.id.clone(), status: ContainerStatus::Exited }
}

/// The record change of a successful `start`: the container runs again
/// under `pid`, started at `now`; the rest of its state stays.
pub fn start_operation(meta: &ContainerMeta, pid: i32, now: u64) -> (r: StorageOperation)
    ensures
        r matches StorageOperation::UpdateState { id, state } && id@ == meta.id@ && state == (ContainerState {
            status: ContainerStatus::Running,
            pid: Some(pid),
            started_at: Some(now),
            ..meta.state
        }),
{
    let mut state = meta.state.duplicate();
    state.status = ContainerStatus::Running;
    state.pid = Some(pid);
    state.started_at = Some(now);
    StorageOperation::UpdateState { id: meta.id.clone(), state }
}

/// The status as `PS` shows it.
pub open spec fn status_name(s: ContainerStatus) -> Seq<char> {
    match s {
        ContainerStatus::Creating => "Creating"@,
        ContainerStatus::Running => "Running"@,
        ContainerStatus::Paused => "Paused"@,
        ContainerStatus::Restarting => "Restarting"@,
        ContainerStatus::Removing => "Removing"@,
        ContainerStatus::Exited => "Exited"@,
        ContainerStatus::Dead => "Dead"@,
    }
}

/// The header line of `PS`.
pub open spec fn ps_header() -> Seq<char> {
    "ID\tNAME\tPID\tCOMMAND\tSTATUS\n"@
}

/// One line of `PS`: id, name, pid (0 when there is none), the command
/// joined by spaces, and the status, separated by tabs.
pub open spec fn ps_row(m: MetaView) -> Seq<char> {
    m.id + "\t"@ + m.name + "\t"@ + signed_decimal(
        match m.state.pid {
            Some(p) => p as int,
            None => 0,
        },
    ) + "\t"@ + join_words(m.command.map_values(|s: String| s@)) + "\t"@ + status_name(m.state.status)
        + "\n"@
}

/// The lines of `PS` for these records, in order.
pub open spec fn ps_rows(ms: Seq<MetaView>) -> Seq<char>
    decreases ms.len(),
{
    if ms.len() == 0 {
        Seq::empty()
    } else {
        ps_rows(ms.drop_last()) + ps_row(ms.last())
    }
}

pub fn status_text(s: ContainerStatus) -> (r: String)
    ensures
        r@ == status_name(s),
{
    proof {
        reveal_strlit("Creating");
        reveal_strlit("Running");
        reveal_strlit("Paused");
        reveal_strlit("Restarting");
        reveal_strlit("Removing");
        reveal_strlit("Exited");
        reveal_strlit("Dead");
    }
    let t = match s {
        ContainerStatus::Creating => "Creating",
        ContainerStatus::Running => "Running",
        ContainerStatus::Paused => "Paused",
        ContainerStatus::Restarting => "Restarting",
        ContainerStatus::Removing => "Removing",
        ContainerStatus::Exited => "Exited",
        ContainerStatus::Dead => "Dead",
    };
    String::from_str(t)
}

fn ps_line(m: &ContainerMeta) -> (r: String)
    ensures
        r@ == ps_row(m@),
{
    proof {
        reveal_strlit("\t");
        reveal_strlit("\n");
    }
    let pid: i64 = match m.state.pid {
        Some(p) => p as i64,
        None => 0,
    };
    let r = m.id.clone().concat("\t").concat(m.name.as_str()).concat("\t").concat(
        signed_decimal_text(pid).as_str(),
    ).concat("\t").concat(join_text(&m.command).as_str()).concat("\t").concat(
        status_text(m.state.status).as_str(),
    ).concat("\n");
    r
}

/// The text of `PS`: the header, then one line per record.
pub fn ps_table(metas: &Vec<ContainerMeta>) -> (r: String)
    ensures
        r@ == ps_header() + ps_rows(metas@.map_values(|m: ContainerMeta| m@)),
{
    proof {
        reveal_strlit("ID\tNAME\tPID\tCOMMAND\tSTATUS\n");
    }
    let ghost ms = metas@.map_values(|m: ContainerMeta| m@);
    let mut r = String::from_str("ID\tNAME\tPID\tCOMMAND\tSTATUS\n");
    let mut i: usize = 0;
    while i < metas.len()
        invariant
            i <= metas@.len(),
            ms == metas@.map_values(|m: ContainerMeta| m@),
            r@ == ps_header() + ps_rows(ms.subrange(0, i as int)),
        decreases metas@.len() - i,
    {
        let line = ps_line(&metas[i]);
        assert(ms.subrange(0, i + 1).drop_last() == ms.subrange(0, i as int));
        assert(ms.subrange(0, i + 1).last() == metas@[i as int]@);
        r = r.concat(line.as_str());
        i = i + 1;
        assert(r@ =~= ps_header() + ps_rows(ms.subrange(0, i as int)));
    }
    assert(ms.subrange(0, metas@.len() as int) == ms);
    r
}

/// How a container's process ended.
#[derive(Debug, Clone, Copy, PartialEq, Eq, Structural)]
pub enum ExitKind {
    /// It exited with this code.
    Code(i32),
    /// A signal of this number ended it.
    Signal(i32),
}

/// The last line of an attached session.
pub fn exit_line(e: ExitKind) -> (r: String)
    ensures
        r@ == match e {
            ExitKind::Code(c) => "Container exited with code: "@ + signed_decimal(c as int) + "\n"@,
            ExitKind::Signal(s) => "Container exited with signal: "@ + signed_decimal(s as int) + "\n"@,
        },
{
    proof {
        reveal_strlit("Container exited with code: ");
        reveal_strlit("Container exited with signal: ");
        reveal_strlit("\n");
    }
    match e {
        ExitKind::Code(c) => String::from_str("Container exited with code: ").concat(
            signed_decimal_text(c as i64).as_str(),
        ).concat("\n"),
        ExitKind::Signal(s) => String::from_str("Container exited with signal: ").concat(
            signed_decimal_text(s as i64).as_str(),
        ).concat("\n"),
    }
}

/// The text the client sees when a verb does not apply.
pub fn refusal_message(verb: &str, name: &str, e: LifecycleError) -> (r: String)
    ensures
        r@ == "Failed to "@ + verb@ + " container "@ + name@ + match e {
            LifecycleError::NotFound => ", record does not exist"@,
            LifecycleError::AlreadyRunning => ", it's already running"@,
            LifecycleError::NotRunning => ", it's not running"@,
            LifecycleError::NotAllowed => ", its status does not allow it"@,
            LifecycleError::StillRunning => ", it's still running"@,
            LifecycleError::InitFailed => ", child unexpected exit"@,
            LifecycleError::UnexpectedToken => ", unexpected handshake"@,
        },
{
    proof {
        reveal_strlit("Failed to ");
        reveal_strlit(" container ");
        reveal_strlit(", record does not exist");
        reveal_strlit(", it's already running");
        reveal_strlit(", it's not running");
        reveal_strlit(", its status does not allow it");
        reveal_strlit(", it's still running");
        reveal_strlit(", child unexpected exit");
        reveal_strlit(", unexpected handshake");
    }
    let tail = match e {
        LifecycleError::NotFound => ", record does not exist",
        LifecycleError::AlreadyRunning => ", it's already running",
        LifecycleError::NotRunning => ", it's not running",
        LifecycleError::NotAllowed => ", its status does not allow it",
        LifecycleError::StillRunning => ", it's still running",
        LifecycleError::InitFailed => ", child unexpected exit",
        LifecycleError::UnexpectedToken => ", unexpected handshake",
    };
    String::from_str("Failed to ").concat(verb).concat(" container ").concat(name).concat(tail)
}

/// `start`: the record change that starting this container under `pid` at
/// `now` makes, or why it does not apply.
pub fn start_container(meta: &Option<ContainerMeta>, pid: i32, now: u64) -> (r: Result<StorageOperation, LifecycleError>)
    requires
        pid != 0,
    ensures
        match meta {
            None => r == Err::<StorageOperation, LifecycleError>(LifecycleError::NotFound),
            Some(m) => if m.state.status == ContainerStatus::Running {
                r == Err::<StorageOperation, LifecycleError>(LifecycleError::AlreadyRunning)
            } else if transition_ok(m.state.status, ContainerStatus::Running) {
                r matches Ok(StorageOperation::UpdateState { id, state }) && id@ == m.id@ && state == (
                ContainerState {
                    status: ContainerStatus::Running,
                    pid: Some(pid),
                    started_at: Some(now),
                    ..m.state
                })
            } else {
                r == Err::<StorageOperation, LifecycleError>(LifecycleError::NotAllowed)
            },
        },
{
    match check_start(meta) {
        Err(e) => Err(e),
        Ok(()) => match meta {
            Some(m) => Ok(start_operation(m, pid, now)),
            None => Err(LifecycleError::NotFound),
        },
    }
}

/// `stop`: the record change that stopping this container makes. A
/// container that has already stopped is stopped again, without error; one
/// whose status cannot move to `Exited` is refused.
pub fn stop_container(meta: &Option<ContainerMeta>) -> (r: Result<StorageOperation, LifecycleError>)
    ensures
        match meta {
            None => r == Err::<StorageOperation, LifecycleError>(LifecycleError::NotFound),
            Some(m) => if transition_ok(m.state.status, ContainerStatus::Exited) {
                r matches Ok(StorageOperation::UpdateStatus { id, status }) && id@ == m.id@ && status
                    == ContainerStatus::Exited
            } else {
                r == Err::<StorageOperation, LifecycleError>(LifecycleError::NotAllowed)
            },
        },
{
    match meta {
        None => Err(LifecycleError::NotFound),
        Some(m) => if m.state.status.can_move_to(ContainerStatus::Exited) {
            Ok(stop_operation(m))
        } else {
            Err(LifecycleError::NotAllowed)
        },
    }
}

/// `rm`: the record change that removing this container makes, or why it
/// does not apply.
pub fn remove_container(meta: &Option<ContainerMeta>) -> (r: Result<StorageOperation, LifecycleError>)
    ensures
        match meta {
            None => r == Err::<StorageOperation, LifecycleError>(LifecycleError::NotFound),
            Some(m) => if m.state.status == ContainerStatus::Running {
                r == Err::<StorageOperation, LifecycleError>(LifecycleError::StillRunning)
            } else {
                r matches Ok(StorageOperation::Delete(id)) && id@ == m.id@
            },
        },
{
    match check_rm(meta) {
        Err(e) => Err(e),
        Ok(()) => match meta {
            Some(m) => Ok(StorageOperation::Delete(m.id.clone())),
            None => Err(LifecycleError::NotFound),
        },
    }
}

/// Stopping a container that has already stopped changes nothing but the
/// time of its last update, and succeeds.
pub proof fn lemma_stop_again(idx: Index, id: String, now: u64)
    requires
        idx.0.contains_key(id@),
        idx.0[id@].state.status == ContainerStatus::Exited,
    ensures
        ({
            let (next, ok) = apply_op(
                idx,
                StorageOperation::UpdateStatus { id: id, status: ContainerStatus::Exited },
                now,
            );
            &&& ok
            &&& next.1 == idx.1
            &&& next.0.dom() == idx.0.dom()
            &&& next.0[id@] == (MetaView { updated_at: now, ..idx.0[id@] })
            &&& forall|k: Seq<char>| #[trigger] next.0.contains_key(k) && k != id@ ==> next.0[k] == idx.0[k]
        }),
{
    let m = idx.0[id@];
    assert(m.state == (ContainerState { status: ContainerStatus::Exited, ..m.state }));
    let (next, ok) = apply_op(
        idx,
        StorageOperation::UpdateStatus { id: id, status: ContainerStatus::Exited },
        now,
    );
    assert(next.0.dom() =~= idx.0.dom());
}

/// The `tar` arguments that commit a container's root filesystem at `mnt`
/// to the image `image`: `-czf {image}/{image}.tar -C {mnt} .`.
pub fn commit_command(image: &str, mnt: &str) -> (r: Vec<String>)
    ensures
        r@.len() == 5,
        r@[0]@ == "-czf"@,
        r@[1]@ == image@ + "/"@ + image@ + ".tar"@,
        r@[2]@ == "-C"@,
        r@[3]@ == mnt@,
        r@[4]@ == "."@,
{
    proof {
        reveal_strlit("/");
        reveal_strlit(".tar");
    }
    let target = image.to_owned().concat("/").concat(image).concat(".tar");
    vec![String::from_str("-czf"), target, String::from_str("-C"), mnt.to_owned(), String::from_str(".")]
}

} // verus!
