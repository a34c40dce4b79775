//! Container records and the queries over them.
use std::collections::HashMap;
use vstd::prelude::*;

verus! {

/// The lifecycle status of a container.
#[derive(Debug, Clone, Copy, PartialEq, Eq, Structural, Hash)]
pub enum ContainerStatus {
    /// Being created.
    Creating,
    /// Running.
    Running,
    /// Paused.
    Paused,
    /// Restarting.
    Restarting,
    /// Being removed.
    Removing,
    /// Has exited.
    Exited,
    /// Dead: no operation applies.
    Dead,
}

#[derive(Debug, Clone, Copy, PartialEq, Eq, Structural)]
pub enum HealthStatus {
    Unknown,
    Starting,
    Healthy,
    Unhealthy,
}

/// What the runtime knows of a container's process.
#[derive(Debug, Clone)]
pub struct ContainerState {
    pub status: ContainerStatus,
    pub pid: Option<i32>,
    pub started_at: Option<u64>,
    pub finished_at: Option<u64>,
    pub exit_code: Option<i32>,
    pub error: Option<String>,
    pub restart_count: u32,
    pub health_status: HealthStatus,
}

#[derive(Debug, Clone)]
pub struct NetworkConfig {
    pub ip_address: Option<String>,
    pub network_name: String,
    pub mac_address: Option<String>,
    /// Host port to container port.
    pub ports: HashMap<u16, u16>,
}

/// Resource limits of a container.
#[derive(Debug, Clone, Copy, PartialEq, Eq, Structural)]
pub struct ResourceConfig {
    /// Bytes.
    pub memory_limit: Option<u64>,
    /// Thousandths of a CPU core.
    pub cpu_millis: Option<u64>,
    pub pids_limit: Option<u64>,
    pub disk_limit: Option<u64>,
}

#[derive(Debug, Clone, Copy, PartialEq, Eq, Structural)]
pub enum MountType {
    Bind,
    Volume,
    Tmpfs,
}

#[derive(Debug, Clone)]
pub struct MountPoint {
    /// Path on the host.
    pub source: String,
    /// Path in the container.
    pub destination: String,
    pub mount_type: MountType,
    pub read_only: bool,
}

/// The authoritative record of one container.
#[derive(Debug, Clone)]
pub struct ContainerMeta {
    pub id: String,
    pub name: String,
    pub created_at: u64,
    pub updated_at: u64,
    pub image: String,
    pub command: Vec<String>,
    pub args: Vec<String>,
    pub working_dir: Option<String>,
    pub user: Option<String>,
    /// Environment variables, each name once.
    pub env: Vec<(String, String)>,
    /// Labels, each key once.
    pub labels: Vec<(String, String)>,
    pub state: ContainerState,
    pub network: Option<NetworkConfig>,
    pub resources: ResourceConfig,
    pub mounts: Vec<MountPoint>,
}

/// Relies on std::time::SystemTime::now: the seconds since the Unix epoch,
/// or 0 where the clock stands before it.
#[verifier::external_body]
pub fn current_time() -> (r: u64) {
    std::time::SystemTime::now().duration_since(std::time::UNIX_EPOCH).map(|d| d.as_secs()).unwrap_or(0)
}

/// The status moves of the lifecycle: staying put, `Creating` to `Running`,
/// `Running` and `Paused` to each other, either of them to `Exited`,
/// `Exited` to `Dead`, and `Exited` back to `Running` when a container is
/// started again. Nothing leaves `Dead`.
pub open spec fn transition_ok(from: ContainerStatus, to: ContainerStatus) -> bool {
    from == to || (from == ContainerStatus::Creating && to == ContainerStatus::Running) || (from
        == ContainerStatus::Running && to == ContainerStatus::Paused) || (from == ContainerStatus::Paused
        && to == ContainerStatus::Running) || ((from == ContainerStatus::Running || from
        == ContainerStatus::Paused) && to == ContainerStatus::Exited) || (from == ContainerStatus::Exited && (to
        == ContainerStatus::Dead || to == ContainerStatus::Running))
}

impl ContainerStatus {
    pub fn is_running(&self) -> (r: bool)
        ensures
            r == (*self == ContainerStatus::Running),
    {
        match self {
            ContainerStatus::Running => true,
            _ => false,
        }
    }

    pub fn is_stopped(&self) -> (r: bool)
        ensures
            r == (*self == ContainerStatus::Exited || *self == ContainerStatus::Dead),
    {
        match self {
            ContainerStatus::Exited | ContainerStatus::Dead => true,
            _ => false,
        }
    }

    pub fn can_start(&self) -> (r: bool)
        ensures
            r == (*self == ContainerStatus::Exited),
    {
        match self {
            ContainerStatus::Exited => true,
            _ => false,
        }
    }

    /// Whether the lifecycle lets a container move from this status to `to`.
    pub fn can_move_to(&self, to: ContainerStatus) -> (r: bool)
        ensures
            r == transition_ok(*self, to),
    {
        *self == to || match (self, to) {
            (ContainerStatus::Creating, ContainerStatus::Running) => true,
            (ContainerStatus::Running, ContainerStatus::Paused) => true,
            (ContainerStatus::Paused, ContainerStatus::Running) => true,
            (ContainerStatus::Running, ContainerStatus::Exited) => true,
            (ContainerStatus::Paused, ContainerStatus::Exited) => true,
            (ContainerStatus::Exited, ContainerStatus::Dead) => true,
            (ContainerStatus::Exited, ContainerStatus::Running) => true,
            _ => false,
        }
    }

    pub fn can_stop(&self) -> (r: bool)
        ensures
            r == (*self == ContainerStatus::Running || *self == ContainerStatus::Paused),
    {
        match self {
            ContainerStatus::Running | ContainerStatus::Paused => true,
            _ => false,
        }
    }
}

impl ContainerMeta {
    /// A new record in `Creating`, created now, with no environment, labels,
    /// network, limits or mounts.
    pub fn new(id: String, name: String, image: String, command: Vec<String>, args: Vec<String>) -> (r: Self)
        ensures
            r.id == id && r.name == name && r.image == image,
            r.command == command && r.args == args,
            r.created_at == r.updated_at,
            r.working_dir is None && r.user is None,
            r.env@.len() == 0 && r.labels@.len() == 0 && r.mounts@.len() == 0,
            r.network is None,
            r.resources == (ResourceConfig {
                memory_limit: None,
                cpu_millis: None,
                pids_limit: None,
                disk_limit: None,
            }),
            r.state.status == ContainerStatus::Creating,
            r.state.pid is None && r.state.started_at is None && r.state.finished_at is None,
            r.state.exit_code is None && r.state.error is None,
            r.state.restart_count == 0 && r.state.health_status == HealthStatus::Unknown,
    {
        let time = current_time();
        ContainerMeta {
            id,
            name,
            created_at: time,
            updated_at: time,
            image,
            command,
            args,
            working_dir: None,
            user: None,
            env: Vec::new(),
            labels: Vec::new(),
            state: ContainerState {
                status: ContainerStatus::Creating,
                pid: None,
                started_at: None,
                finished_at: None,
                exit_code: None,
                error: None,
                restart_count: 0,
                health_status: HealthStatus::Unknown,
            },
            network: None,
            resources: ResourceConfig {
                memory_limit: None,
                cpu_millis: None,
                pids_limit: None,
                disk_limit: None,
            },
            mounts: Vec::new(),
        }
    }

    pub fn get_pid(&self) -> (r: Option<i32>)
        ensures
            r == self.state.pid,
    {
        self.state.pid
    }

    /// Marks the container as running under `pid`, started now.
    pub fn set_running(&mut self, pid: i32)
        requires
            pid != 0,
        ensures
            final(self).state.started_at is Some,
            *final(self) == (ContainerMeta {
                state: ContainerState {
                    status: ContainerStatus::Running,
                    pid: Some(pid),
                    started_at: final(self).state.started_at,
                    ..old(self).state
                },
                updated_at: final(self).updated_at,
                ..*old(self)
            }),
    {
        let now = current_time();
        self.state.status = ContainerStatus::Running;
        self.state.pid = Some(pid);
        self.state.started_at = Some(now);
        self.updated_at = now;
    }

    /// Marks the container as exited now, with its exit code and error.
    pub fn set_stopped(&mut self, exit_code: Option<i32>, error: Option<String>)
        ensures
            final(self).state.finished_at is Some,
            *final(self) == (ContainerMeta {
                state: ContainerState {
                    status: ContainerStatus::Exited,
                    pid: None,
                    finished_at: final(self).state.finished_at,
                    exit_code: exit_code,
                    error: error,
                    ..old(self).state
                },
                updated_at: final(self).updated_at,
                ..*old(self)
            }),
    {
        let now = current_time();
        self.state.status = ContainerStatus::Exited;
        self.state.pid = None;
        self.state.finished_at = Some(now);
        self.state.exit_code = exit_code;
        self.state.error = error;
        self.updated_at = now;
    }
}

/// A container record with its text and lists as sequences.
pub struct MetaView {
    pub id: Seq<char>,
    pub name: Seq<char>,
    pub created_at: u64,
    pub updated_at: u64,
    pub image: Seq<char>,
    pub command: Seq<String>,
    pub args: Seq<String>,
    pub working_dir: Option<String>,
    pub user: Option<String>,
    pub env: Seq<(String, String)>,
    pub labels: Seq<(String, String)>,
    pub state: ContainerState,
    pub network: Option<NetworkView>,
    pub resources: ResourceConfig,
    pub mounts: Seq<MountPoint>,
}

/// A network attachment with its port map as a map.
pub struct NetworkView {
    pub ip_address: Option<String>,
    pub network_name: Seq<char>,
    pub mac_address: Option<String>,
    pub ports: Map<u16, u16>,
}

impl View for NetworkConfig {
    type V = NetworkView;

    open spec fn view(&self) -> NetworkView {
        NetworkView {
            ip_address: self.ip_address,
            network_name: self.network_name@,
            mac_address: self.mac_address,
            ports: self.ports@,
        }
    }
}

impl View for ContainerMeta {
    type V = MetaView;

    open spec fn view(&self) -> MetaView {
        MetaView {
            id: self.id@,
            name: self.name@,
            created_at: self.created_at,
            updated_at: self.updated_at,
            image: self.image@,
            command: self.command@,
            args: self.args@,
            working_dir: self.working_dir,
            user: self.user,
            env: self.env@,
            labels: self.labels@,
            state: self.state,
            network: match self.network {
                Some(n) => Some(n@),
                None => None,
            },
            resources: self.resources,
            mounts: self.mounts@,
        }
    }
}


/// A copy of an optional text.
fn copy_text(t: &Option<String>) -> (r: Option<String>)
    ensures
        r == *t,
{
    match t {
        Some(s) => Some(s.clone()),
        None => None,
    }
}

/// A copy of a list of texts.
fn copy_texts(v: &Vec<String>) -> (r: Vec<String>)
    ensures
        r@ == v@,
{
    let mut out: Vec<String> = Vec::new();
    let mut i: usize = 0;
    while i < v.len()
        invariant
            i <= v@.len(),
            out@ == v@.subrange(0, i as int),
        decreases v@.len() - i,
    {
        out.push(v[i].clone());
        assert(v@.subrange(0, i + 1) == v@.subrange(0, i as int).push(v@[i as int]));
        i = i + 1;
    }
    assert(v@.subrange(0, v@.len() as int) == v@);
    out
}

/// A copy of a list of key-value pairs.
fn copy_pairs(v: &Vec<(String, String)>) -> (r: Vec<(String, String)>)
    ensures
        r@ == v@,
{
    let mut out: Vec<(String, String)> = Vec::new();
    let mut i: usize = 0;
    while i < v.len()
        invariant
            i <= v@.len(),
            out@ == v@.subrange(0, i as int),
        decreases v@.len() - i,
    {
        out.push((v[i].0.clone(), v[i].1.clone()));
        assert(v@.subrange(0, i + 1) == v@.subrange(0, i as int).push(v@[i as int]));
        i = i + 1;
    }
    assert(v@.subrange(0, v@.len() as int) == v@);
    out
}

impl MountPoint {
    pub fn duplicate(&self) -> (r: Self)
        ensures
            r == *self,
    {
        MountPoint {
            source: self.source.clone(),
            destination: self.destination.clone(),
            mount_type: self.mount_type,
            read_only: self.read_only,
        }
    }
}

/// A copy of a list of mounts.
fn copy_mounts(v: &Vec<MountPoint>) -> (r: Vec<MountPoint>)
    ensures
        r@ == v@,
{
    let mut out: Vec<MountPoint> = Vec::new();
    let mut i: usize = 0;
    while i < v.len()
        invariant
            i <= v@.len(),
            out@ == v@.subrange(0, i as int),
        decreases v@.len() - i,
    {
        out.push(v[i].duplicate());
        assert(v@.subrange(0, i + 1) == v@.subrange(0, i as int).push(v@[i as int]));
        i = i + 1;
    }
    assert(v@.subrange(0, v@.len() as int) == v@);
    out
}

impl ContainerState {
    pub fn duplicate(&self) -> (r: Self)
        ensures
            r == *self,
    {
        ContainerState {
            status: self.status,
            pid: self.pid,
            started_at: self.started_at,
            finished_at: self.finished_at,
            exit_code: self.exit_code,
            error: copy_text(&self.error),
            restart_count: self.restart_count,
            health_status: self.health_status,
        }
    }
}

impl NetworkConfig {
    pub fn duplicate(&self) -> (r: Self)
        ensures
            r@ == self@,
    {
        NetworkConfig {
            ip_address: copy_text(&self.ip_address),
            network_name: self.network_name.clone(),
            mac_address: copy_text(&self.mac_address),
            ports: self.ports.clone(),
        }
    }
}

impl ContainerMeta {
    /// A copy of the record.
    pub fn duplicate(&self) -> (r: Self)
        ensures
            r@ == self@,
    {
        let network = match &self.network {
            Some(n) => Some(n.duplicate()),
            None => None,
        };
        ContainerMeta {
            id: self.id.clone(),
            name: self.name.clone(),
            created_at: self.created_at,
            updated_at: self.updated_at,
            image: self.image.clone(),
            command: copy_texts(&self.command),
            args: copy_texts(&self.args),
            working_dir: copy_text(&self.working_dir),
            user: copy_text(&self.user),
            env: copy_pairs(&self.env),
            labels: copy_pairs(&self.labels),
            state: self.state.duplicate(),
            network,
            resources: self.resources,
            mounts: copy_mounts(&self.mounts),
        }
    }
}

} // verus!
