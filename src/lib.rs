//! A single-host container runtime: the verified core of its daemon.
//!
//! The library holds the logic of the runtime: the command records sent by
//! the client, the framing of control messages, the container metadata model
//! and its index, the write-ahead log, the IP address manager, the network
//! registry and the decisions of the container lifecycle. Kernel work,
//! sockets and files are left to the program around it.
pub mod cmd;
pub mod container;
pub mod error;
pub mod frame;
pub mod metas;
pub mod msg;
pub mod network;

pub use cmd::{
    parse_memory_size, parse_volume, CommitArgs, Commands, ExecArgs, LogsArgs, NetCreateArgs,
    NetworkCommands, PSArgs, RMArgs, RunArgs, StartArgs, StopArgs, CLI,
};
pub use container::lifecycle::{
    remove_container, start_container, stop_container, LifecycleError, ROOT_PATH,
};
pub use container::workspace::{delete_workspace, new_workspace, WorkspaceStep};
pub use error::RTError;
pub use metas::filter::ContainerFilter;
pub use metas::meta::{
    current_time, ContainerMeta, ContainerState, ContainerStatus, HealthStatus, MountPoint,
    MountType, NetworkConfig, ResourceConfig,
};
pub use metas::events::{
    get_resource_summary, LoggingEventHandler, MetadataEvent, MetricsEventHandler, ResourceSummary,
};
pub use metas::snapshot::{Snapshotter, StorageConfig};
pub use metas::state::{InnerState, Staged, StorageOperation};
pub use metas::wal::{IntegrityReport, WalError, WalManager};
pub use msg::{client_outcome, ClientOutcome, Msg, Response};
pub use network::bridge::BridgeDriver;
pub use network::ipam::{IpamError, IPAM};
pub use network::registry::{NetError, Network, Networks};
