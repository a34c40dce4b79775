//! Where snapshots and logs live, and how many of them are kept.
use crate::container::text::{decimal, decimal_text};
use vstd::prelude::*;
use vstd::string::{StrSliceExecFns, StringExecFns};

verus! {

/// The snapshots of the records: each a file named after the second it was
/// taken, written under a temporary name and then renamed.
#[derive(Debug)]
pub struct Snapshotter {
    pub snapshot_dir: String,
    pub max_snapshots: usize,
}

impl Snapshotter {
    pub fn new(snapshot_dir: &str, max_snapshots: usize) -> (r: Self)
        ensures
            r.snapshot_dir@ == snapshot_dir@,
            r.max_snapshots == max_snapshots,
    {
        Snapshotter { snapshot_dir: snapshot_dir.to_owned(), max_snapshots }
    }

    /// The file a snapshot is written to before it is renamed.
    pub fn temp_path(&self) -> (r: String)
        ensures
            r@ == self.snapshot_dir@ + "/tmp.snapshot"@,
    {
        proof {
            reveal_strlit("/tmp.snapshot");
        }
        self.snapshot_dir.clone().concat("/tmp.snapshot")
    }

    /// The file of the snapshot taken at `ts`.
    pub fn snapshot_path(&self, ts: u64) -> (r: String)
        ensures
            r@ == self.snapshot_dir@ + "/snapshot-"@ + decimal(ts as nat) + ".bin"@,
    {
        proof {
            reveal_strlit("/snapshot-");
            reveal_strlit(".bin");
        }
        self.snapshot_dir.clone().concat("/snapshot-").concat(decimal_text(ts).as_str()).concat(".bin")
    }

    /// How many of `count` snapshots a purge removes, oldest first.
    pub fn snapshots_to_purge(&self, count: usize) -> (r: usize)
        ensures
            r == if count > self.max_snapshots {
                count - self.max_snapshots
            } else {
                0
            },
    {
        count.saturating_sub(self.max_snapshots)
    }
}

/// Where the store keeps its files, how many it keeps, and how often it
/// takes a snapshot and rotates its log.
#[derive(Debug, Clone)]
pub struct StorageConfig {
    pub wal_dir: String,
    pub snapshots_dir: String,
    pub max_wals: usize,
    pub max_snapshots: usize,
    pub snapshot_intervals_secs: u64,
    pub cleanup_interval_secs: u64,
}

impl StorageConfig {
    /// The daemon's settings under `root`: ten logs and ten snapshots kept, a
    /// snapshot each minute and a rotation each three minutes.
    pub fn under(root: &str) -> (r: Self)
        ensures
            r.wal_dir@ == root@ + "/containermetas/wal"@,
            r.snapshots_dir@ == root@ + "/containermetas/snapshots"@,
            r.max_wals == 10 && r.max_snapshots == 10,
            r.snapshot_intervals_secs == 60 && r.cleanup_interval_secs == 180,
    {
        proof {
            reveal_strlit("/containermetas/wal");
            reveal_strlit("/containermetas/snapshots");
        }
        StorageConfig {
            wal_dir: root.to_owned().concat("/containermetas/wal"),
            snapshots_dir: root.to_owned().concat("/containermetas/snapshots"),
            max_wals: 10,
            max_snapshots: 10,
            snapshot_intervals_secs: 60,
            cleanup_interval_secs: 3 * 60,
        }
    }
}

} // verus!
