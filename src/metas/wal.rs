//! The write-ahead log: where it lives, which records it accepts, and which
//! of them survive compaction.
use crate::metas::state::StorageOperation;
use vstd::prelude::*;
use vstd::string::{StrSliceExecFns, StringExecFns};

verus! {

/// Whether a log record is well formed: a creation names its id and its
/// name, every other record that addresses one container names its id, and
/// a batch holds only well-formed records.
pub open spec fn op_valid(op: StorageOperation) -> bool
    decreases op,
{
    match op {
        StorageOperation::Create(meta) => meta.id@.len() > 0 && meta.name@.len() > 0,
        StorageOperation::UpdateStatus { id, .. } => id@.len() > 0,
        StorageOperation::UpdateState { id, .. } => id@.len() > 0,
        StorageOperation::Delete(id) => id@.len() > 0,
        StorageOperation::UpdateEnvironment { id, .. } => id@.len() > 0,
        StorageOperation::UpdateLabels { id, .. } => id@.len() > 0,
        StorageOperation::UpdateResources { id, .. } => id@.len() > 0,
        StorageOperation::AttachNetwork { id, .. } => id@.len() > 0,
        StorageOperation::DetachNetwork { id } => id@.len() > 0,
        StorageOperation::AddMount { id, .. } => id@.len() > 0,
        StorageOperation::RemoveMount { id, .. } => id@.len() > 0,
        StorageOperation::Batch(ops) => forall|i: int| 0 <= i < ops@.len() ==> op_valid(#[trigger] ops@[i]),
    }
}

/// Where the log lives and how many rotated logs it keeps.
#[derive(Debug)]
pub struct WalManager {
    pub current_path: String,
    pub archive_dir: String,
    pub max_archives: usize,
}

/// One record that failed validation.
#[derive(Debug)]
pub struct WalError {
    /// Position of the record in the log.
    pub index: u64,
    pub operation: StorageOperation,
    pub error: String,
}

/// The outcome of checking every record of the log.
#[derive(Debug)]
pub struct IntegrityReport {
    pub errors: Vec<WalError>,
    pub total_operations: usize,
}

impl WalManager {
    /// The log of the directory `wal_dir`: `current.wal`, with rotated logs
    /// under `archive/`.
    pub fn new(wal_dir: &str, max_wals: usize) -> (r: Self)
        ensures
            r.current_path@ == wal_dir@ + "/current.wal"@,
            r.archive_dir@ == wal_dir@ + "/archive"@,
            r.max_archives == max_wals,
    {
        proof {
            reveal_strlit("/current.wal");
            reveal_strlit("/archive");
        }
        WalManager {
            current_path: wal_dir.to_owned().concat("/current.wal"),
            archive_dir: wal_dir.to_owned().concat("/archive"),
            max_archives: max_wals,
        }
    }

    /// The file that receives the current log when it is rotated at `ts`.
    pub fn archive_path(&self, ts: u64) -> (r: String)
        ensures
            r@ == self.archive_dir@ + "/wal-"@ + crate::container::text::decimal(ts as nat) + ".log"@,
    {
        proof {
            reveal_strlit("/wal-");
            reveal_strlit(".log");
        }
        self.archive_dir.clone().concat("/wal-").concat(crate::container::text::decimal_text(ts).as_str()).concat(
            ".log",
        )
    }

    /// The file that a compaction writes before it replaces the log.
    pub fn temp_path(&self) -> (r: String)
        ensures
            r@ == self.current_path@ + ".tmp"@,
    {
        proof {
            reveal_strlit(".tmp");
        }
        self.current_path.clone().concat(".tmp")
    }

    /// How many of `count` rotated logs a purge removes, oldest first.
    pub fn archives_to_purge(&self, count: usize) -> (r: usize)
        ensures
            r == if count > self.max_archives {
                count - self.max_archives
            } else {
                0
            },
    {
        count.saturating_sub(self.max_archives)
    }

    /// Checks one record; see `op_valid`.
    pub fn validate_operation(&self, op: &StorageOperation) -> (r: Result<(), String>)
        ensures
            r is Ok <==> op_valid(*op),
        decreases op,
    {
        match op {
            StorageOperation::Create(meta) => {
                if meta.id.as_str().is_empty() || meta.name.as_str().is_empty() {
                    return Err(String::from_str("Container ID or name cannot be empty"));
                }
                Ok(())
            },
            StorageOperation::UpdateStatus { id, .. }
            | StorageOperation::UpdateState { id, .. }
            | StorageOperation::Delete(id)
            | StorageOperation::UpdateEnvironment { id, .. }
            | StorageOperation::UpdateLabels { id, .. }
            | StorageOperation::UpdateResources { id, .. }
            | StorageOperation::AttachNetwork { id, .. }
            | StorageOperation::DetachNetwork { id }
            | StorageOperation::AddMount { id, .. }
            | StorageOperation::RemoveMount { id, .. } => {
                if id.as_str().is_empty() {
                    return Err(String::from_str("Container ID cannot be empty"));
                }
                Ok(())
            },
            StorageOperation::Batch(ops) => {
                let mut i: usize = 0;
                while i < ops.len()
                    invariant
                        i <= ops@.len(),
                        *op == StorageOperation::Batch(*ops),
                        forall|j: int| 0 <= j < i ==> op_valid(#[trigger] ops@[j]),
                    decreases ops@.len() - i,
                {
                    let ghost v = *ops;
                    let ghost o = *op;
                    proof {
                        assert(o == StorageOperation::Batch(v));
                        assert(v == o->Batch_0);
                        assert(decreases_to!(o => o->Batch_0));
                        assert(decreases_to!(v => v@));
                        assert(decreases_to!(v@ => v@[i as int]));
                        assert(decreases_to!(o => v@[i as int]));
                    }
                    match self.validate_operation(&ops[i]) {
                        Ok(()) => {},
                        Err(e) => {
                            assert(!op_valid(v@[i as int]));
                            assert(!op_valid(o));
                            return Err(e);
                        },
                    }
                    i = i + 1;
                }
                Ok(())
            },
        }
    }

    /// Checks every record of a log read back in order.
    pub fn verify_integrity(&self, operations: Vec<StorageOperation>) -> (r: IntegrityReport)
        requires
            operations@.len() <= u64::MAX,
        ensures
            r.total_operations == operations@.len(),
            r.errors@.len() == operations@.filter(|op: StorageOperation| !op_valid(op)).len(),
            forall|k: int| 0 <= k < r.errors@.len() ==> {
                let e = #[trigger] r.errors@[k];
                &&& e.index < operations@.len()
                &&& e.operation == operations@[e.index as int]
                &&& !op_valid(e.operation)
            },
            forall|k: int, l: int| 0 <= k < l < r.errors@.len() ==> #[trigger] r.errors@[k].index < #[trigger] r.errors@[l].index,
    {
        let ghost all = operations@;
        let total = operations.len();
        let mut errors: Vec<WalError> = Vec::new();
        let mut rest = operations;
        let mut index: u64 = 0;
        proof {
            assert(all.subrange(0, 0).filter(|op: StorageOperation| !op_valid(op)) =~= Seq::<StorageOperation>::empty()) by {
                reveal(Seq::filter);
            }
        }
        while rest.len() > 0
            invariant
                index <= all.len(),
                rest@ == all.subrange(index as int, all.len() as int),
                all.len() <= u64::MAX,
                errors@.len() == all.subrange(0, index as int).filter(|op: StorageOperation| !op_valid(op)).len(),
                forall|k: int| 0 <= k < errors@.len() ==> {
                    let e = #[trigger] errors@[k];
                    &&& e.index < index
                    &&& e.operation == all[e.index as int]
                    &&& !op_valid(e.operation)
                },
                forall|k: int, l: int| 0 <= k < l < errors@.len() ==> #[trigger] errors@[k].index < #[trigger] errors@[l].index,
            decreases rest@.len(),
        {
            let op = rest.remove(0);
            assert(op == all[index as int]);
            let ghost pre = all.subrange(0, index as int);
            assert(all.subrange(0, index + 1) == pre.push(op));
            proof {
                reveal(Seq::filter);
                assert(pre.push(op).drop_last() == pre);
            }
            match self.validate_operation(&op) {
                Ok(()) => {},
                Err(e) => {
                    errors.push(WalError { index, operation: op, error: e });
                },
            }
            index = index + 1;
            assert(rest@ == all.subrange(index as int, all.len() as int));
        }
        assert(all.subrange(0, all.len() as int) == all);
        IntegrityReport { errors, total_operations: total }
    }

    /// The records that a compaction keeps: those after position
    /// `snapshot_index`, which the snapshot already reflects.
    pub fn compact_entries(&self, operations: Vec<StorageOperation>, snapshot_index: u64) -> (r: Vec<StorageOperation>)
        ensures
            r@ == if snapshot_index as int + 1 >= operations@.len() {
                Seq::<StorageOperation>::empty()
            } else {
                operations@.subrange(snapshot_index as int + 1, operations@.len() as int)
            },
    {
        let ghost all = operations@;
        let n = operations.len();
        let mut rest = operations;
        let mut dropped: u64 = 0;
        while rest.len() > 0 && dropped <= snapshot_index
            invariant
                all.len() == n,
                dropped as int <= all.len(),
                dropped as int <= snapshot_index as int + 1,
                rest@ == all.subrange(dropped as int, all.len() as int),
            decreases rest@.len(),
        {
            let _ = rest.remove(0);
            dropped = dropped + 1;
            assert(rest@ == all.subrange(dropped as int, all.len() as int));
        }
        rest
    }
}

impl IntegrityReport {
    pub fn is_valid(&self) -> (r: bool)
        ensures
            r == (self.errors@.len() == 0),
    {
        self.errors.len() == 0
    }

    pub fn error_count(&self) -> (r: usize)
        ensures
            r == self.errors@.len(),
    {
        self.errors.len()
    }
}

} // verus!
