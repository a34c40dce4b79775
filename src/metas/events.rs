//! What happened to the records, as events, and two consumers of them.
use crate::metas::meta::{
    ContainerMeta, ContainerStatus, HealthStatus, MetaView, NetworkConfig, ResourceConfig,
};
use crate::metas::state::{InnerState, StorageOperation};
use vstd::prelude::*;
use vstd::string::StringExecFns;

verus! {

/// A change to the records that observers may want to hear of.
#[derive(Debug)]
pub enum MetadataEvent {
    ContainerCreated { id: String, name: String },
    ContainerDeleted { id: String, name: String },
    StatusChanged { id: String, name: String, old_status: ContainerStatus, new_status: ContainerStatus },
    ResourcesUpdated { id: String, resources: ResourceConfig },
    NetworkAttached { id: String, network: NetworkConfig },
    HealthChanged { id: String, old_health: HealthStatus, new_health: HealthStatus },
}

impl InnerState {
    /// The event that an operation announces, judged against the records
    /// before it applies: a creation, the deletion or status change of a
    /// known record, new limits, or a network attached.
    pub fn operation_to_event(&self, op: &StorageOperation) -> (r: Option<MetadataEvent>)
        requires
            self.wf(),
        ensures
            match *op {
                StorageOperation::Create(m) => r matches Some(MetadataEvent::ContainerCreated { id, name })
                    && id@ == m.id@ && name@ == m.name@,
                StorageOperation::Delete(i) => if self.index().0.contains_key(i@) {
                    r matches Some(MetadataEvent::ContainerDeleted { id, name }) && id@ == i@ && name@
                        == self.index().0[i@].name
                } else {
                    r is None
                },
                StorageOperation::UpdateStatus { id: i, status } => if self.index().0.contains_key(i@) {
                    r matches Some(MetadataEvent::StatusChanged { id, name, old_status, new_status })
                        && id@ == i@ && name@ == self.index().0[i@].name && old_status
                        == self.index().0[i@].state.status && new_status == status
                } else {
                    r is None
                },
                StorageOperation::UpdateResources { id: i, resources: res } => r matches Some(
                    MetadataEvent::ResourcesUpdated { id, resources },
                ) && id@ == i@ && resources == res,
                StorageOperation::AttachNetwork { id: i, network: n } => r matches Some(
                    MetadataEvent::NetworkAttached { id, network },
                ) && id@ == i@ && network@ == n@,
                _ => r is None,
            },
    {
        match op {
            StorageOperation::Create(meta) => Some(
                MetadataEvent::ContainerCreated { id: meta.id.clone(), name: meta.name.clone() },
            ),
            StorageOperation::Delete(id) => match self.get_meta_by_id(id) {
                Some(meta) => Some(MetadataEvent::ContainerDeleted { id: id.clone(), name: meta.name }),
                None => None,
            },
            StorageOperation::UpdateStatus { id, status } => match self.get_meta_by_id(id) {
                Some(meta) => Some(
                    MetadataEvent::StatusChanged {
                        id: id.clone(),
                        name: meta.name,
                        old_status: meta.state.status,
                        new_status: *status,
                    },
                ),
                None => None,
            },
            StorageOperation::UpdateResources { id, resources } => Some(
                MetadataEvent::ResourcesUpdated { id: id.clone(), resources: *resources },
            ),
            StorageOperation::AttachNetwork { id, network } => Some(
                MetadataEvent::NetworkAttached { id: id.clone(), network: network.duplicate() },
            ),
            _ => None,
        }
    }
}

/// Counts of containers and of status changes, kept from events.
#[derive(Debug, Default)]
pub struct MetricsEventHandler {
    pub container_count: usize,
    pub status_changes: usize,
}

impl MetricsEventHandler {
    /// Counts a creation up, a deletion down and a status change once; the
    /// counts stop at their bounds.
    pub fn handle(&mut self, event: &MetadataEvent)
        ensures
            match *event {
                MetadataEvent::ContainerCreated { .. } => final(self).container_count == if old(
                    self,
                ).container_count < usize::MAX {
                    (old(self).container_count + 1) as usize
                } else {
                    old(self).container_count
                } && final(self).status_changes == old(self).status_changes,
                MetadataEvent::ContainerDeleted { .. } => final(self).container_count == if old(
                    self,
                ).container_count > 0 {
                    (old(self).container_count - 1) as usize
                } else {
                    0
                } && final(self).status_changes == old(self).status_changes,
                MetadataEvent::StatusChanged { .. } => final(self).status_changes == if old(
                    self,
                ).status_changes < usize::MAX {
                    (old(self).status_changes + 1) as usize
                } else {
                    old(self).status_changes
                } && final(self).container_count == old(self).container_count,
                _ => *final(self) == *old(self),
            },
    {
        match event {
            MetadataEvent::ContainerCreated { .. } => {
                self.container_count = self.container_count.saturating_add(1);
            },
            MetadataEvent::ContainerDeleted { .. } => {
                self.container_count = self.container_count.saturating_sub(1);
            },
            MetadataEvent::StatusChanged { .. } => {
                self.status_changes = self.status_changes.saturating_add(1);
            },
            _ => {},
        }
    }
}

/// Turns events into log lines.
#[derive(Debug, Default, Clone, Copy)]
pub struct LoggingEventHandler {}

impl LoggingEventHandler {
    /// The line that the event is logged as, naming the container's id.
    pub fn describe(&self, event: &MetadataEvent) -> (r: String)
        ensures
            match *event {
                MetadataEvent::ContainerCreated { id, .. } => r@ == "Container created: "@ + id@,
                MetadataEvent::ContainerDeleted { id, .. } => r@ == "Container deleted: "@ + id@,
                MetadataEvent::StatusChanged { id, .. } => r@ == "Container status changed: "@ + id@,
                MetadataEvent::ResourcesUpdated { id, .. } => r@ == "Container resources updated: "@ + id@,
                MetadataEvent::NetworkAttached { id, .. } => r@ == "Network attached to container: "@ + id@,
                MetadataEvent::HealthChanged { id, .. } => r@ == "Container health changed: "@ + id@,
            },
    {
        proof {
            reveal_strlit("Container created: ");
            reveal_strlit("Container deleted: ");
            reveal_strlit("Container status changed: ");
            reveal_strlit("Container resources updated: ");
            reveal_strlit("Network attached to container: ");
            reveal_strlit("Container health changed: ");
        }
        match event {
            MetadataEvent::ContainerCreated { id, .. } => String::from_str("Container created: ").concat(id.as_str()),
            MetadataEvent::ContainerDeleted { id, .. } => String::from_str("Container deleted: ").concat(id.as_str()),
            MetadataEvent::StatusChanged { id, .. } => String::from_str("Container status changed: ").concat(
                id.as_str(),
            ),
            MetadataEvent::ResourcesUpdated { id, .. } => String::from_str("Container resources updated: ").concat(
                id.as_str(),
            ),
            MetadataEvent::NetworkAttached { id, .. } => String::from_str("Network attached to container: ").concat(
                id.as_str(),
            ),
            MetadataEvent::HealthChanged { id, .. } => String::from_str("Container health changed: ").concat(
                id.as_str(),
            ),
        }
    }
}

/// Totals over a set of records: memory and CPU limits, how many run, and
/// how many are in each status.
#[derive(Debug, Default)]
pub struct ResourceSummary {
    /// Bytes, saturating at the largest `u64`.
    pub total_memory: u64,
    /// Thousandths of a core, saturating at the largest `u64`.
    pub total_cpu_millis: u64,
    pub running_count: usize,
    pub total_count: usize,
    /// Each status that occurs, with its count, in order of first occurrence.
    pub containers_by_status: Vec<(ContainerStatus, usize)>,
}

/// The number of records in `ms` with status `s`.
pub open spec fn count_status(ms: Seq<MetaView>, s: ContainerStatus) -> int
    decreases ms.len(),
{
    if ms.len() == 0 {
        0
    } else {
        count_status(ms.drop_last(), s) + if ms.last().state.status == s {
            1int
        } else {
            0
        }
    }
}

proof fn lemma_count_nonneg(ms: Seq<MetaView>, s: ContainerStatus)
    ensures
        count_status(ms, s) >= 0,
    decreases ms.len(),
{
    if ms.len() > 0 {
        lemma_count_nonneg(ms.drop_last(), s);
    }
}

/// `a + b`, or the largest `u64` where the sum exceeds it.
pub open spec fn sat_add(a: int, b: int) -> int {
    if a + b > u64::MAX {
        u64::MAX as int
    } else {
        a + b
    }
}

/// The memory limits of the records added up, saturating.
pub open spec fn memory_total(ms: Seq<MetaView>) -> int
    decreases ms.len(),
{
    if ms.len() == 0 {
        0
    } else {
        sat_add(
            memory_total(ms.drop_last()),
            match ms.last().resources.memory_limit {
                Some(m) => m as int,
                None => 0,
            },
        )
    }
}

/// The CPU limits of the records added up, saturating.
pub open spec fn cpu_total(ms: Seq<MetaView>) -> int
    decreases ms.len(),
{
    if ms.len() == 0 {
        0
    } else {
        sat_add(
            cpu_total(ms.drop_last()),
            match ms.last().resources.cpu_millis {
                Some(m) => m as int,
                None => 0,
            },
        )
    }
}

/// The views of a list of records.
pub open spec fn views(ms: Seq<ContainerMeta>) -> Seq<MetaView> {
    ms.map_values(|m: ContainerMeta| m@)
}

/// Totals over these records.
pub fn get_resource_summary(metas: &Vec<ContainerMeta>) -> (r: ResourceSummary)
    ensures
        r.total_count == metas@.len(),
        r.total_memory == memory_total(views(metas@)),
        r.total_cpu_millis == cpu_total(views(metas@)),
        r.running_count == count_status(views(metas@), ContainerStatus::Running),
        forall|k: int| 0 <= k < r.containers_by_status@.len() ==> (#[trigger] r.containers_by_status@[k]).1
            == count_status(views(metas@), r.containers_by_status@[k].0),
        forall|s: ContainerStatus| #[trigger] count_status(views(metas@), s) > 0 ==> exists|k: int|
            0 <= k < r.containers_by_status@.len() && r.containers_by_status@[k].0 == s,
{
    let ghost all = views(metas@);
    let mut total_memory: u64 = 0;
    let mut total_cpu_millis: u64 = 0;
    let mut running: usize = 0;
    let mut by_status: Vec<(ContainerStatus, usize)> = Vec::new();
    let mut i: usize = 0;
    while i < metas.len()
        invariant
            i <= metas@.len(),
            all == views(metas@),
            running as int == count_status(all.subrange(0, i as int), ContainerStatus::Running),
            running <= i,
            total_memory == memory_total(all.subrange(0, i as int)),
            total_cpu_millis == cpu_total(all.subrange(0, i as int)),
            forall|k: int| 0 <= k < by_status@.len() ==> (#[trigger] by_status@[k]).1 == count_status(
                all.subrange(0, i as int),
                by_status@[k].0,
            ),
            forall|k: int| 0 <= k < by_status@.len() ==> (#[trigger] by_status@[k]).1 <= i,
            forall|a: int, b: int| 0 <= a < b < by_status@.len() ==> #[trigger] by_status@[a].0 != #[trigger] by_status@[b].0,
            forall|s: ContainerStatus| #[trigger] count_status(all.subrange(0, i as int), s) > 0 ==> exists|k: int|
                0 <= k < by_status@.len() && by_status@[k].0 == s,
        decreases metas@.len() - i,
    {
        let m = &metas[i];
        let ghost pre = all.subrange(0, i as int);
        assert(all.subrange(0, i + 1).drop_last() == pre);
        assert(all.subrange(0, i + 1).last() == m@);
        if let Some(mem) = m.resources.memory_limit {
            total_memory = total_memory.saturating_add(mem);
        }
        if let Some(cpu) = m.resources.cpu_millis {
            total_cpu_millis = total_cpu_millis.saturating_add(cpu);
        }
        if m.state.status == ContainerStatus::Running {
            running = running + 1;
        }
        let mut k: usize = 0;
        while k < by_status.len() && by_status[k].0 != m.state.status
            invariant
                k <= by_status@.len(),
                forall|q: int| 0 <= q < k ==> (#[trigger] by_status@[q]).0 != m.state.status,
            decreases by_status@.len() - k,
        {
            k = k + 1;
        }
        let found = k < by_status.len();
        let ghost before = by_status@;
        proof {
            if !found {
                assert forall|q: int| 0 <= q < before.len() implies #[trigger] before[q].0 != m.state.status by {
                    assert(by_status@[q].0 != m.state.status);
                }
            }
        }
        if found {
            let (s, c) = by_status[k];
            by_status.set(k, (s, c + 1));
        } else {
            by_status.push((m.state.status, 1));
        }
        proof {
            assert forall|q: int| 0 <= q < by_status@.len() implies (#[trigger] by_status@[q]).1 == count_status(
                all.subrange(0, i + 1),
                by_status@[q].0,
            ) by {
                let st = by_status@[q].0;
                assert(count_status(all.subrange(0, i + 1), st) == count_status(pre, st) + if m@.state.status == st {
                    1int
                } else {
                    0
                });
                if q < before.len() {
                    assert(by_status@[q].0 == before[q].0);
                    if found && q == k {
                        assert(before[q].0 == m.state.status);
                    } else if found {
                        assert(before[q].0 != before[k as int].0);
                        assert(by_status@[q] == before[q]);
                    } else {
                        assert(by_status@[q] == before[q]);
                    }
                } else {
                    assert(!found);
                    lemma_count_nonneg(pre, m.state.status);
                    assert(count_status(pre, m.state.status) == 0) by {
                        if count_status(pre, m.state.status) > 0 {
                            assert(exists|w: int| 0 <= w < before.len() && before[w].0 == m.state.status);
                            let w = choose|w: int| 0 <= w < before.len() && before[w].0 == m.state.status;
                            assert(before[w].0 != m.state.status);
                        }
                    }
                }
            }
            assert forall|a: int, b: int| 0 <= a < b < by_status@.len() implies #[trigger] by_status@[a].0 != #[trigger] by_status@[b].0 by {
                if b < before.len() {
                    assert(by_status@[a].0 == before[a].0 && by_status@[b].0 == before[b].0);
                } else {
                    assert(by_status@[a].0 == before[a].0);
                }
            }
            assert forall|s: ContainerStatus| #[trigger] count_status(all.subrange(0, i + 1), s) > 0 implies exists|q: int|
                0 <= q < by_status@.len() && by_status@[q].0 == s by {
                assert(count_status(all.subrange(0, i + 1), s) == count_status(pre, s) + if m@.state.status == s {
                    1int
                } else {
                    0
                });
                if s == m.state.status {
                    if found {
                        assert(by_status@[k as int].0 == s);
                    } else {
                        assert(by_status@[before.len() as int].0 == s);
                    }
                } else {
                    let w = choose|w: int| 0 <= w < before.len() && before[w].0 == s;
                    assert(by_status@[w].0 == s);
                }
            }
        }
        i = i + 1;
    }
    assert(all.subrange(0, metas@.len() as int) == all);
    let ghost final_list = by_status@;
    let r = ResourceSummary {
        total_memory,
        total_cpu_millis,
        running_count: running,
        total_count: metas.len(),
        containers_by_status: by_status,
    };
    assert(r.containers_by_status@ == final_list);
    assert forall|s: ContainerStatus| #[trigger] count_status(views(metas@), s) > 0 implies exists|k: int|
        0 <= k < r.containers_by_status@.len() && r.containers_by_status@[k].0 == s by {
        assert(count_status(all.subrange(0, i as int), s) > 0);
        let w = choose|w: int| 0 <= w < final_list.len() && final_list[w].0 == s;
        assert(r.containers_by_status@[w].0 == s);
    }
    r
}

} // verus!
