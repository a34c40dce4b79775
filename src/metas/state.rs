//! The in-memory index of container records and the operations that change it.
use crate::error::RTError;
use crate::metas::filter::{filter_matches, ContainerFilter};
use crate::metas::meta::current_time;
use crate::metas::meta::{
    transition_ok, ContainerMeta, MetaView, ContainerState, ContainerStatus, MountPoint, NetworkConfig, ResourceConfig,
};
use dashmap::DashMap;
use std::collections::hash_map::RandomState;
use vstd::prelude::*;
use vstd::set_lib::lemma_map_size;
use vstd::string::StrSliceExecFns;

verus! {

/// A record of the log: one change to the index.
#[derive(Debug)]
pub enum StorageOperation {
    Create(ContainerMeta),
    Delete(String),
    UpdateStatus { id: String, status: ContainerStatus },
    UpdateState { id: String, state: ContainerState },
    UpdateEnvironment { id: String, env: Vec<(String, String)> },
    UpdateLabels { id: String, labels: Vec<(String, String)> },
    UpdateResources { id: String, resources: ResourceConfig },
    AttachNetwork { id: String, network: NetworkConfig },
    DetachNetwork { id: String },
    AddMount { id: String, mount: MountPoint },
    RemoveMount { id: String, destination: String },
    /// Applies its operations in order.
    Batch(Vec<StorageOperation>),
}

#[verifier::external_type_specification]
#[verifier::external_body]
#[verifier::reject_recursive_types(K)]
#[verifier::reject_recursive_types(V)]
#[verifier::reject_recursive_types(S)]
pub struct ExDashMap<K, V, S>(DashMap<K, V, S>);

/// Records by id.
pub type MetaMap = DashMap<String, ContainerMeta, RandomState>;

/// Ids by name.
pub type NameMap = DashMap<String, String, RandomState>;

/// The records that a concurrent map from id to record holds.
pub uninterp spec fn meta_entries(m: MetaMap) -> Map<Seq<char>, MetaView>;

/// The entries that a concurrent map from name to id holds.
pub uninterp spec fn name_entries(m: NameMap) -> Map<Seq<char>, Seq<char>>;

/// Relies on DashMap::new: an empty map.
#[verifier::external_body]
fn new_meta_map() -> (r: MetaMap)
    ensures
        meta_entries(r).dom() == Set::<Seq<char>>::empty(),
{
    DashMap::new()
}

/// Relies on DashMap::insert: the key now maps to the value, other keys keep theirs.
#[verifier::external_body]
fn meta_map_insert(m: &mut MetaMap, k: String, v: ContainerMeta)
    ensures
        meta_entries(*final(m)) == meta_entries(*old(m)).insert(k@, v@),
{
    m.insert(k, v);
}

/// Relies on DashMap::remove: takes out the value under the key, if any.
#[verifier::external_body]
fn meta_map_remove(m: &mut MetaMap, k: &String) -> (r: Option<ContainerMeta>)
    ensures
        meta_entries(*final(m)) == meta_entries(*old(m)).remove(k@),
        match r {
            Some(v) => meta_entries(*old(m)).contains_key(k@) && v@ == meta_entries(*old(m))[k@],
            None => !meta_entries(*old(m)).contains_key(k@),
        },
{
    m.remove(k).map(|e| e.1)
}

/// Relies on DashMap::contains_key.
#[verifier::external_body]
fn meta_map_contains(m: &MetaMap, k: &String) -> (r: bool)
    ensures
        r == meta_entries(*m).contains_key(k@),
{
    m.contains_key(k)
}


/// Relies on DashMap::get: the value under the key, if any, copied out.
#[verifier::external_body]
fn meta_map_get(m: &MetaMap, k: &String) -> (r: Option<ContainerMeta>)
    ensures
        match r {
            Some(v) => meta_entries(*m).contains_key(k@) && v@ == meta_entries(*m)[k@],
            None => !meta_entries(*m).contains_key(k@),
        },
{
    m.get(k).map(|e| e.value().duplicate())
}

/// Relies on DashMap::iter: each entry once, in an order that the map picks.
#[verifier::external_body]
fn meta_map_entries(m: &MetaMap) -> (r: Vec<(String, ContainerMeta)>)
    ensures
        r@.len() == meta_entries(*m).dom().len(),
        forall|i: int| 0 <= i < r@.len() ==> meta_entries(*m).contains_key(#[trigger] r@[i].0@)
            && r@[i].1@ == meta_entries(*m)[r@[i].0@],
        forall|i: int, j: int| 0 <= i < j < r@.len() ==> #[trigger] r@[i].0@ != #[trigger] r@[j].0@,
{
    m.iter().map(|e| (e.key().clone(), e.value().duplicate())).collect()
}

/// Relies on DashMap::get: the value under the key, if any, copied out.
#[verifier::external_body]
fn name_map_get(m: &NameMap, k: &String) -> (r: Option<String>)
    ensures
        match r {
            Some(v) => name_entries(*m).contains_key(k@) && v@ == name_entries(*m)[k@],
            None => !name_entries(*m).contains_key(k@),
        },
{
    m.get(k).map(|e| e.value().clone())
}

/// Relies on DashMap::new: an empty map.
#[verifier::external_body]
fn new_name_map() -> (r: NameMap)
    ensures
        name_entries(r).dom() == Set::<Seq<char>>::empty(),
{
    DashMap::new()
}

/// Relies on DashMap::insert: the key now maps to the value, other keys keep theirs.
#[verifier::external_body]
fn name_map_insert(m: &mut NameMap, k: String, v: String)
    ensures
        name_entries(*final(m)) == name_entries(*old(m)).insert(k@, v@),
{
    m.insert(k, v);
}

/// Relies on DashMap::remove: takes out the entry under the key, if any.
#[verifier::external_body]
fn name_map_remove(m: &mut NameMap, k: &String)
    ensures
        name_entries(*final(m)) == name_entries(*old(m)).remove(k@),
{
    m.remove(k);
}

/// Relies on DashMap::contains_key.
#[verifier::external_body]
fn name_map_contains(m: &NameMap, k: &String) -> (r: bool)
    ensures
        r == name_entries(*m).contains_key(k@),
{
    m.contains_key(k)
}

/// The index: records by id, and ids by name.
pub type Index = (Map<Seq<char>, MetaView>, Map<Seq<char>, Seq<char>>);

/// The mounts of `s` whose destination is not `dest`.
pub open spec fn keep_mounts(s: Seq<MountPoint>, dest: Seq<char>) -> Seq<MountPoint>
    decreases s.len(),
{
    if s.len() == 0 {
        s
    } else if s.last().destination@ == dest {
        keep_mounts(s.drop_last(), dest)
    } else {
        keep_mounts(s.drop_last(), dest).push(s.last())
    }
}

/// The record under `id` changed by `f`, where there is one.
pub open spec fn update_meta(
    ids: Map<Seq<char>, MetaView>,
    id: Seq<char>,
    f: spec_fn(MetaView) -> MetaView,
) -> Map<Seq<char>, MetaView> {
    if ids.contains_key(id) {
        ids.insert(id, f(ids[id]))
    } else {
        ids
    }
}

/// What one operation makes of the index at time `now`, and whether it
/// succeeded. A creation fails where its id or its name is taken; a status
/// change fails where the lifecycle does not allow the move; a batch applies
/// its operations in order and, where one fails, changes nothing at all; an
/// update of an id that is not there changes nothing. A failed operation
/// leaves the index as it was.
pub open spec fn apply_op(idx: Index, op: StorageOperation, now: u64) -> (Index, bool)
    decreases op, 0int,
{
    let (ids, names) = idx;
    match op {
        StorageOperation::Create(meta) => {
            if ids.contains_key(meta.id@) || names.contains_key(meta.name@) {
                (idx, false)
            } else {
                ((ids.insert(meta.id@, meta@), names.insert(meta.name@, meta.id@)), true)
            }
        },
        StorageOperation::Delete(id) => {
            if ids.contains_key(id@) {
                ((ids.remove(id@), names.remove(ids[id@].name)), true)
            } else {
                (idx, true)
            }
        },
        StorageOperation::UpdateStatus { id, status } => if ids.contains_key(id@) && !transition_ok(
            ids[id@].state.status,
            status,
        ) {
            (idx, false)
        } else {
            (
                (
                    update_meta(
                        ids,
                        id@,
                        |m: MetaView|
                            MetaView { state: ContainerState { status: status, ..m.state }, updated_at: now, ..m },
                    ),
                    names,
                ),
                true,
            )
        },
        StorageOperation::UpdateState { id, state } => if ids.contains_key(id@) && !transition_ok(
            ids[id@].state.status,
            state.status,
        ) {
            (idx, false)
        } else {
            ((update_meta(ids, id@, |m: MetaView| MetaView { state: state, updated_at: now, ..m }), names), true)
        },
        StorageOperation::UpdateEnvironment { id, env } => (
            (update_meta(ids, id@, |m: MetaView| MetaView { env: env@, updated_at: now, ..m }), names),
            true,
        ),
        StorageOperation::UpdateLabels { id, labels } => (
            (update_meta(ids, id@, |m: MetaView| MetaView { labels: labels@, updated_at: now, ..m }), names),
            true,
        ),
        StorageOperation::UpdateResources { id, resources } => (
            (
                update_meta(ids, id@, |m: MetaView| MetaView { resources: resources, updated_at: now, ..m }),
                names,
            ),
            true,
        ),
        StorageOperation::AttachNetwork { id, network } => (
            (
                update_meta(ids, id@, |m: MetaView| MetaView { network: Some(network@), updated_at: now, ..m }),
                names,
            ),
            true,
        ),
        StorageOperation::DetachNetwork { id } => (
            (update_meta(ids, id@, |m: MetaView| MetaView { network: None, updated_at: now, ..m }), names),
            true,
        ),
        StorageOperation::AddMount { id, mount } => (
            (
                update_meta(ids, id@, |m: MetaView| MetaView { mounts: m.mounts.push(mount), updated_at: now, ..m }),
                names,
            ),
            true,
        ),
        StorageOperation::RemoveMount { id, destination } => (
            (
                update_meta(
                    ids,
                    id@,
                    |m: MetaView| MetaView { mounts: keep_mounts(m.mounts, destination@), updated_at: now, ..m },
                ),
                names,
            ),
            true,
        ),
        StorageOperation::Batch(ops) => {
            let (next, ok) = apply_ops(idx, ops@, 0, now);
            if ok {
                (next, true)
            } else {
                (idx, false)
            }
        },
    }
}

/// Applies `ops[i..]` in order, stopping at the first that fails.
pub open spec fn apply_ops(idx: Index, ops: Seq<StorageOperation>, i: int, now: u64) -> (Index, bool)
    decreases ops, ops.len() - i,
{
    if i < 0 || i >= ops.len() {
        (idx, true)
    } else {
        let (next, ok) = apply_op(idx, ops[i], now);
        if !ok {
            (next, false)
        } else {
            apply_ops(next, ops, i + 1, now)
        }
    }
}


/// Replays `log[i..]`, each operation at the time it was logged, stopping at
/// the first that fails.
pub open spec fn apply_log(idx: Index, log: Seq<(u64, StorageOperation)>, i: int) -> (Index, bool)
    decreases log.len() - i,
{
    if i < 0 || i >= log.len() {
        (idx, true)
    } else {
        let (next, ok) = apply_op(idx, log[i].1, log[i].0);
        if !ok {
            (next, false)
        } else {
            apply_log(next, log, i + 1)
        }
    }
}

/// The two maps agree: each record sits under its own id, each name leads to
/// the record that bears it, and each record's name leads back to it.
pub open spec fn index_consistent(idx: Index) -> bool {
    let (ids, names) = idx;
    &&& ids.dom().finite()
    &&& names.dom().finite()
    &&& forall|i: Seq<char>| #[trigger] ids.contains_key(i) ==> ids[i].id == i
    &&& forall|n: Seq<char>| #[trigger] names.contains_key(n) ==> ids.contains_key(names[n])
        && ids[names[n]].name == n
    &&& forall|i: Seq<char>| #[trigger] ids.contains_key(i) ==> names.contains_key(ids[i].name)
        && names[ids[i].name] == i
}

/// Every operation keeps the index consistent, whether it succeeds or not:
/// names stay unique and each name leads to the record that bears it.
pub proof fn lemma_apply_keeps_consistent(idx: Index, op: StorageOperation, now: u64)
    requires
        index_consistent(idx),
    ensures
        index_consistent(apply_op(idx, op, now).0),
    decreases op, 0int,
{
    let (ids, names) = idx;
    match op {
        StorageOperation::Create(meta) => {
            if !(ids.contains_key(meta.id@) || names.contains_key(meta.name@)) {
                let (ids2, names2) = apply_op(idx, op, now).0;
                assert forall|n: Seq<char>| #[trigger] names2.contains_key(n) implies ids2.contains_key(names2[n])
                    && ids2[names2[n]].name == n by {
                    if n != meta.name@ {
                        assert(names.contains_key(n));
                        assert(names[n] != meta.id@);
                    }
                }
                assert forall|i: Seq<char>| #[trigger] ids2.contains_key(i) implies names2.contains_key(ids2[i].name)
                    && names2[ids2[i].name] == i by {
                    if i != meta.id@ {
                        assert(ids.contains_key(i));
                        assert(ids[i].name != meta.name@);
                    }
                }
            }
        },
        StorageOperation::Delete(id) => {
            if ids.contains_key(id@) {
                let gone = ids[id@].name;
                let (ids2, names2) = apply_op(idx, op, now).0;
                assert forall|n: Seq<char>| #[trigger] names2.contains_key(n) implies ids2.contains_key(names2[n])
                    && ids2[names2[n]].name == n by {
                    assert(names.contains_key(n));
                    assert(names[n] != id@);
                }
                assert forall|i: Seq<char>| #[trigger] ids2.contains_key(i) implies names2.contains_key(ids2[i].name)
                    && names2[ids2[i].name] == i by {
                    assert(ids.contains_key(i));
                    assert(ids[i].name != gone);
                }
            }
        },
        StorageOperation::Batch(ops) => {
            lemma_apply_ops_keeps_consistent(idx, ops@, 0, now);
        },
        _ => {
            let (ids2, names2) = apply_op(idx, op, now).0;
            assert(names2 == names);
            assert(ids2.dom() == ids.dom());
            assert forall|i: Seq<char>| #[trigger] ids2.contains_key(i) implies ids2[i].id == ids[i].id
                && ids2[i].name == ids[i].name by {}
            assert forall|n: Seq<char>| #[trigger] names2.contains_key(n) implies ids2.contains_key(names2[n])
                && ids2[names2[n]].name == n by {
                assert(names.contains_key(n));
            }
        },
    }
}

/// Applying a run of operations keeps the index consistent.
pub proof fn lemma_apply_ops_keeps_consistent(idx: Index, ops: Seq<StorageOperation>, i: int, now: u64)
    requires
        index_consistent(idx),
    ensures
        index_consistent(apply_ops(idx, ops, i, now).0),
    decreases ops, ops.len() - i,
{
    if 0 <= i < ops.len() {
        lemma_apply_keeps_consistent(idx, ops[i], now);
        let (next, ok) = apply_op(idx, ops[i], now);
        if ok {
            lemma_apply_ops_keeps_consistent(next, ops, i + 1, now);
        }
    }
}

/// In a consistent index there are exactly as many names as records.
pub proof fn lemma_name_count(idx: Index)
    requires
        index_consistent(idx),
    ensures
        idx.1.dom().len() == idx.0.dom().len(),
{
    let (ids, names) = idx;
    let f = |i: Seq<char>| ids[i].name;
    assert(vstd::relations::injective_on(f, ids.dom())) by {
        assert forall|a: Seq<char>, b: Seq<char>|
            ids.dom().contains(a) && ids.dom().contains(b) && #[trigger] f(a) == #[trigger] f(b) implies a == b by {
            assert(names[ids[a].name] == a);
            assert(names[ids[b].name] == b);
        }
    }
    assert(ids.dom().map(f) =~= names.dom()) by {
        assert forall|n: Seq<char>| names.dom().contains(n) implies #[trigger] ids.dom().map(f).contains(n) by {
            assert(ids.dom().contains(names[n]) && f(names[n]) == n);
        }
    }
    lemma_map_size(ids.dom(), names.dom(), f);
}

/// A list that holds as many distinct ids as the map has keys, all of them
/// keys of the map, holds every key.
proof fn lemma_listed(ids: Map<Seq<char>, MetaView>, src: Seq<ContainerMeta>, id: Seq<char>)
    requires
        ids.dom().finite(),
        ids.contains_key(id),
        src.len() == ids.dom().len(),
        forall|i: int| 0 <= i < src.len() ==> ids.contains_key(#[trigger] src[i].id@),
        forall|i: int, j: int| 0 <= i < j < src.len() ==> #[trigger] src[i].id@ != #[trigger] src[j].id@,
    ensures
        exists|i: int| 0 <= i < src.len() && src[i].id@ == id,
{
    let listed = src.map_values(|m: ContainerMeta| m.id@);
    assert forall|i: int, j: int| 0 <= i < j < listed.len() implies listed[i] != listed[j] by {
        assert(listed[i] == src[i].id@ && listed[j] == src[j].id@);
    }
    assert(listed.no_duplicates());
    listed.unique_seq_to_set();
    assert(listed.to_set().subset_of(ids.dom())) by {
        assert forall|x: Seq<char>| listed.to_set().contains(x) implies ids.dom().contains(x) by {
            let i = choose|i: int| 0 <= i < listed.len() && listed[i] == x;
            assert(listed[i] == src[i].id@);
        }
    }
    if !(exists|i: int| 0 <= i < src.len() && src[i].id@ == id) {
        assert(!listed.to_set().contains(id)) by {
            if listed.to_set().contains(id) {
                let i = choose|i: int| 0 <= i < listed.len() && listed[i] == id;
                assert(src[i].id@ == id);
            }
        }
        vstd::set_lib::lemma_len_subset(listed.to_set().insert(id), ids.dom());
    }
}

/// Replaying `log` from position `i` is replaying the suffix from its start.
proof fn lemma_log_shift(idx: Index, log: Seq<(u64, StorageOperation)>, i: int)
    requires
        0 <= i <= log.len(),
    ensures
        apply_log(idx, log, i) == apply_log(idx, log.subrange(i, log.len() as int), 0),
    decreases log.len() - i,
{
    let sub = log.subrange(i, log.len() as int);
    if i < log.len() {
        assert(sub[0] == log[i]);
        let (next, ok) = apply_op(idx, log[i].1, log[i].0);
        if ok {
            lemma_log_shift(next, log, i + 1);
            lemma_log_shift(next, sub, 1);
            assert(sub.subrange(1, sub.len() as int) == log.subrange(i + 1, log.len() as int));
        }
    }
}

/// Recovery from a snapshot of the state after the first `k` logged
/// operations, followed by a replay of the rest of the log, gives the state
/// that a replay of the whole log gives.
pub proof fn lemma_replay_split(idx: Index, log: Seq<(u64, StorageOperation)>, k: int)
    requires
        0 <= k <= log.len(),
        apply_log(idx, log.subrange(0, k), 0).1,
    ensures
        apply_log(idx, log, 0) == apply_log(
            apply_log(idx, log.subrange(0, k), 0).0,
            log.subrange(k, log.len() as int),
            0,
        ),
    decreases k,
{
    if k == 0 {
        assert(log.subrange(0, log.len() as int) == log);
    } else {
        let prefix = log.subrange(0, k);
        let tail = log.drop_first();
        assert(prefix[0] == log[0]);
        let (next, ok) = apply_op(idx, log[0].1, log[0].0);
        assert(ok);
        lemma_log_shift(next, prefix, 1);
        assert(prefix.subrange(1, k) == tail.subrange(0, k - 1));
        lemma_log_shift(next, log, 1);
        assert(log.subrange(1, log.len() as int) == tail);
        lemma_replay_split(next, tail, k - 1);
        assert(tail.subrange(k - 1, tail.len() as int) == log.subrange(k, log.len() as int));
    }
}

/// Committing one more operation at time `now` to the state that the log
/// replays to gives the state that the log, with that operation and its time
/// appended, replays to: the live state equals the recovered one.
pub proof fn lemma_commit_extends_log(idx: Index, log: Seq<(u64, StorageOperation)>, op: StorageOperation, now: u64)
    requires
        apply_log(idx, log, 0).1,
    ensures
        apply_log(idx, log.push((now, op)), 0) == apply_op(apply_log(idx, log, 0).0, op, now),
{
    let all = log.push((now, op));
    assert(all.subrange(0, log.len() as int) == log);
    lemma_replay_split(idx, all, log.len() as int);
    let rest = all.subrange(log.len() as int, all.len() as int);
    assert(rest[0] == (now, op));
    let mid = apply_log(idx, log, 0).0;
    let (next, ok) = apply_op(mid, op, now);
    if ok {
        assert(apply_log(next, rest, 1) == (next, true));
    }
}

/// One creation per record, in order.
pub open spec fn creations(list: Seq<ContainerMeta>) -> Seq<(u64, StorageOperation)> {
    list.map_values(|m: ContainerMeta| (0u64, StorageOperation::Create(m)))
}

/// The index that holds exactly these records.
pub open spec fn index_of(list: Seq<ContainerMeta>) -> Index
    decreases list.len(),
{
    if list.len() == 0 {
        (Map::empty(), Map::empty())
    } else {
        let (ids, names) = index_of(list.drop_last());
        let m = list.last();
        (ids.insert(m.id@, m@), names.insert(m.name@, m.id@))
    }
}

proof fn lemma_index_of(list: Seq<ContainerMeta>)
    requires
        forall|i: int, j: int| 0 <= i < j < list.len() ==> #[trigger] list[i].id@ != #[trigger] list[j].id@,
        forall|i: int, j: int| 0 <= i < j < list.len() ==> #[trigger] list[i].name@ != #[trigger] list[j].name@,
    ensures
        forall|x: Seq<char>| #[trigger] index_of(list).0.contains_key(x) <==> exists|i: int| 0 <= i < list.len() && list[i].id@ == x,
        forall|n: Seq<char>| #[trigger] index_of(list).1.contains_key(n) <==> exists|i: int| 0 <= i < list.len() && list[i].name@ == n,
        forall|i: int| 0 <= i < list.len() ==> index_of(list).0[#[trigger] list[i].id@] == list[i]@,
        forall|i: int| 0 <= i < list.len() ==> index_of(list).1[#[trigger] list[i].name@] == list[i].id@,
        apply_log((Map::empty(), Map::empty()), creations(list), 0) == (index_of(list), true),
    decreases list.len(),
{
    let e: Index = (Map::empty(), Map::empty());
    if list.len() == 0 {
        assert(creations(list) == Seq::<(u64, StorageOperation)>::empty());
    } else {
        let pre = list.drop_last();
        let m = list.last();
        assert forall|i: int, j: int| 0 <= i < j < pre.len() implies #[trigger] pre[i].id@ != #[trigger] pre[j].id@ by {
            assert(pre[i] == list[i] && pre[j] == list[j]);
        }
        assert forall|i: int, j: int| 0 <= i < j < pre.len() implies #[trigger] pre[i].name@ != #[trigger] pre[j].name@ by {
            assert(pre[i] == list[i] && pre[j] == list[j]);
        }
        lemma_index_of(pre);
        assert(creations(list) == creations(pre).push((0u64, StorageOperation::Create(m))));
        lemma_commit_extends_log(e, creations(pre), StorageOperation::Create(m), 0);
        let (ids, names) = index_of(pre);
        assert(!ids.contains_key(m.id@)) by {
            if ids.contains_key(m.id@) {
                let i = choose|i: int| 0 <= i < pre.len() && pre[i].id@ == m.id@;
                assert(list[i].id@ == list[list.len() - 1].id@);
            }
        }
        assert(!names.contains_key(m.name@)) by {
            if names.contains_key(m.name@) {
                let i = choose|i: int| 0 <= i < pre.len() && pre[i].name@ == m.name@;
                assert(list[i].name@ == list[list.len() - 1].name@);
            }
        }
        assert forall|x: Seq<char>| #[trigger] index_of(list).0.contains_key(x) <==> exists|i: int|
            0 <= i < list.len() && list[i].id@ == x by {
            if index_of(list).0.contains_key(x) && x != m.id@ {
                let i = choose|i: int| 0 <= i < pre.len() && pre[i].id@ == x;
                assert(list[i] == pre[i]);
            }
            if exists|i: int| 0 <= i < list.len() && list[i].id@ == x {
                let i = choose|i: int| 0 <= i < list.len() && list[i].id@ == x;
                if i < pre.len() {
                    assert(pre[i] == list[i]);
                }
            }
        }
        assert forall|n: Seq<char>| #[trigger] index_of(list).1.contains_key(n) <==> exists|i: int|
            0 <= i < list.len() && list[i].name@ == n by {
            if index_of(list).1.contains_key(n) && n != m.name@ {
                let i = choose|i: int| 0 <= i < pre.len() && pre[i].name@ == n;
                assert(list[i] == pre[i]);
            }
            if exists|i: int| 0 <= i < list.len() && list[i].name@ == n {
                let i = choose|i: int| 0 <= i < list.len() && list[i].name@ == n;
                if i < pre.len() {
                    assert(pre[i] == list[i]);
                }
            }
        }
        assert forall|i: int| 0 <= i < list.len() implies index_of(list).0[#[trigger] list[i].id@] == list[i]@ by {
            if i < pre.len() {
                assert(pre[i] == list[i]);
            }
        }
        assert forall|i: int| 0 <= i < list.len() implies index_of(list).1[#[trigger] list[i].name@] == list[i].id@ by {
            if i < pre.len() {
                assert(pre[i] == list[i]);
            }
        }
    }
}

/// Recreating every record of a consistent index, in any order, from an
/// empty index gives back the same index: what a snapshot holds is what
/// reloading it restores.
pub proof fn lemma_snapshot_reload(idx: Index, list: Seq<ContainerMeta>)
    requires
        index_consistent(idx),
        list.len() == idx.0.dom().len(),
        forall|i: int| 0 <= i < list.len() ==> idx.0.contains_key(#[trigger] list[i].id@) && list[i]@ == idx.0[list[i].id@],
        forall|i: int, j: int| 0 <= i < j < list.len() ==> #[trigger] list[i].id@ != #[trigger] list[j].id@,
    ensures
        apply_log((Map::empty(), Map::empty()), creations(list), 0) == (idx, true),
        index_of(list) == idx,
{
    assert forall|i: int, j: int| 0 <= i < j < list.len() implies #[trigger] list[i].name@ != #[trigger] list[j].name@ by {
        let a = list[i].id@;
        let b = list[j].id@;
        assert(idx.1[idx.0[a].name] == a);
        assert(idx.1[idx.0[b].name] == b);
    }
    lemma_index_of(list);
    let (ids, names) = index_of(list);
    assert forall|x: Seq<char>| idx.0.contains_key(x) implies exists|i: int| 0 <= i < list.len() && list[i].id@ == x by {
        lemma_listed(idx.0, list, x);
    }
    assert(ids =~= idx.0) by {
        assert forall|x: Seq<char>| #[trigger] ids.contains_key(x) <==> idx.0.contains_key(x) by {
            if idx.0.contains_key(x) {
                lemma_listed(idx.0, list, x);
            }
        }
        assert forall|x: Seq<char>| #[trigger] ids.contains_key(x) implies ids[x] == idx.0[x] by {
            let i = choose|i: int| 0 <= i < list.len() && list[i].id@ == x;
        }
    }
    assert(names =~= idx.1) by {
        assert forall|n: Seq<char>| #[trigger] names.contains_key(n) <==> idx.1.contains_key(n) by {
            if names.contains_key(n) {
                let i = choose|i: int| 0 <= i < list.len() && list[i].name@ == n;
                assert(idx.0[list[i].id@].name == n);
            }
            if idx.1.contains_key(n) {
                let x = idx.1[n];
                lemma_listed(idx.0, list, x);
                let i = choose|i: int| 0 <= i < list.len() && list[i].id@ == x;
                assert(list[i]@.name == n);
            }
        }
        assert forall|n: Seq<char>| #[trigger] names.contains_key(n) implies names[n] == idx.1[n] by {
            let i = choose|i: int| 0 <= i < list.len() && list[i].name@ == n;
            let x = list[i].id@;
            assert(idx.0[x].name == n);
            assert(idx.1[idx.0[x].name] == x);
        }
    }
}

/// A single operation moves the status of every record it leaves in the
/// index along the lifecycle only: a status change the lifecycle does not
/// allow fails and changes nothing. (A batch takes one such step per
/// operation.)
pub proof fn lemma_status_moves_allowed(idx: Index, op: StorageOperation, now: u64)
    requires
        !(op is Batch),
    ensures
        forall|i: Seq<char>| #[trigger] apply_op(idx, op, now).0.0.contains_key(i) && idx.0.contains_key(i)
            ==> transition_ok(idx.0[i].state.status, apply_op(idx, op, now).0.0[i].state.status),
{
}

/// A single operation never changes the creation time, the id or the name
/// of a record that it leaves in the index. (A batch may delete a record and
/// create another under the same id.)
pub proof fn lemma_apply_keeps_identity(idx: Index, op: StorageOperation, now: u64)
    requires
        !(op is Batch),
    ensures
        forall|i: Seq<char>| #[trigger] apply_op(idx, op, now).0.0.contains_key(i) && idx.0.contains_key(i)
            ==> apply_op(idx, op, now).0.0[i].created_at == idx.0[i].created_at
            && apply_op(idx, op, now).0.0[i].id == idx.0[i].id
            && apply_op(idx, op, now).0.0[i].name == idx.0[i].name,
{
}

/// The mounts of `mounts` whose destination is not `dest`, in order.
fn without_destination(mounts: Vec<MountPoint>, dest: &String) -> (r: Vec<MountPoint>)
    ensures
        r@ == keep_mounts(mounts@, dest@),
{
    let ghost all = mounts@;
    let mut rest = mounts;
    let mut out: Vec<MountPoint> = Vec::new();
    let ghost mut i: int = 0;
    while rest.len() > 0
        invariant
            0 <= i <= all.len(),
            rest@ == all.subrange(i as int, all.len() as int),
            rest@.len() == all.len() - i,
            out@ == keep_mounts(all.subrange(0, i as int), dest@),
        decreases rest@.len(),
    {
        let mp = rest.remove(0);
        assert(mp == all[i as int]);
        let ghost pre = all.subrange(0, i as int);
        assert(all.subrange(0, i + 1).drop_last() == pre);
        assert(all.subrange(0, i + 1).last() == mp);
        if mp.destination != *dest {
            out.push(mp);
        }
        proof {
            i = i + 1;
        }
        assert(rest@ == all.subrange(i as int, all.len() as int));
    }
    assert(all.subrange(0, i as int) == all);
    out
}

proof fn lemma_remove_reinsert(m: Map<Seq<char>, MetaView>, k: Seq<char>, v: MetaView)
    requires
        m.contains_key(k),
        m[k] == v,
    ensures
        m.remove(k).insert(k, v) == m,
{
    assert(m.remove(k).insert(k, v) =~= m);
}

proof fn lemma_remove_insert(m: Map<Seq<char>, MetaView>, k: Seq<char>, v: MetaView)
    ensures
        m.remove(k).insert(k, v) == m.insert(k, v),
{
    assert(m.remove(k).insert(k, v) =~= m.insert(k, v));
}

/// An applied operation that waits for its log write, with the records as
/// they were before it.
pub struct Staged {
    saved: Vec<ContainerMeta>,
    before: Ghost<Index>,
}

impl Staged {
    /// The index before the operation.
    pub closed spec fn before(&self) -> Index {
        self.before@
    }

    /// The saved records are exactly those of the index before.
    pub closed spec fn valid(&self) -> bool {
        let target = self.before@;
        &&& index_consistent(target)
        &&& self.saved@.len() == target.0.dom().len()
        &&& forall|i: int| 0 <= i < self.saved@.len() ==> target.0.contains_key(#[trigger] self.saved@[i].id@)
            && self.saved@[i]@ == target.0[self.saved@[i].id@]
        &&& forall|i: int, j: int| 0 <= i < j < self.saved@.len() ==> #[trigger] self.saved@[i].id@
            != #[trigger] self.saved@[j].id@
    }
}

/// The in-memory index of container records.
#[derive(Debug)]
pub struct InnerState {
    by_id: MetaMap,
    by_name: NameMap,
}

impl InnerState {
    /// Records by id, and ids by name.
    pub closed spec fn index(&self) -> Index {
        (meta_entries(self.by_id), name_entries(self.by_name))
    }

    /// The maps agree with each other.
    pub open spec fn wf(&self) -> bool {
        index_consistent(self.index())
    }

    /// An empty index.
    pub fn new() -> (r: Self)
        ensures
            r.index().0.dom() == Set::<Seq<char>>::empty(),
            r.index().1.dom() == Set::<Seq<char>>::empty(),
            r.wf(),
    {
        InnerState { by_id: new_meta_map(), by_name: new_name_map() }
    }

    /// The record with this id.
    pub fn get_meta_by_id(&self, id: &String) -> (r: Option<ContainerMeta>)
        ensures
            match r {
                Some(m) => self.index().0.contains_key(id@) && m@ == self.index().0[id@],
                None => !self.index().0.contains_key(id@),
            },
    {
        meta_map_get(&self.by_id, id)
    }

    /// The record with this name.
    pub fn get_meta_by_name(&self, name: &String) -> (r: Option<ContainerMeta>)
        requires
            self.wf(),
        ensures
            match r {
                Some(m) => self.index().1.contains_key(name@) && m@ == self.index().0[self.index().1[name@]],
                None => !self.index().1.contains_key(name@),
            },
    {
        match name_map_get(&self.by_name, name) {
            Some(id) => meta_map_get(&self.by_id, &id),
            None => None,
        }
    }

    /// Every record, each once, in no particular order.
    pub fn get_all_metas(&self) -> (r: Vec<ContainerMeta>)
        requires
            self.wf(),
        ensures
            r@.len() == self.index().0.dom().len(),
            forall|i: int| 0 <= i < r@.len() ==> self.index().0.contains_key(#[trigger] r@[i].id@)
                && r@[i]@ == self.index().0[r@[i].id@],
            forall|i: int, j: int| 0 <= i < j < r@.len() ==> #[trigger] r@[i].id@ != #[trigger] r@[j].id@,
    {
        let entries = meta_map_entries(&self.by_id);
        let ghost src = entries@;
        let mut out: Vec<ContainerMeta> = Vec::new();
        let mut rest = entries;
        let ghost mut k: int = 0;
        while rest.len() > 0
            invariant
                0 <= k <= src.len(),
                rest@ == src.subrange(k, src.len() as int),
                out@.len() == k,
                forall|i: int| 0 <= i < k ==> out@[i]@ == (#[trigger] src[i]).1@ && out@[i].id@ == src[i].0@,
                self.wf(),
                src.len() == self.index().0.dom().len(),
                forall|i: int| 0 <= i < src.len() ==> self.index().0.contains_key(#[trigger] src[i].0@)
                    && src[i].1@ == self.index().0[src[i].0@],
                forall|i: int, j: int| 0 <= i < j < src.len() ==> #[trigger] src[i].0@ != #[trigger] src[j].0@,
            decreases rest@.len(),
        {
            let (key, meta) = rest.remove(0);
            assert((key, meta) == src[k]);
            proof {
                assert(self.index().0.contains_key(key@));
                assert(self.index().0[key@].id == key@);
            }
            out.push(meta);
            proof {
                k = k + 1;
            }
            assert(rest@ == src.subrange(k, src.len() as int));
        }
        assert forall|i: int| 0 <= i < out@.len() implies self.index().0.contains_key(#[trigger] out@[i].id@)
            && out@[i]@ == self.index().0[out@[i].id@] by {
            assert(out@[i].id@ == src[i].0@);
        }
        assert forall|i: int, j: int| 0 <= i < j < out@.len() implies #[trigger] out@[i].id@ != #[trigger] out@[j].id@ by {
            assert(out@[i].id@ == src[i].0@);
            assert(out@[j].id@ == src[j].0@);
        }
        out
    }

    /// The records in this status.
    pub fn get_containers_by_status(&self, status: ContainerStatus) -> (r: Vec<ContainerMeta>)
        requires
            self.wf(),
        ensures
            forall|i: int| 0 <= i < r@.len() ==> self.index().0.contains_key(#[trigger] r@[i].id@)
                && r@[i]@ == self.index().0[r@[i].id@] && r@[i].state.status == status,
            forall|id: Seq<char>| #[trigger] self.index().0.contains_key(id) && self.index().0[id].state.status
                == status ==> exists|i: int| 0 <= i < r@.len() && r@[i].id@ == id,
    {
        let f = ContainerFilter::by_status(status);
        let r = self.list_containers(&f);
        proof {
            assert forall|i: int| 0 <= i < r@.len() implies (#[trigger] r@[i]).state.status == status by {
                assert(filter_matches(f, r@[i]@));
            }
            assert forall|id: Seq<char>| #[trigger] self.index().0.contains_key(id) && self.index().0[id].state.status
                == status implies filter_matches(f, self.index().0[id]) by {}
        }
        r
    }

    /// The records that carry this label with this value.
    pub fn get_containers_by_label(&self, key: &str, value: &str) -> (r: Vec<ContainerMeta>)
        requires
            self.wf(),
        ensures
            forall|i: int| 0 <= i < r@.len() ==> self.index().0.contains_key(#[trigger] r@[i].id@)
                && r@[i]@ == self.index().0[r@[i].id@] && crate::metas::filter::lookup(r@[i].labels@, key@)
                == Some(value@),
            forall|id: Seq<char>| #[trigger] self.index().0.contains_key(id) && crate::metas::filter::lookup(
                self.index().0[id].labels,
                key@,
            ) == Some(value@) ==> exists|i: int| 0 <= i < r@.len() && r@[i].id@ == id,
    {
        let f = ContainerFilter::by_label(key, value);
        let r = self.list_containers(&f);
        proof {
            assert forall|i: int| 0 <= i < r@.len() implies crate::metas::filter::lookup(#[trigger] r@[i].labels@, key@)
                == Some(value@) by {
                assert(filter_matches(f, r@[i]@));
                assert(f.labels@[0].0@ == key@);
            }
            assert forall|id: Seq<char>| #[trigger] self.index().0.contains_key(id) && crate::metas::filter::lookup(
                self.index().0[id].labels,
                key@,
            ) == Some(value@) implies filter_matches(f, self.index().0[id]) by {}
        }
        r
    }

    /// Applies an operation, stamping the records it updates with the time now.
    pub fn apply_operation(&mut self, op: StorageOperation) -> (r: Result<(), RTError>)
        requires
            old(self).wf(),
        ensures
            exists|now: u64| (final(self).index(), r is Ok) == apply_op(old(self).index(), op, now),
            final(self).wf(),
    {
        let now = current_time();
        self.apply_operation_at(op, now)
    }

    /// The first half of a commit: applies the operation at `now` and keeps
    /// what is needed to undo it. Where the operation fails, the index is as
    /// it was and there is nothing to log.
    pub fn stage(&mut self, op: StorageOperation, now: u64) -> (r: Result<Staged, RTError>)
        requires
            old(self).wf(),
        ensures
            (final(self).index(), r is Ok) == apply_op(old(self).index(), op, now),
            final(self).wf(),
            r matches Ok(st) ==> st.valid() && st.before() == old(self).index(),
    {
        let saved = self.get_all_metas();
        let ghost before = self.index();
        match self.apply_operation_at(op, now) {
            Ok(()) => Ok(Staged { saved, before: Ghost(before) }),
            Err(e) => Err(e),
        }
    }

    /// The second half of a commit, once the log write of a staged operation
    /// ended with `logged`: the change stays only where the log holds it;
    /// where the write failed, the index goes back to what it was before the
    /// operation. Memory never reflects an operation that the log lacks.
    pub fn settle(&mut self, staged: Staged, logged: Result<(), String>) -> (r: Result<(), RTError>)
        requires
            old(self).wf(),
            staged.valid(),
        ensures
            logged is Ok ==> final(self).index() == old(self).index() && r is Ok,
            logged is Err ==> final(self).index() == staged.before() && r is Err,
            final(self).wf(),
    {
        match logged {
            Ok(()) => Ok(()),
            Err(e) => {
                let Staged { saved, before } = staged;
                self.restore(saved, before);
                Err(RTError::storage_error("failed to write the log", Some(e)))
            },
        }
    }

    /// The index that a snapshot's records rebuild, created one by one.
    pub fn from_records(records: Vec<ContainerMeta>) -> (r: Result<InnerState, RTError>)
        ensures
            r matches Ok(s) ==> s.wf() && (s.index(), true) == apply_log(
                (Map::empty(), Map::empty()),
                creations(records@),
                0,
            ),
            r is Err ==> !apply_log((Map::empty(), Map::empty()), creations(records@), 0).1,
    {
        let ghost list = records@;
        let mut log: Vec<(u64, StorageOperation)> = Vec::new();
        let mut rest = records;
        let ghost mut k: int = 0;
        while rest.len() > 0
            invariant
                0 <= k <= list.len(),
                rest@ == list.subrange(k, list.len() as int),
                log@ == creations(list.subrange(0, k)),
            decreases rest@.len(),
        {
            let m = rest.remove(0);
            assert(m == list[k]);
            log.push((0, StorageOperation::Create(m)));
            proof {
                k = k + 1;
            }
            assert(rest@ == list.subrange(k, list.len() as int));
            assert(log@ =~= creations(list.subrange(0, k)));
        }
        assert(list.subrange(0, list.len() as int) == list);
        let mut state = InnerState::new();
        assert(state.index() == (Map::<Seq<char>, MetaView>::empty(), Map::<Seq<char>, Seq<char>>::empty()));
        match state.replay(log) {
            Ok(()) => Ok(state),
            Err(e) => Err(e),
        }
    }

    /// Replays a log in order, each operation at the time it was logged,
    /// stopping at the first that fails.
    pub fn replay(&mut self, log: Vec<(u64, StorageOperation)>) -> (r: Result<(), RTError>)
        requires
            old(self).wf(),
        ensures
            (final(self).index(), r is Ok) == apply_log(old(self).index(), log@, 0),
            final(self).wf(),
    {
        let ghost all = log@;
        let ghost start = self.index();
        let mut rest = log;
        let ghost mut k: int = 0;
        while rest.len() > 0
            invariant
                0 <= k <= all.len(),
                rest@ == all.subrange(k, all.len() as int),
                start == old(self).index(),
                all == log@,
                apply_log(start, all, 0) == apply_log(self.index(), all, k),
                self.wf(),
            decreases rest@.len(),
        {
            let (now, child) = rest.remove(0);
            assert((now, child) == all[k]);
            let ghost before = self.index();
            match self.apply_operation_at(child, now) {
                Ok(()) => {},
                Err(e) => {
                    assert(apply_log(before, all, k) == apply_op(before, child, now));
                    return Err(e);
                },
            }
            proof {
                k = k + 1;
            }
            assert(rest@ == all.subrange(k, all.len() as int));
        }
        Ok(())
    }

    /// The records that the filter matches, at most `limit` of them.
    pub fn list_containers(&self, filter: &ContainerFilter) -> (r: Vec<ContainerMeta>)
        requires
            self.wf(),
        ensures
            forall|i: int| 0 <= i < r@.len() ==> self.index().0.contains_key(#[trigger] r@[i].id@)
                && r@[i]@ == self.index().0[r@[i].id@] && filter_matches(*filter, r@[i]@),
            forall|i: int, j: int| 0 <= i < j < r@.len() ==> #[trigger] r@[i].id@ != #[trigger] r@[j].id@,
            filter.limit matches Some(l) ==> r@.len() <= l,
            (filter.limit matches Some(l) ==> r@.len() < l) ==> forall|id: Seq<char>|
                #[trigger] self.index().0.contains_key(id) && filter_matches(*filter, self.index().0[id])
                    ==> exists|i: int| 0 <= i < r@.len() && r@[i].id@ == id,
    {
        let all = self.get_all_metas();
        let ghost src = all@;
        proof {
            assert forall|id: Seq<char>| #[trigger] self.index().0.contains_key(id) implies exists|i: int|
                0 <= i < src.len() && src[i].id@ == id by {
                lemma_listed(self.index().0, src, id);
            }
        }
        let mut out: Vec<ContainerMeta> = Vec::new();
        let mut rest = all;
        let ghost mut k: int = 0;
        while rest.len() > 0
            invariant
                0 <= k <= src.len(),
                rest@ == src.subrange(k, src.len() as int),
                forall|i: int| 0 <= i < src.len() ==> self.index().0.contains_key(#[trigger] src[i].id@)
                    && src[i]@ == self.index().0[src[i].id@],
                forall|i: int, j: int| 0 <= i < j < src.len() ==> #[trigger] src[i].id@ != #[trigger] src[j].id@,
                forall|i: int| 0 <= i < out@.len() ==> exists|j: int| 0 <= j < k && (#[trigger] out@[i]) == src[j],
                forall|i: int| 0 <= i < out@.len() ==> filter_matches(*filter, (#[trigger] out@[i])@),
                forall|i: int, j: int| 0 <= i < j < out@.len() ==> #[trigger] out@[i].id@ != #[trigger] out@[j].id@,
                filter.limit matches Some(l) ==> out@.len() <= l,
                (filter.limit matches Some(l) ==> out@.len() < l) ==> forall|j: int|
                    0 <= j < k && filter_matches(*filter, (#[trigger] src[j])@) ==> exists|i: int|
                        0 <= i < out@.len() && out@[i].id@ == src[j].id@,
            decreases rest@.len(),
        {
            if let Some(l) = filter.limit {
                if out.len() >= l {
                    return out;
                }
            }
            let meta = rest.remove(0);
            assert(meta == src[k]);
            if filter.matches(&meta) {
                proof {
                    assert forall|i: int| 0 <= i < out@.len() implies #[trigger] out@[i].id@ != meta.id@ by {
                        let j = choose|j: int| 0 <= j < k && out@[i] == src[j];
                    }
                }
                let ghost before = out@;
                out.push(meta);
                proof {
                    assert forall|i: int| 0 <= i < out@.len() implies exists|j: int| 0 <= j < k + 1 && (#[trigger] out@[i]) == src[j] by {
                        if i < before.len() {
                            let j = choose|j: int| 0 <= j < k && before[i] == src[j];
                            assert(out@[i] == src[j]);
                        } else {
                            assert(out@[i] == src[k]);
                        }
                    }
                    assert forall|j: int| 0 <= j < k + 1 && filter_matches(*filter, (#[trigger] src[j])@) implies exists|i: int|
                        0 <= i < out@.len() && out@[i].id@ == src[j].id@ by {
                        if j < k {
                            let i = choose|i: int| 0 <= i < before.len() && before[i].id@ == src[j].id@;
                            assert(out@[i] == before[i]);
                        } else {
                            assert(out@[before.len() as int] == src[k]);
                        }
                    }
                }
            }
            proof {
                k = k + 1;
            }
            assert(rest@ == src.subrange(k, src.len() as int));
        }
        proof {
            assert forall|i: int| 0 <= i < out@.len() implies self.index().0.contains_key(#[trigger] out@[i].id@)
                && out@[i]@ == self.index().0[out@[i].id@] by {
                let j = choose|j: int| 0 <= j < k && out@[i] == src[j];
            }
            assert forall|id: Seq<char>| #[trigger] self.index().0.contains_key(id) && filter_matches(*filter, self.index().0[id])
                && (filter.limit matches Some(l) ==> out@.len() < l) implies exists|i: int| 0 <= i < out@.len() && out@[i].id@ == id by {
                let j = choose|j: int| 0 <= j < src.len() && src[j].id@ == id;
                assert(filter_matches(*filter, src[j]@));
            }
        }
        out
    }

    /// Applies an operation at time `now`: see `apply_op`.
    pub fn apply_operation_at(&mut self, op: StorageOperation, now: u64) -> (r: Result<(), RTError>)
        requires
            old(self).wf(),
        ensures
            (final(self).index(), r is Ok) == apply_op(old(self).index(), op, now),
            final(self).wf(),
        decreases op, 2int,
    {
        proof {
            lemma_apply_keeps_consistent(old(self).index(), op, now);
        }
        let is_batch = match &op {
            StorageOperation::Batch(_) => true,
            _ => false,
        };
        match op {
            StorageOperation::Create(meta) => {
                if meta_map_contains(&self.by_id, &meta.id) || name_map_contains(&self.by_name, &meta.name) {
                    return Err(RTError::container_error("container already exists", meta.id.as_str()));
                }
                let id = meta.id.clone();
                name_map_insert(&mut self.by_name, meta.name.clone(), meta.id.clone());
                meta_map_insert(&mut self.by_id, id, meta);
                Ok(())
            },
            StorageOperation::Delete(id) => {
                if let Some(meta) = meta_map_remove(&mut self.by_id, &id) {
                    name_map_remove(&mut self.by_name, &meta.name);
                }
                Ok(())
            },
            _ => {
                if is_batch {
                    self.apply_batch(op, now)
                } else {
                    self.apply_update(op, now)
                }
            },
        }
    }

    fn apply_update(&mut self, op: StorageOperation, now: u64) -> (r: Result<(), RTError>)
        requires
            !(op is Create || op is Delete || op is Batch),
        ensures
            (final(self).index(), r is Ok) == apply_op(old(self).index(), op, now),
    {
        let ghost op0 = op;
        match op {
            StorageOperation::UpdateStatus { id, status } => {
                if let Some(mut meta) = meta_map_remove(&mut self.by_id, &id) {
                    if !meta.state.status.can_move_to(status) {
                        let ghost v = meta@;
                        meta_map_insert(&mut self.by_id, id, meta);
                        proof { lemma_remove_reinsert(meta_entries(old(self).by_id), id@, v); }
                        return Err(RTError::container_error("status change not allowed", ""));
                    }
                    meta.state.status = status;
                    meta.updated_at = now;
                    meta_map_insert(&mut self.by_id, id, meta);
                    proof { lemma_remove_insert(meta_entries(old(self).by_id), id@, meta@); }
                }
                Ok(())
            },
            StorageOperation::UpdateState { id, state } => {
                if let Some(mut meta) = meta_map_remove(&mut self.by_id, &id) {
                    if !meta.state.status.can_move_to(state.status) {
                        let ghost v = meta@;
                        meta_map_insert(&mut self.by_id, id, meta);
                        proof { lemma_remove_reinsert(meta_entries(old(self).by_id), id@, v); }
                        return Err(RTError::container_error("status change not allowed", ""));
                    }
                    meta.state = state;
                    meta.updated_at = now;
                    meta_map_insert(&mut self.by_id, id, meta);
                    proof { lemma_remove_insert(meta_entries(old(self).by_id), id@, meta@); }
                }
                Ok(())
            },
            StorageOperation::UpdateEnvironment { id, env } => {
                if let Some(mut meta) = meta_map_remove(&mut self.by_id, &id) {
                    meta.env = env;
                    meta.updated_at = now;
                    meta_map_insert(&mut self.by_id, id, meta);
                    proof { lemma_remove_insert(meta_entries(old(self).by_id), id@, meta@); }
                }
                Ok(())
            },
            StorageOperation::UpdateLabels { id, labels } => {
                if let Some(mut meta) = meta_map_remove(&mut self.by_id, &id) {
                    meta.labels = labels;
                    meta.updated_at = now;
                    meta_map_insert(&mut self.by_id, id, meta);
                    proof { lemma_remove_insert(meta_entries(old(self).by_id), id@, meta@); }
                }
                Ok(())
            },
            StorageOperation::UpdateResources { id, resources } => {
                if let Some(mut meta) = meta_map_remove(&mut self.by_id, &id) {
                    meta.resources = resources;
                    meta.updated_at = now;
                    meta_map_insert(&mut self.by_id, id, meta);
                    proof { lemma_remove_insert(meta_entries(old(self).by_id), id@, meta@); }
                }
                Ok(())
            },
            StorageOperation::AttachNetwork { id, network } => {
                if let Some(mut meta) = meta_map_remove(&mut self.by_id, &id) {
                    meta.network = Some(network);
                    meta.updated_at = now;
                    meta_map_insert(&mut self.by_id, id, meta);
                    proof { lemma_remove_insert(meta_entries(old(self).by_id), id@, meta@); }
                }
                Ok(())
            },
            StorageOperation::DetachNetwork { id } => {
                if let Some(mut meta) = meta_map_remove(&mut self.by_id, &id) {
                    meta.network = None;
                    meta.updated_at = now;
                    meta_map_insert(&mut self.by_id, id, meta);
                    proof { lemma_remove_insert(meta_entries(old(self).by_id), id@, meta@); }
                }
                Ok(())
            },
            StorageOperation::AddMount { id, mount } => {
                if let Some(mut meta) = meta_map_remove(&mut self.by_id, &id) {
                    meta.mounts.push(mount);
                    meta.updated_at = now;
                    meta_map_insert(&mut self.by_id, id, meta);
                    proof { lemma_remove_insert(meta_entries(old(self).by_id), id@, meta@); }
                }
                Ok(())
            },
            StorageOperation::RemoveMount { id, destination } => {
                if let Some(mut meta) = meta_map_remove(&mut self.by_id, &id) {
                    let mounts = meta.mounts;
                    meta.mounts = without_destination(mounts, &destination);
                    meta.updated_at = now;
                    meta_map_insert(&mut self.by_id, id, meta);
                    proof { lemma_remove_insert(meta_entries(old(self).by_id), id@, meta@); }
                }
                Ok(())
            },
            _ => Ok(()),
        }
    }

    /// Puts back the index that `saved` lists.
    fn restore(&mut self, saved: Vec<ContainerMeta>, Ghost(target): Ghost<Index>)
        requires
            index_consistent(target),
            saved@.len() == target.0.dom().len(),
            forall|i: int| 0 <= i < saved@.len() ==> target.0.contains_key(#[trigger] saved@[i].id@)
                && saved@[i]@ == target.0[saved@[i].id@],
            forall|i: int, j: int| 0 <= i < j < saved@.len() ==> #[trigger] saved@[i].id@ != #[trigger] saved@[j].id@,
        ensures
            final(self).index() == target,
            final(self).wf(),
    {
        proof {
            lemma_snapshot_reload(target, saved@);
        }
        let ghost list = saved@;
        let mut by_id = new_meta_map();
        let mut by_name = new_name_map();
        let mut rest = saved;
        let ghost mut k: int = 0;
        assert(list.subrange(0, 0) =~= Seq::<ContainerMeta>::empty());
        assert(meta_entries(by_id) =~= Map::<Seq<char>, MetaView>::empty());
        assert(name_entries(by_name) =~= Map::<Seq<char>, Seq<char>>::empty());
        while rest.len() > 0
            invariant
                0 <= k <= list.len(),
                rest@ == list.subrange(k, list.len() as int),
                (meta_entries(by_id), name_entries(by_name)) == index_of(list.subrange(0, k)),
            decreases rest@.len(),
        {
            let m = rest.remove(0);
            assert(m == list[k]);
            assert(list.subrange(0, k + 1).drop_last() == list.subrange(0, k));
            name_map_insert(&mut by_name, m.name.clone(), m.id.clone());
            meta_map_insert(&mut by_id, m.id.clone(), m);
            proof {
                k = k + 1;
            }
            assert(rest@ == list.subrange(k, list.len() as int));
        }
        assert(list.subrange(0, list.len() as int) == list);
        self.by_id = by_id;
        self.by_name = by_name;
    }

    fn apply_batch(&mut self, op: StorageOperation, now: u64) -> (r: Result<(), RTError>)
        requires
            op is Batch,
            old(self).wf(),
        ensures
            (final(self).index(), r is Ok) == apply_op(old(self).index(), op, now),
            final(self).wf(),
        decreases op, 1int,
    {
        let ghost op0 = op;
        proof {
            lemma_apply_keeps_consistent(old(self).index(), op, now);
        }
        match op {
            StorageOperation::Batch(ops) => {
                let ghost all = ops@;
                let ghost start = self.index();
                let saved = self.get_all_metas();
                let mut rest = ops;
                let ghost mut k: int = 0;
                while rest.len() > 0
                    invariant
                        0 <= k <= all.len(),
                        rest@ == all.subrange(k as int, all.len() as int),
                        op0 == StorageOperation::Batch(ops),
                        op0 == op,
                        all == ops@,
                        start == old(self).index(),
                        apply_ops(start, all, 0, now) == apply_ops(self.index(), all, k as int, now),
                        self.wf(),
                        index_consistent(start),
                        saved@.len() == start.0.dom().len(),
                        forall|i: int| 0 <= i < saved@.len() ==> start.0.contains_key(#[trigger] saved@[i].id@)
                            && saved@[i]@ == start.0[saved@[i].id@],
                        forall|i: int, j: int| 0 <= i < j < saved@.len() ==> #[trigger] saved@[i].id@ != #[trigger] saved@[j].id@,
                    decreases rest@.len(),
                {
                    let child = rest.remove(0);
                    assert(child == all[k as int]);
                    proof {
                        assert(ops == op0->Batch_0);
                        assert(decreases_to!(op0 => op0->Batch_0));
                        assert(decreases_to!(ops => ops@));
                        assert(decreases_to!(ops@ => ops@[k as int]));
                        assert(decreases_to!(op0 => child));
                    }
                    let ghost before = self.index();
                    match self.apply_operation_at(child, now) {
                        Ok(()) => {},
                        Err(e) => {
                            assert(apply_ops(before, all, k as int, now) == apply_op(before, child, now));
                            self.restore(saved, Ghost(start));
                            return Err(e);
                        },
                    }
                    proof {
                        k = k + 1;
                    }
                    assert(rest@ == all.subrange(k as int, all.len() as int));
                }
                Ok(())
            },
            _ => Ok(()),
        }
    }
}

} // verus!
