//! Queries over container records.
use crate::metas::meta::{current_time, ContainerMeta, ContainerStatus, MetaView};
use vstd::prelude::*;
use vstd::string::{StrSliceExecFns, StringExecFns};

verus! {

/// A conjunction of conditions on a record; `limit` caps how many of the
/// records that match a listing returns.
#[derive(Debug)]
pub struct ContainerFilter {
    pub status: Option<ContainerStatus>,
    /// Labels that a record must carry with these values.
    pub labels: Vec<(String, String)>,
    /// Text that the record's name must contain.
    pub name_pattern: Option<String>,
    /// Earliest creation time accepted.
    pub since: Option<u64>,
    /// Latest creation time accepted.
    pub until: Option<u64>,
    pub limit: Option<usize>,
}

/// The value of the first entry of `kv` under key `k`.
pub open spec fn lookup(kv: Seq<(String, String)>, k: Seq<char>) -> Option<Seq<char>>
    decreases kv.len(),
{
    if kv.len() == 0 {
        None
    } else if kv[0].0@ == k {
        Some(kv[0].1@)
    } else {
        lookup(kv.drop_first(), k)
    }
}

/// `s` holds `p` at some position.
pub open spec fn contains_text(s: Seq<char>, p: Seq<char>) -> bool {
    exists|i: int| 0 <= i <= s.len() - p.len() && #[trigger] s.subrange(i, i + p.len()) == p
}

/// Every label that the filter asks for is on the record with that value.
pub open spec fn labels_match(want: Seq<(String, String)>, have: Seq<(String, String)>) -> bool {
    forall|i: int| 0 <= i < want.len() ==> lookup(have, #[trigger] want[i].0@) == Some(want[i].1@)
}

pub open spec fn filter_matches(f: ContainerFilter, m: MetaView) -> bool {
    &&& (f.status matches Some(st) ==> m.state.status == st)
    &&& labels_match(f.labels@, m.labels)
    &&& (f.name_pattern matches Some(p) ==> contains_text(m.name, p@))
    &&& (f.since matches Some(t) ==> m.created_at >= t)
    &&& (f.until matches Some(t) ==> m.created_at <= t)
}

impl Default for ContainerFilter {
    fn default() -> (r: Self)
        ensures
            r.status is None && r.labels@.len() == 0 && r.name_pattern is None,
            r.since is None && r.until is None && r.limit is None,
    {
        ContainerFilter {
            status: None,
            labels: Vec::new(),
            name_pattern: None,
            since: None,
            until: None,
            limit: None,
        }
    }
}

/// The value under `key` in `kv`, as `lookup` gives it.
pub fn lookup_value<'a>(kv: &'a Vec<(String, String)>, key: &String) -> (r: Option<&'a String>)
    ensures
        match r {
            Some(v) => lookup(kv@, key@) == Some(v@),
            None => lookup(kv@, key@) is None,
        },
{
    let mut i: usize = 0;
    assert(kv@.subrange(0, kv@.len() as int) == kv@);
    while i < kv.len()
        invariant
            i <= kv@.len(),
            lookup(kv@, key@) == lookup(kv@.subrange(i as int, kv@.len() as int), key@),
        decreases kv@.len() - i,
    {
        let ghost rest = kv@.subrange(i as int, kv@.len() as int);
        assert(rest.drop_first() == kv@.subrange(i + 1, kv@.len() as int));
        if kv[i].0 == *key {
            return Some(&kv[i].1);
        }
        i = i + 1;
    }
    None
}

/// Whether `s` holds `p` at some position.
pub fn text_contains(s: &str, p: &str) -> (r: bool)
    ensures
        r == contains_text(s@, p@),
{
    let n = s.unicode_len();
    let m = p.unicode_len();
    if m > n {
        assert forall|i: int| 0 <= i <= s@.len() - p@.len() implies #[trigger] s@.subrange(i, i + p@.len()) != p@ by {}
        return false;
    }
    let mut i: usize = 0;
    while i <= n - m
        invariant
            m <= n,
            n == s@.len(),
            m == p@.len(),
            forall|k: int| 0 <= k < i ==> #[trigger] s@.subrange(k, k + m) != p@,
        decreases n - m + 1 - i,
    {
        let mut j: usize = 0;
        while j < m && s.get_char(i + j) == p.get_char(j)
            invariant
                i <= n - m,
                j <= m,
                m <= n,
                n == s@.len(),
                m == p@.len(),
                forall|t: int| 0 <= t < j ==> s@[i + t] == p@[t],
            decreases m - j,
        {
            j = j + 1;
        }
        if j == m {
            assert(s@.subrange(i as int, i + m) == p@);
            return true;
        }
        assert(s@.subrange(i as int, i + m)[j as int] != p@[j as int]);
        i = i + 1;
    }
    false
}

impl ContainerFilter {
    /// Whether a record meets every condition of the filter.
    pub fn matches(&self, meta: &ContainerMeta) -> (r: bool)
        ensures
            r == filter_matches(*self, meta@),
    {
        if let Some(status) = &self.status {
            if meta.state.status != *status {
                return false;
            }
        }
        let mut i: usize = 0;
        while i < self.labels.len()
            invariant
                i <= self.labels@.len(),
                forall|k: int| 0 <= k < i ==> lookup(meta.labels@, #[trigger] self.labels@[k].0@)
                    == Some(self.labels@[k].1@),
            decreases self.labels@.len() - i,
        {
            match lookup_value(&meta.labels, &self.labels[i].0) {
                Some(v) => {
                    if *v != self.labels[i].1 {
                        return false;
                    }
                },
                None => {
                    return false;
                },
            }
            i = i + 1;
        }
        if let Some(pattern) = &self.name_pattern {
            if !text_contains(meta.name.as_str(), pattern.as_str()) {
                return false;
            }
        }
        if let Some(since) = self.since {
            if meta.created_at < since {
                return false;
            }
        }
        if let Some(until) = self.until {
            if meta.created_at > until {
                return false;
            }
        }
        true
    }

    /// A filter on the status alone.
    pub fn by_status(status: ContainerStatus) -> (r: Self)
        ensures
            r.status == Some(status) && r.labels@.len() == 0 && r.name_pattern is None,
            r.since is None && r.until is None && r.limit is None,
    {
        ContainerFilter {
            status: Some(status),
            labels: Vec::new(),
            name_pattern: None,
            since: None,
            until: None,
            limit: None,
        }
    }

    /// A filter on one label alone.
    pub fn by_label(key: &str, value: &str) -> (r: Self)
        ensures
            r.labels@.len() == 1 && r.labels@[0].0@ == key@ && r.labels@[0].1@ == value@,
            r.status is None && r.name_pattern is None,
            r.since is None && r.until is None && r.limit is None,
    {
        let mut labels: Vec<(String, String)> = Vec::new();
        labels.push((String::from_str(key), String::from_str(value)));
        ContainerFilter {
            status: None,
            labels,
            name_pattern: None,
            since: None,
            until: None,
            limit: None,
        }
    }

    /// A filter on records created within `hours` hours before `now`.
    pub fn recent_at(hours: u64, now: u64) -> (r: Self)
        ensures
            r.since == Some(
                if now >= hours * 3600 {
                    (now - hours * 3600) as u64
                } else {
                    0u64
                },
            ),
            r.status is None && r.labels@.len() == 0 && r.name_pattern is None,
            r.until is None && r.limit is None,
    {
        let since = if hours <= now / 3600 {
            now - hours * 3600
        } else {
            0
        };
        ContainerFilter {
            status: None,
            labels: Vec::new(),
            name_pattern: None,
            since: Some(since),
            until: None,
            limit: None,
        }
    }

    /// A filter on records created within the last `hours` hours.
    pub fn recent(hours: u64) -> (r: Self)
        ensures
            r.since is Some,
            r.status is None && r.labels@.len() == 0 && r.name_pattern is None,
            r.until is None && r.limit is None,
    {
        Self::recent_at(hours, current_time())
    }
}

} // verus!
