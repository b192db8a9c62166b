//! The component HTML cache: the last-rendered HTML per component id, with a
//! bounded size (the oldest entry is evicted) and staleness cleanup. The
//! entries live in a concurrent map of an outside crate, held to contracts
//! over its abstract contents.
use vstd::prelude::*;
use vstd::string::*;
use crate::types::{CacheStats, CachedComponent};

verus! {

#[verifier::external_type_specification]
#[verifier::external_body]
#[verifier::reject_recursive_types(K)]
#[verifier::reject_recursive_types(V)]
#[verifier::reject_recursive_types(S)]
pub struct ExDashMap<K, V, S>(dashmap::DashMap<K, V, S>);

/// A cache entry: the HTML and the last-updated timestamp in milliseconds.
pub type CacheEntry = (String, u64);

/// What a cache map holds: for each component id, the cached HTML and the
/// last-updated timestamp in milliseconds.
pub uninterp spec fn cache_contents(m: dashmap::DashMap<String, CacheEntry>) -> Map<
    Seq<char>,
    (Seq<char>, u64),
>;

/// Relies on dashmap::DashMap::new. Nothing is assumed of the fresh map's
/// abstract contents; the constructor empties it explicitly.
#[verifier::external_body]
fn dm_new() -> dashmap::DashMap<String, CacheEntry> {
    dashmap::DashMap::new()
}

/// Relies on dashmap::DashMap::insert: binds the key to the value, replacing
/// any earlier binding.
#[verifier::external_body]
fn dm_insert(m: &mut dashmap::DashMap<String, CacheEntry>, k: &str, v: CacheEntry)
    ensures
        cache_contents(*final(m)) == cache_contents(*old(m)).insert(k@, (v.0@, v.1)),
{
    let _ = m.insert(k.to_string(), v);
}

/// Relies on dashmap::DashMap::get: yields the bound value exactly when the
/// key is bound.
#[verifier::external_body]
fn dm_get(m: &dashmap::DashMap<String, CacheEntry>, k: &str) -> (r: Option<CacheEntry>)
    ensures
        match r {
            Some(v) => cache_contents(*m).contains_key(k@) && cache_contents(*m)[k@] == (
                v.0@,
                v.1,
            ),
            None => !cache_contents(*m).contains_key(k@),
        },
{
    m.get(k).map(|e| e.value().clone())
}

/// Relies on dashmap::DashMap::contains_key.
#[verifier::external_body]
fn dm_contains(m: &dashmap::DashMap<String, CacheEntry>, k: &str) -> (r: bool)
    ensures
        r == cache_contents(*m).contains_key(k@),
{
    m.contains_key(k)
}

/// Relies on dashmap::DashMap::remove: unbinds the key, yielding the value
/// that was bound.
#[verifier::external_body]
fn dm_remove(m: &mut dashmap::DashMap<String, CacheEntry>, k: &str) -> (r: Option<CacheEntry>)
    ensures
        cache_contents(*final(m)) == cache_contents(*old(m)).remove(k@),
        match r {
            Some(v) => cache_contents(*old(m)).contains_key(k@) && cache_contents(*old(m))[k@] == (
                v.0@,
                v.1,
            ),
            None => !cache_contents(*old(m)).contains_key(k@),
        },
{
    m.remove(k).map(|(_, v)| v)
}

/// Relies on dashmap::DashMap::len: the number of bound keys.
#[verifier::external_body]
fn dm_len(m: &dashmap::DashMap<String, CacheEntry>) -> (n: usize)
    ensures
        n == cache_contents(*m).dom().len(),
{
    m.len()
}

/// Relies on dashmap::DashMap::clear: unbinds everything.
#[verifier::external_body]
fn dm_clear(m: &mut dashmap::DashMap<String, CacheEntry>)
    ensures
        cache_contents(*final(m)) == cache_contents(*old(m)).remove_keys(
            cache_contents(*old(m)).dom(),
        ),
{
    m.clear()
}

/// Relies on dashmap::DashMap::iter: walks every entry exactly once, in no
/// particular order.
#[verifier::external_body]
fn dm_entries(m: &dashmap::DashMap<String, CacheEntry>) -> (r: Vec<(String, String, u64)>)
    ensures
        r@.len() == cache_contents(*m).dom().len(),
        forall|i: int|
            0 <= i < r@.len() ==> cache_contents(*m).contains_key((#[trigger] r@[i]).0@)
                && cache_contents(*m)[r@[i].0@] == (r@[i].1@, r@[i].2),
        forall|k: Seq<char>| #[trigger]
            cache_contents(*m).contains_key(k) ==> exists|i: int|
                0 <= i < r@.len() && (#[trigger] r@[i]).0@ == k,
        forall|i: int, j: int|
            0 <= i < j < r@.len() ==> (#[trigger] r@[i]).0@ != (#[trigger] r@[j]).0@,
{
    m.iter().map(|e| (e.key().clone(), e.value().0.clone(), e.value().1)).collect()
}

/// Relies on std::time::SystemTime::now and duration_since(UNIX_EPOCH): the
/// current wall-clock time in milliseconds, truncated to 64 bits; zero when
/// the clock reads before the epoch.
#[verifier::external_body]
pub fn now_millis() -> u64 {
    std::time::SystemTime::now()
        .duration_since(std::time::UNIX_EPOCH)
        .unwrap_or_default()
        .as_millis() as u64
}

/// An entry is stale at `now` when more than `max_age_ms` milliseconds have
/// passed since its timestamp.
pub open spec fn is_stale(ts: u64, now: u64, max_age_ms: u64) -> bool {
    now - ts > max_age_ms
}

/// The entries of `m` that are not stale at `now`.
pub open spec fn fresh_only(
    m: Map<Seq<char>, (Seq<char>, u64)>,
    now: u64,
    max_age_ms: u64,
) -> Map<Seq<char>, (Seq<char>, u64)> {
    m.restrict(m.dom().filter(|k: Seq<char>| !is_stale(m[k].1, now, max_age_ms)))
}

/// What one store-and-evict step does: the new entry is bound; when the map
/// then exceeds the bound, exactly one entry with a minimal timestamp leaves.
pub open spec fn set_html_effect(
    pre: Map<Seq<char>, (Seq<char>, u64)>,
    max: int,
    post: Map<Seq<char>, (Seq<char>, u64)>,
    id: Seq<char>,
    html: Seq<char>,
    ts: u64,
) -> bool {
    let inserted = pre.insert(id, (html, ts));
    if inserted.dom().len() <= max {
        post == inserted
    } else {
        exists|k: Seq<char>|
            #[trigger] inserted.contains_key(k) && (forall|k2: Seq<char>| #[trigger]
                inserted.contains_key(k2) ==> inserted[k].1 <= inserted[k2].1) && post
                == inserted.remove(k)
    }
}

/// What restamping does: a bound id keeps its HTML under a new timestamp;
/// an unbound id changes nothing.
pub open spec fn touch_effect(
    pre: Map<Seq<char>, (Seq<char>, u64)>,
    post: Map<Seq<char>, (Seq<char>, u64)>,
    id: Seq<char>,
    ts: u64,
) -> bool {
    &&& pre.contains_key(id) ==> post == pre.insert(id, (pre[id].0, ts))
    &&& !pre.contains_key(id) ==> post == pre
}

/// The ids of the entries of `m` stale at `now`, each exactly once.
pub open spec fn stale_ids_ok(
    m: Map<Seq<char>, (Seq<char>, u64)>,
    now: u64,
    max_age_ms: u64,
    ids: Seq<Seq<char>>,
) -> bool {
    &&& forall|i: int|
        0 <= i < ids.len() ==> m.contains_key(#[trigger] ids[i]) && is_stale(
            m[ids[i]].1,
            now,
            max_age_ms,
        )
    &&& forall|k: Seq<char>|
        m.contains_key(k) && is_stale(#[trigger] m[k].1, now, max_age_ms) ==> ids.contains(k)
    &&& forall|i: int, j: int| 0 <= i < j < ids.len() ==> (#[trigger] ids[i]) != (#[trigger] ids[j])
}

/// The component HTML cache with built-in eviction.
pub struct ComponentCache {
    html_cache: dashmap::DashMap<String, CacheEntry>,
    max_size: usize,
}

impl ComponentCache {
    /// The abstract contents: id to (html, last-updated).
    pub closed spec fn contents(&self) -> Map<Seq<char>, (Seq<char>, u64)> {
        cache_contents(self.html_cache)
    }

    /// The configured bound.
    pub closed spec fn max(&self) -> int {
        self.max_size as int
    }

    /// The cache never holds more entries than its bound.
    pub open spec fn wf(&self) -> bool {
        self.contents().dom().finite() && self.contents().dom().len() <= self.max()
    }

    pub fn new(max_size: usize) -> (r: Self)
        ensures
            r.wf(),
            r.contents() == Map::<Seq<char>, (Seq<char>, u64)>::empty(),
            r.max() == max_size as int,
    {
        let mut map = dm_new();
        dm_clear(&mut map);
        let r = ComponentCache { html_cache: map, max_size };
        proof {
            assert(r.contents() =~= Map::<Seq<char>, (Seq<char>, u64)>::empty());
            assert(r.contents().dom() =~= Set::<Seq<char>>::empty());
        }
        r
    }

    /// Stores the component's HTML with the given timestamp; when the cache
    /// then exceeds its bound, evicts one entry with a minimal timestamp.
    pub fn set_html_at(&mut self, component_id: &str, html: String, timestamp: u64)
        requires
            old(self).wf(),
        ensures
            final(self).wf(),
            final(self).max() == old(self).max(),
            set_html_effect(
                old(self).contents(),
                old(self).max(),
                final(self).contents(),
                component_id@,
                html@,
                timestamp,
            ),
    {
        let ghost pre = self.contents();
        dm_insert(&mut self.html_cache, component_id, (html, timestamp));
        let n = dm_len(&self.html_cache);
        proof {
            assert(self.contents() == pre.insert(component_id@, (html@, timestamp)));
            assert(self.contents().dom() =~= pre.dom().insert(component_id@));
            if pre.dom().contains(component_id@) {
                assert(self.contents().dom() =~= pre.dom());
            }
        }
        if n > self.max_size {
            self.evict_oldest();
        }
    }

    /// Stores the component's HTML stamped with the current time.
    pub fn set_html(&mut self, component_id: &str, html: String)
        requires
            old(self).wf(),
        ensures
            final(self).wf(),
            final(self).max() == old(self).max(),
            exists|ts: u64|
                set_html_effect(
                    old(self).contents(),
                    old(self).max(),
                    final(self).contents(),
                    component_id@,
                    html@,
                    ts,
                ),
    {
        let ts = now_millis();
        self.set_html_at(component_id, html, ts);
    }

    /// Removes one entry with a minimal timestamp; on an empty cache does
    /// nothing.
    fn evict_oldest(&mut self)
        requires
            old(self).contents().dom().finite(),
        ensures
            final(self).max() == old(self).max(),
            old(self).contents().dom().len() == 0 ==> final(self).contents() == old(
                self,
            ).contents(),
            old(self).contents().dom().len() > 0 ==> exists|k: Seq<char>|
                #[trigger] old(self).contents().contains_key(k) && (forall|k2: Seq<char>|
                    #[trigger] old(self).contents().contains_key(k2) ==> old(self).contents()[k].1
                        <= old(self).contents()[k2].1) && final(self).contents() == old(
                    self,
                ).contents().remove(k),
    {
        let ghost pre = self.contents();
        let entries = dm_entries(&self.html_cache);
        if entries.len() == 0 {
            proof {
                assert(pre.dom().len() == 0);
            }
            return;
        }
        let mut best: usize = 0;
        let mut i: usize = 1;
        while i < entries.len()
            invariant
                entries@.len() > 0,
                best < i <= entries@.len(),
                forall|j: int| 0 <= j < i ==> entries@[best as int].2 <= (#[trigger] entries@[j]).2,
            decreases entries@.len() - i,
        {
            if entries[i].2 < entries[best].2 {
                best = i;
            }
            i = i + 1;
        }
        let key = &entries[best].0;
        proof {
            assert(pre.contains_key(key@));
            assert forall|k2: Seq<char>| #[trigger] pre.contains_key(k2) implies pre[key@].1
                <= pre[k2].1 by {
                let j = choose|j: int| 0 <= j < entries@.len() && (#[trigger] entries@[j]).0@ == k2;
                assert(entries@[best as int].2 <= entries@[j].2);
            }
        }
        let _ = dm_remove(&mut self.html_cache, key.as_str());
    }

    /// The cached HTML of the component, when one is stored.
    pub fn get_html(&self, component_id: &str) -> (r: Option<String>)
        ensures
            match r {
                Some(h) => self.contents().contains_key(component_id@) && h@
                    == self.contents()[component_id@].0,
                None => !self.contents().contains_key(component_id@),
            },
    {
        match dm_get(&self.html_cache, component_id) {
            Some(v) => Some(v.0),
            None => None,
        }
    }

    pub fn has_component(&self, component_id: &str) -> (r: bool)
        ensures
            r == self.contents().contains_key(component_id@),
    {
        dm_contains(&self.html_cache, component_id)
    }

    /// Removes the component's entry, returning it when there was one.
    pub fn remove_component(&mut self, component_id: &str) -> (r: Option<CachedComponent>)
        ensures
            final(self).max() == old(self).max(),
            final(self).contents() == old(self).contents().remove(component_id@),
            match r {
                Some(c) => old(self).contents().contains_key(component_id@) && c.component_id@
                    == component_id@ && c.current_html@ == old(self).contents()[component_id@].0
                    && c.last_updated == old(self).contents()[component_id@].1,
                None => !old(self).contents().contains_key(component_id@),
            },
    {
        match dm_remove(&mut self.html_cache, component_id) {
            Some(v) => Some(
                CachedComponent {
                    component_id: component_id.to_owned(),
                    current_html: v.0,
                    last_updated: v.1,
                },
            ),
            None => None,
        }
    }

    /// The current size and the configured bound.
    pub fn stats(&self) -> (r: CacheStats)
        ensures
            r.size == self.contents().dom().len(),
            r.max_size as int == self.max(),
    {
        CacheStats { size: dm_len(&self.html_cache), max_size: self.max_size }
    }

    /// Removes every entry.
    pub fn clear(&mut self)
        ensures
            final(self).max() == old(self).max(),
            final(self).contents() == Map::<Seq<char>, (Seq<char>, u64)>::empty(),
            final(self).wf(),
    {
        dm_clear(&mut self.html_cache);
        proof {
            assert(self.contents() =~= Map::<Seq<char>, (Seq<char>, u64)>::empty());
            assert(self.contents().dom() =~= Set::<Seq<char>>::empty());
        }
    }

    /// Restamps the component's entry with the given time, keeping its HTML.
    pub fn touch_component_at(&mut self, component_id: &str, timestamp: u64)
        requires
            old(self).wf(),
        ensures
            final(self).wf(),
            final(self).max() == old(self).max(),
            touch_effect(old(self).contents(), final(self).contents(), component_id@, timestamp),
    {
        let ghost pre = self.contents();
        match dm_get(&self.html_cache, component_id) {
            Some(v) => {
                dm_insert(&mut self.html_cache, component_id, (v.0, timestamp));
                proof {
                    assert(self.contents().dom() =~= pre.dom());
                }
            },
            None => {
            },
        }
    }

    /// Restamps the component's entry with the current time.
    pub fn touch_component(&mut self, component_id: &str)
        requires
            old(self).wf(),
        ensures
            final(self).wf(),
            final(self).max() == old(self).max(),
            exists|ts: u64| #[trigger] touch_effect(
                old(self).contents(),
                final(self).contents(),
                component_id@,
                ts,
            ),
    {
        let ts = now_millis();
        self.touch_component_at(component_id, ts);
        proof {
            assert(touch_effect(old(self).contents(), self.contents(), component_id@, ts));
        }
    }

    /// The ids of the entries stale at `now`, each exactly once.
    pub fn get_stale_components_at(&self, now: u64, max_age_ms: u64) -> (r: Vec<String>)
        ensures
            stale_ids_ok(self.contents(), now, max_age_ms, r@.map_values(|t: String| t@)),
    {
        let entries = dm_entries(&self.html_cache);
        let mut out: Vec<String> = Vec::new();
        let mut i: usize = 0;
        while i < entries.len()
            invariant
                forall|j: int|
                    0 <= j < entries@.len() ==> self.contents().contains_key(
                        (#[trigger] entries@[j]).0@,
                    ) && self.contents()[entries@[j].0@] == (entries@[j].1@, entries@[j].2),
                forall|k: Seq<char>| #[trigger]
                    self.contents().contains_key(k) ==> exists|j: int|
                        0 <= j < entries@.len() && (#[trigger] entries@[j]).0@ == k,
                forall|a: int, b: int|
                    0 <= a < b < entries@.len() ==> (#[trigger] entries@[a]).0@ != (
                    #[trigger] entries@[b]).0@,
                i <= entries@.len(),
                forall|m: int|
                    0 <= m < out@.len() ==> self.contents().contains_key((#[trigger] out@[m])@)
                        && is_stale(self.contents()[out@[m]@].1, now, max_age_ms),
                forall|m: int|
                    0 <= m < out@.len() ==> exists|j: int|
                        0 <= j < i && (#[trigger] entries@[j]).0@ == (#[trigger] out@[m])@,
                forall|j: int|
                    0 <= j < i && is_stale((#[trigger] entries@[j]).2, now, max_age_ms)
                        ==> out@.map_values(|t: String| t@).contains(entries@[j].0@),
                forall|a: int, b: int|
                    0 <= a < b < out@.len() ==> (#[trigger] out@[a])@ != (#[trigger] out@[b])@,
            decreases entries@.len() - i,
    {
            let ts = entries[i].2;
            let stale = ts < now && now - ts > max_age_ms;
            assert(stale == is_stale(ts, now, max_age_ms));
            if stale {
                let ghost before = out@;
                let piece = entries[i].0.clone();
                out.push(piece);
                proof {
                    assert(out@[out@.len() - 1]@ == entries@[i as int].0@);
                    assert forall|m: int|
                        0 <= m < out@.len() implies exists|j: int|
                            0 <= j < i + 1 && (#[trigger] entries@[j]).0@ == (
                    #[trigger] out@[m])@ by {
                        if m < out@.len() - 1 {
                            let j = choose|j: int|
                                0 <= j < i && (#[trigger] entries@[j]).0@ == (before[m])@;
                            assert(entries@[j].0@ == out@[m]@);
                        } else {
                            assert(entries@[i as int].0@ == out@[m]@);
                        }
                    }
                    assert forall|a: int, b: int|
                        0 <= a < b < out@.len() implies (#[trigger] out@[a])@ != (
                    #[trigger] out@[b])@ by {
                        if b == out@.len() - 1 {
                            let ja = choose|ja: int|
                                0 <= ja < i && (#[trigger] entries@[ja]).0@ == out@[a]@;
                            assert(entries@[ja].0@ != entries@[i as int].0@);
                        }
                    }
                    assert forall|j: int|
                        0 <= j < i + 1 && is_stale((#[trigger] entries@[j]).2, now, max_age_ms)
                            implies out@.map_values(|t: String| t@).contains(
                        entries@[j].0@,
                    ) by {
                        if j < i {
                            let m = choose|m: int|
                                0 <= m < before.len() && (#[trigger] before[m])@ == entries@[j].0@;
                            assert(out@.map_values(|t: String| t@)[m] == entries@[j].0@);
                        } else {
                            assert(out@.map_values(|t: String| t@)[out@.len() - 1]
                                == entries@[j].0@);
                        }
                    }
                }
            }
            i = i + 1;
        }
        proof {
            assert forall|k: Seq<char>|
                self.contents().contains_key(k) && is_stale(
                    #[trigger] self.contents()[k].1,
                    now,
                    max_age_ms,
                ) implies out@.map_values(|t: String| t@).contains(k) by {
                let j = choose|j: int|
                    0 <= j < entries@.len() && (#[trigger] entries@[j]).0@ == k;
                assert(is_stale(entries@[j].2, now, max_age_ms));
            }
        }
        out
    }

    /// The ids of the entries stale now.
    pub fn get_stale_components(&self, max_age_ms: u64) -> (r: Vec<String>)
        ensures
            ({
                let ids = r@.map_values(|t: String| t@);
                exists|now: u64| #[trigger] stale_ids_ok(self.contents(), now, max_age_ms, ids)
            }),
    {
        let now = now_millis();
        let r = self.get_stale_components_at(now, max_age_ms);
        proof {
            assert(stale_ids_ok(self.contents(), now, max_age_ms, r@.map_values(|t: String| t@)));
        }
        r
    }

    /// Removes exactly the entries stale at `now` and returns how many there
    /// were.
    pub fn cleanup_stale_at(&mut self, now: u64, max_age_ms: u64) -> (r: usize)
        requires
            old(self).wf(),
        ensures
            final(self).wf(),
            final(self).max() == old(self).max(),
            final(self).contents() == fresh_only(old(self).contents(), now, max_age_ms),
            r == old(self).contents().dom().len() - final(self).contents().dom().len(),
    {
        let ghost pre = self.contents();
        let stale = self.get_stale_components_at(now, max_age_ms);
        let ghost ids = stale@.map_values(|t: String| t@);
        let count = stale.len();
        let mut i: usize = 0;
        while i < stale.len()
            invariant
                old(self).wf(),
                stale_ids_ok(pre, now, max_age_ms, ids),
                ids == stale@.map_values(|t: String| t@),
                pre == old(self).contents(),
                i <= stale@.len(),
                self.max() == old(self).max(),
                self.contents().dom().finite(),
                self.contents().dom().len() == pre.dom().len() - i,
                forall|k: Seq<char>| #[trigger]
                    self.contents().contains_key(k) <==> (pre.contains_key(k) && !(exists|j: int|
                        0 <= j < i && #[trigger] ids[j] == k)),
                forall|k: Seq<char>| #[trigger]
                    self.contents().contains_key(k) ==> self.contents()[k] == pre[k],
            decreases stale@.len() - i,
        {
            let ghost cur = self.contents();
            proof {
                assert(stale@[i as int]@ == ids[i as int]);
                assert(pre.contains_key(ids[i as int]));
                assert(cur.contains_key(ids[i as int])) by {
                    if exists|j: int| 0 <= j < i && #[trigger] ids[j] == ids[i as int] {
                        let j = choose|j: int| 0 <= j < i && #[trigger] ids[j] == ids[i as int];
                        assert(ids[j] != ids[i as int]);
                    }
                }
            }
            let _ = dm_remove(&mut self.html_cache, stale[i].as_str());
            proof {
                assert(self.contents().dom() =~= cur.dom().remove(ids[i as int]));
                assert forall|k: Seq<char>| #[trigger]
                    self.contents().contains_key(k) <==> (pre.contains_key(k) && !(exists|j: int|
                        0 <= j < i + 1 && #[trigger] ids[j] == k)) by {
                    if self.contents().contains_key(k) {
                        if exists|j: int| 0 <= j < i + 1 && #[trigger] ids[j] == k {
                            let j = choose|j: int| 0 <= j < i + 1 && #[trigger] ids[j] == k;
                            if j < i {
                                assert(!cur.contains_key(k));
                            }
                        }
                    } else {
                        if pre.contains_key(k) && !(exists|j: int|
                            0 <= j < i + 1 && #[trigger] ids[j] == k) {
                            assert(!(exists|j: int| 0 <= j < i && #[trigger] ids[j] == k));
                            assert(cur.contains_key(k));
                            assert(k != ids[i as int]);
                        }
                    }
                }
            }
            i = i + 1;
        }
        proof {
            assert(self.contents() =~= fresh_only(pre, now, max_age_ms)) by {
                assert forall|k: Seq<char>| #[trigger]
                    self.contents().contains_key(k) implies fresh_only(
                    pre,
                    now,
                    max_age_ms,
                ).contains_key(k) by {
                    assert(pre.contains_key(k));
                    if is_stale(pre[k].1, now, max_age_ms) {
                        assert(ids.contains(k));
                        let j = choose|j: int| 0 <= j < ids.len() && ids[j] == k;
                    }
                    assert(pre.dom().filter(|k2: Seq<char>| !is_stale(pre[k2].1, now, max_age_ms))
                        .contains(k));
                }
                assert forall|k: Seq<char>| #[trigger]
                    fresh_only(pre, now, max_age_ms).contains_key(k) implies self.contents()
                    .contains_key(k) by {
                    assert(pre.dom().filter(|k2: Seq<char>| !is_stale(pre[k2].1, now, max_age_ms))
                        .contains(k));
                    if exists|j: int| 0 <= j < ids.len() && #[trigger] ids[j] == k {
                        let j = choose|j: int| 0 <= j < ids.len() && #[trigger] ids[j] == k;
                        assert(is_stale(pre[k].1, now, max_age_ms));
                    }
                }
            }
        }
        count
    }

    /// Removes exactly the entries stale now and returns how many there
    /// were.
    pub fn cleanup_stale(&mut self, max_age_ms: u64) -> (r: usize)
        requires
            old(self).wf(),
        ensures
            final(self).wf(),
            final(self).max() == old(self).max(),
            exists|now: u64|
                final(self).contents() == fresh_only(old(self).contents(), now, max_age_ms) && r
                    == old(self).contents().dom().len() - final(self).contents().dom().len(),
    {
        let now = now_millis();
        let r = self.cleanup_stale_at(now, max_age_ms);
        proof {
            assert(self.contents() == fresh_only(old(self).contents(), now, max_age_ms) && r == old(
                self,
            ).contents().dom().len() - self.contents().dom().len());
        }
        r
    }
}

impl Default for ComponentCache {
    /// A cache bounded at one thousand entries.
    fn default() -> (r: Self)
        ensures
            r.wf(),
            r.contents() == Map::<Seq<char>, (Seq<char>, u64)>::empty(),
            r.max() == 1000,
    {
        ComponentCache::new(1000)
    }
}

} // verus!
