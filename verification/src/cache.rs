use dashmap::DashMap;
use vstd::prelude::*;

verus! {

/// dashmap's sharded concurrent hash map, declared so cache values can hold
/// one. It stays opaque here: every use below goes through a trusted wrapper
/// whose contract speaks of `cache_entries`.
#[verifier::external_type_specification]
#[verifier::external_body]
#[verifier::reject_recursive_types(K)]
#[verifier::reject_recursive_types(V)]
#[verifier::reject_recursive_types(S)]
pub struct ExDashMap<K, V, S>(DashMap<K, V, S>);

/// What a cache map holds: each key's stored value and creation time in
/// milliseconds. The wrappers below state how each dashmap call reads or
/// rewrites these contents.
pub uninterp spec fn cache_entries(m: DashMap<String, (String, u64)>) -> Map<
    Seq<char>,
    (Seq<char>, u64),
>;

/// Relies on `dashmap::DashMap::new`: a map that holds no entries.
#[verifier::external_body]
fn dm_new() -> (r: DashMap<String, (String, u64)>)
    ensures
        forall|k: Seq<char>| !cache_entries(r).contains_key(k),
{
    DashMap::new()
}

/// Relies on `dashmap::DashMap::get`: the entry stored under `key`, if one
/// is present. The guard it hands back is cloned out at once, so no shard
/// lock outlives the call.
#[verifier::external_body]
fn dm_get(m: &DashMap<String, (String, u64)>, key: &str) -> (r: Option<(String, u64)>)
    ensures
        match r {
            Some(e) => cache_entries(*m).contains_key(key@) && cache_entries(*m)[key@] == (
                e.0@,
                e.1,
            ),
            None => !cache_entries(*m).contains_key(key@),
        },
{
    m.get(key).map(|e| e.value().clone())
}

/// Relies on `dashmap::DashMap::insert`: stores the value and its creation
/// time under `key`, replacing any previous entry wholesale.
#[verifier::external_body]
fn dm_insert(m: &mut DashMap<String, (String, u64)>, key: String, value: String, created_ms: u64)
    ensures
        cache_entries(*final(m)) == cache_entries(*old(m)).insert(key@, (value@, created_ms)),
{
    m.insert(key, (value, created_ms));
}

/// Relies on `dashmap::DashMap::remove`: drops the entry under `key`, if any.
#[verifier::external_body]
fn dm_remove(m: &mut DashMap<String, (String, u64)>, key: &str)
    ensures
        cache_entries(*final(m)) == cache_entries(*old(m)).remove(key@),
{
    m.remove(key);
}

/// An entry created at `created_ms` is still fresh at `now_ms` when less
/// than `ttl_ms` milliseconds have passed since its insertion. Time-to-live
/// is absolute from insertion: reading never refreshes it.
pub open spec fn fresh_at(created_ms: u64, now_ms: u64, ttl_ms: u64) -> bool {
    now_ms - created_ms < ttl_ms
}

/// What a lookup of `k` at time `now_ms` returns: the stored value while the
/// entry is fresh, and nothing when the key is absent or the entry expired.
/// Absence and expiry are deliberately indistinguishable to callers.
pub open spec fn lookup_result(
    m: Map<Seq<char>, (Seq<char>, u64)>,
    k: Seq<char>,
    now_ms: u64,
    ttl_ms: u64,
) -> Option<Seq<char>> {
    if m.contains_key(k) && fresh_at(m[k].1, now_ms, ttl_ms) {
        Some(m[k].0)
    } else {
        None
    }
}

/// The stored entries after a lookup of `k` at `now_ms`: an entry found
/// expired is removed on the spot; nothing else changes.
pub open spec fn entries_after_get(
    m: Map<Seq<char>, (Seq<char>, u64)>,
    k: Seq<char>,
    now_ms: u64,
    ttl_ms: u64,
) -> Map<Seq<char>, (Seq<char>, u64)> {
    if m.contains_key(k) && !fresh_at(m[k].1, now_ms, ttl_ms) {
        m.remove(k)
    } else {
        m
    }
}

/// Caches opaque string values under opaque string keys for a fixed
/// time-to-live, evicting expired entries lazily when a lookup meets them.
/// There is no sweep: an entry that expires and is never read again stays
/// resident, an accepted cost for the intended low-key-cardinality workload.
pub struct AppCache {
    map: DashMap<String, (String, u64)>,
    ttl_ms: u64,
    epoch: std::time::Instant,
}

impl AppCache {
    /// Time-to-live applied uniformly to every entry, in milliseconds.
    pub closed spec fn ttl_ms_spec(self) -> u64 {
        self.ttl_ms
    }

    /// Each stored key's value and creation time.
    pub closed spec fn entries(self) -> Map<Seq<char>, (Seq<char>, u64)> {
        cache_entries(self.map)
    }

    /// Internal invariant: the time-to-live is positive.
    pub closed spec fn wf(self) -> bool {
        self.ttl_ms >= 1
    }

    /// Builds an empty cache whose entries live `ttl_ms` milliseconds each;
    /// a zero time-to-live is rejected at construction.
    pub fn with_ttl_millis(ttl_ms: u64) -> (r: AppCache)
        requires
            ttl_ms >= 1,
        ensures
            r.wf(),
            r.ttl_ms_spec() == ttl_ms,
            r.entries() == Map::<Seq<char>, (Seq<char>, u64)>::empty(),
    {
        let r = AppCache { map: dm_new(), ttl_ms, epoch: std::time::Instant::now() };
        proof {
            assert(r.entries() =~= Map::<Seq<char>, (Seq<char>, u64)>::empty());
        }
        r
    }

    /// Builds an empty cache with the default time-to-live of five minutes.
    pub fn new() -> (r: AppCache)
        ensures
            r.wf(),
            r.ttl_ms_spec() == 300_000,
            r.entries() == Map::<Seq<char>, (Seq<char>, u64)>::empty(),
    {
        Self::with_ttl_millis(300_000)
    }

    /// One lookup of `key` against the explicit clock reading `now_ms`:
    /// returns the stored value while fresh, removes the entry and returns
    /// nothing when it expired, and touches no other key either way.
    pub fn get_at(&mut self, key: &str, now_ms: u64) -> (r: Option<String>)
        requires
            old(self).wf(),
        ensures
            final(self).wf(),
            final(self).ttl_ms_spec() == old(self).ttl_ms_spec(),
            r.deep_view() == lookup_result(
                old(self).entries(),
                key@,
                now_ms,
                old(self).ttl_ms_spec(),
            ),
            final(self).entries() == entries_after_get(
                old(self).entries(),
                key@,
                now_ms,
                old(self).ttl_ms_spec(),
            ),
            forall|k2: Seq<char>|
                k2 != key@ ==> {
                    &&& final(self).entries().contains_key(k2) == old(
                        self,
                    ).entries().contains_key(k2)
                    &&& old(self).entries().contains_key(k2) ==> final(self).entries()[k2] == old(
                        self,
                    ).entries()[k2]
                },
    {
        let ttl: u64 = self.ttl_ms;
        match dm_get(&self.map, key) {
            None => None,
            Some(e) => {
                let (val, created) = e;
                if created > now_ms || now_ms - created < ttl {
                    Some(val)
                } else {
                    dm_remove(&mut self.map, key);
                    None
                }
            },
        }
    }

    /// Inserts or wholesale-replaces the entry for `key`, stamping it with
    /// the explicit clock reading `now_ms`; no other key is touched.
    pub fn set_at(&mut self, key: String, value: String, now_ms: u64)
        requires
            old(self).wf(),
        ensures
            final(self).wf(),
            final(self).ttl_ms_spec() == old(self).ttl_ms_spec(),
            final(self).entries() == old(self).entries().insert(key@, (value@, now_ms)),
            forall|k2: Seq<char>|
                k2 != key@ ==> {
                    &&& final(self).entries().contains_key(k2) == old(
                        self,
                    ).entries().contains_key(k2)
                    &&& old(self).entries().contains_key(k2) ==> final(self).entries()[k2] == old(
                        self,
                    ).entries()[k2]
                },
    {
        dm_insert(&mut self.map, key, value, now_ms);
    }

    /// One lookup of `key` against the clock now: behaves as `get_at` at
    /// whatever millisecond count the clock reports.
    pub fn get(&mut self, key: &str) -> (r: Option<String>)
        requires
            old(self).wf(),
        ensures
            final(self).wf(),
            final(self).ttl_ms_spec() == old(self).ttl_ms_spec(),
            exists|now_ms: u64|
                {
                    &&& r.deep_view() == #[trigger] lookup_result(
                        old(self).entries(),
                        key@,
                        now_ms,
                        old(self).ttl_ms_spec(),
                    )
                    &&& final(self).entries() == entries_after_get(
                        old(self).entries(),
                        key@,
                        now_ms,
                        old(self).ttl_ms_spec(),
                    )
                },
    {
        let d = self.epoch.elapsed();
        let ms: u128 = d.as_millis();
        let now_ms: u64 = #[verifier::truncate] (ms as u64);
        self.get_at(key, now_ms)
    }

    /// Inserts or wholesale-replaces the entry for `key`, stamped with the
    /// clock now: behaves as `set_at` at whatever count the clock reports.
    pub fn set(&mut self, key: String, value: String)
        requires
            old(self).wf(),
        ensures
            final(self).wf(),
            final(self).ttl_ms_spec() == old(self).ttl_ms_spec(),
            exists|now_ms: u64|
                final(self).entries() == #[trigger] old(self).entries().insert(
                    key@,
                    (value@, now_ms),
                ),
    {
        let d = self.epoch.elapsed();
        let ms: u128 = d.as_millis();
        let now_ms: u64 = #[verifier::truncate] (ms as u64);
        self.set_at(key, value, now_ms)
    }
}

/// Law: cache freshness. After an entry for `k` is set at time `set_ms`, a
/// lookup of `k` returns that value at every time less than `ttl_ms`
/// milliseconds later, and nothing from `ttl_ms` milliseconds on.
pub proof fn lemma_cache_freshness(
    m: Map<Seq<char>, (Seq<char>, u64)>,
    k: Seq<char>,
    v: Seq<char>,
    set_ms: u64,
    now_ms: u64,
    ttl_ms: u64,
)
    ensures
        now_ms - set_ms < ttl_ms ==> lookup_result(m.insert(k, (v, set_ms)), k, now_ms, ttl_ms)
            == Some(v),
        now_ms - set_ms >= ttl_ms ==> lookup_result(m.insert(k, (v, set_ms)), k, now_ms, ttl_ms)
            is None,
{
}

/// Law: cache overwrite. Setting `k` twice leaves exactly the second value
/// and the second creation time, whatever was stored before: an immediate
/// lookup yields the second value, and freshness is counted from the second
/// set alone.
pub proof fn lemma_cache_overwrite(
    m: Map<Seq<char>, (Seq<char>, u64)>,
    k: Seq<char>,
    v1: Seq<char>,
    v2: Seq<char>,
    s1_ms: u64,
    s2_ms: u64,
    now_ms: u64,
    ttl_ms: u64,
)
    ensures
        m.insert(k, (v1, s1_ms)).insert(k, (v2, s2_ms)) == m.insert(k, (v2, s2_ms)),
        now_ms - s2_ms < ttl_ms ==> lookup_result(
            m.insert(k, (v1, s1_ms)).insert(k, (v2, s2_ms)),
            k,
            now_ms,
            ttl_ms,
        ) == Some(v2),
        now_ms - s2_ms >= ttl_ms ==> lookup_result(
            m.insert(k, (v1, s1_ms)).insert(k, (v2, s2_ms)),
            k,
            now_ms,
            ttl_ms,
        ) is None,
{
    assert(m.insert(k, (v1, s1_ms)).insert(k, (v2, s2_ms)) =~= m.insert(k, (v2, s2_ms)));
}

/// Law: cache isolation. A set of `k1`, and the lazy removal a lookup of
/// `k1` may perform, change neither the value nor the freshness of any other
/// key `k2`.
pub proof fn lemma_cache_isolation(
    m: Map<Seq<char>, (Seq<char>, u64)>,
    k1: Seq<char>,
    k2: Seq<char>,
    v: Seq<char>,
    set_ms: u64,
    get_ms: u64,
    now_ms: u64,
    ttl_ms: u64,
)
    requires
        k1 != k2,
    ensures
        lookup_result(m.insert(k1, (v, set_ms)), k2, now_ms, ttl_ms) == lookup_result(
            m,
            k2,
            now_ms,
            ttl_ms,
        ),
        lookup_result(entries_after_get(m, k1, get_ms, ttl_ms), k2, now_ms, ttl_ms)
            == lookup_result(m, k2, now_ms, ttl_ms),
{
}

} // verus!
