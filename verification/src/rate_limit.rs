use vstd::prelude::*;

verus! {

broadcast use {vstd::seq_lib::group_filter_ensures, Seq::lemma_filter_push};

/// A request recorded at time `t` still counts against the quota at time
/// `now` when less than `window_ms` milliseconds have passed since it.
/// A timestamp that lies at or beyond `now` (the clock is read anew on every
/// call) always counts: only genuine age past the window releases a slot.
pub open spec fn active_at(t: u64, now: u64, window_ms: u64) -> bool {
    now - t < window_ms
}

/// The timestamps of `ts` that still count at time `now`, in their original
/// order. Pruning on every admission check keeps exactly these.
pub open spec fn pruned(ts: Seq<u64>, now: u64, window_ms: u64) -> Seq<u64> {
    ts.filter(|t: u64| active_at(t, now, window_ms))
}

/// A request at time `now` is admitted exactly when, after pruning, the
/// client still holds fewer than `limit` active timestamps.
pub open spec fn admits(ts: Seq<u64>, now: u64, window_ms: u64, limit: usize) -> bool {
    pruned(ts, now, window_ms).len() < limit
}

/// The client's window after one admission check at time `now`: stale
/// timestamps are dropped either way, and `now` is recorded only when the
/// request was admitted.
pub open spec fn window_after(ts: Seq<u64>, now: u64, window_ms: u64, limit: usize) -> Seq<u64> {
    if admits(ts, now, window_ms, limit) {
        pruned(ts, now, window_ms).push(now)
    } else {
        pruned(ts, now, window_ms)
    }
}

/// The view of one stored client entry: its identifier and its recorded
/// timestamps.
pub open spec fn entry_views(s: Seq<(String, Vec<u64>)>) -> Seq<(Seq<char>, Seq<u64>)> {
    s.map_values(|e: (String, Vec<u64>)| (e.0@, e.1@))
}

/// The window stored for `id`: the timestamps of the first entry carrying
/// that identifier, or the empty sequence when none does. A client that was
/// never seen and a client whose entry holds no timestamps are
/// indistinguishable, so both are modelled by the empty window.
pub open spec fn window_of(s: Seq<(Seq<char>, Seq<u64>)>, id: Seq<char>) -> Seq<u64>
    decreases s.len(),
{
    if s.len() == 0 {
        Seq::empty()
    } else if s[0].0 == id {
        s[0].1
    } else {
        window_of(s.skip(1), id)
    }
}

/// First entry of `clients` whose identifier reads as `key`, if any.
fn find_client(clients: &Vec<(String, Vec<u64>)>, key: &String) -> (r: Option<usize>)
    ensures
        match r {
            Some(i) => {
                &&& i < clients@.len()
                &&& clients@[i as int].0@ == key@
                &&& forall|j: int| 0 <= j < i ==> (#[trigger] clients@[j]).0@ != key@
            },
            None => forall|j: int| 0 <= j < clients@.len() ==> (#[trigger] clients@[j]).0@ != key@,
        },
{
    let n: usize = clients.len();
    let mut i: usize = 0;
    while i < n
        invariant
            i <= n == clients@.len(),
            forall|j: int| 0 <= j < i ==> (#[trigger] clients@[j]).0@ != key@,
        decreases n - i,
    {
        if clients[i].0 == *key {
            return Some(i);
        }
        i += 1;
    }
    None
}

/// When no entry carries `id`, its window is empty.
proof fn lemma_window_of_absent(s: Seq<(Seq<char>, Seq<u64>)>, id: Seq<char>)
    requires
        forall|j: int| 0 <= j < s.len() ==> (#[trigger] s[j]).0 != id,
    ensures
        window_of(s, id) == Seq::<u64>::empty(),
    decreases s.len(),
{
    if s.len() > 0 {
        lemma_window_of_absent(s.skip(1), id);
    }
}

/// When the first entry carrying `id` stands at index `i`, the window of
/// `id` is that entry's timestamp sequence.
proof fn lemma_window_of_found(s: Seq<(Seq<char>, Seq<u64>)>, i: int, id: Seq<char>)
    requires
        0 <= i < s.len(),
        s[i].0 == id,
        forall|j: int| 0 <= j < i ==> (#[trigger] s[j]).0 != id,
    ensures
        window_of(s, id) == s[i].1,
    decreases i,
{
    if i > 0 {
        lemma_window_of_found(s.skip(1), i - 1, id);
    }
}

/// Replacing the timestamps of the entry at `i` (whose identifier appears
/// nowhere else) rewrites that identifier's window and no other.
proof fn lemma_window_of_update(s: Seq<(Seq<char>, Seq<u64>)>, i: int, w: Seq<u64>)
    requires
        0 <= i < s.len(),
        forall|j: int| 0 <= j < s.len() && j != i ==> (#[trigger] s[j]).0 != s[i].0,
    ensures
        window_of(s.update(i, (s[i].0, w)), s[i].0) == w,
        forall|id: Seq<char>|
            id != s[i].0 ==> window_of(s.update(i, (s[i].0, w)), id) == window_of(s, id),
    decreases s.len(),
{
    let s2 = s.update(i, (s[i].0, w));
    assert(s2.len() == s.len());
    if i == 0 {
        assert(s2[0] == (s[0].0, w));
        assert(s2.skip(1) =~= s.skip(1));
        assert(window_of(s2, s[0].0) == w);
        assert forall|id: Seq<char>| id != s[i].0 implies window_of(s2, id) == window_of(
            s,
            id,
        ) by {
            assert(window_of(s2, id) == window_of(s2.skip(1), id));
            assert(window_of(s, id) == window_of(s.skip(1), id));
        }
    } else {
        assert(s2[0] == s[0]);
        assert(s2.skip(1) =~= s.skip(1).update(i - 1, (s[i].0, w)));
        assert(s.skip(1)[i - 1] == s[i]);
        assert forall|j: int| 0 <= j < s.skip(1).len() && j != i - 1 implies (#[trigger] s.skip(
            1,
        )[j]).0 != s.skip(1)[i - 1].0 by {
            assert(s.skip(1)[j] == s[j + 1]);
        }
        lemma_window_of_update(s.skip(1), i - 1, w);
        assert(s[0].0 != s[i].0);
        assert(window_of(s2, s[i].0) == window_of(s2.skip(1), s[i].0));
        assert(window_of(s2, s[i].0) == w);
        assert forall|id: Seq<char>| id != s[i].0 implies window_of(s2, id) == window_of(
            s,
            id,
        ) by {
            if id == s[0].0 {
                assert(window_of(s2, id) == s2[0].1);
                assert(window_of(s, id) == s[0].1);
            } else {
                assert(window_of(s2, id) == window_of(s2.skip(1), id));
                assert(window_of(s, id) == window_of(s.skip(1), id));
            }
        }
    }
}

/// Appending an entry for an identifier that appears nowhere in `s` gives
/// that identifier the appended window and leaves every other one unchanged.
proof fn lemma_window_of_push(s: Seq<(Seq<char>, Seq<u64>)>, e: (Seq<char>, Seq<u64>))
    requires
        forall|j: int| 0 <= j < s.len() ==> (#[trigger] s[j]).0 != e.0,
    ensures
        window_of(s.push(e), e.0) == e.1,
        forall|id: Seq<char>| id != e.0 ==> window_of(s.push(e), id) == window_of(s, id),
    decreases s.len(),
{
    let sp = s.push(e);
    assert(sp.len() == s.len() + 1);
    if s.len() == 0 {
        assert(sp[0] == e);
        assert(sp.skip(1) =~= Seq::<(Seq<char>, Seq<u64>)>::empty());
        assert(window_of(sp, e.0) == e.1);
        assert forall|id: Seq<char>| id != e.0 implies window_of(sp, id) == window_of(s, id) by {
            assert(window_of(sp, id) == window_of(sp.skip(1), id));
        }
    } else {
        assert(sp[0] == s[0]);
        assert(sp.skip(1) =~= s.skip(1).push(e));
        assert forall|j: int| 0 <= j < s.skip(1).len() implies (#[trigger] s.skip(1)[j]).0
            != e.0 by {
            assert(s.skip(1)[j] == s[j + 1]);
        }
        lemma_window_of_push(s.skip(1), e);
        assert(s[0].0 != e.0);
        assert(window_of(sp, e.0) == window_of(sp.skip(1), e.0));
        assert(window_of(sp, e.0) == e.1);
        assert forall|id: Seq<char>| id != e.0 implies window_of(sp, id) == window_of(s, id) by {
            if id == s[0].0 {
                assert(window_of(sp, id) == sp[0].1);
                assert(window_of(s, id) == s[0].1);
            } else {
                assert(window_of(sp, id) == window_of(sp.skip(1), id));
                assert(window_of(s, id) == window_of(s.skip(1), id));
            }
        }
    }
}

/// Every window the limiter can report is either empty or the timestamp
/// sequence of one stored entry.
proof fn lemma_window_of_cases(s: Seq<(Seq<char>, Seq<u64>)>, id: Seq<char>)
    ensures
        window_of(s, id) == Seq::<u64>::empty() || exists|i: int|
            0 <= i < s.len() && window_of(s, id) == (#[trigger] s[i]).1,
    decreases s.len(),
{
    if s.len() > 0 && s[0].0 != id {
        lemma_window_of_cases(s.skip(1), id);
        if window_of(s, id) != Seq::<u64>::empty() {
            let i = choose|i: int|
                0 <= i < s.skip(1).len() && window_of(s.skip(1), id) == (#[trigger] s.skip(1)[i]).1;
            assert(window_of(s, id) == s[i + 1].1);
        }
    }
}

/// Admits or rejects requests per client identifier: at most `limit`
/// admissions within any `window_ms`-millisecond sliding window, decided
/// against the clock reading passed to (or taken by) each call.
///
/// The set of known identifiers only grows: an identifier's stale
/// timestamps are pruned on every check for it, but the entry itself is
/// never dropped: an accepted limitation for the intended low-cardinality
/// workload, stated here rather than hidden behind an unstated eviction
/// policy.
pub struct RateLimiter {
    clients: Vec<(String, Vec<u64>)>,
    limit: usize,
    window_ms: u64,
    epoch: std::time::Instant,
}

impl RateLimiter {
    /// Maximum number of admissions per window.
    pub closed spec fn limit_spec(self) -> usize {
        self.limit
    }

    /// Window length in milliseconds.
    pub closed spec fn window_ms_spec(self) -> u64 {
        self.window_ms
    }

    /// The recorded window of `id` (empty when `id` was never admitted).
    pub closed spec fn client_window(self, id: Seq<char>) -> Seq<u64> {
        window_of(entry_views(self.clients@), id)
    }

    /// Internal invariant: positive quota and window, one entry per
    /// identifier, and no entry ever holds more than `limit` timestamps.
    pub closed spec fn wf(self) -> bool {
        &&& self.limit >= 1
        &&& self.window_ms >= 1
        &&& forall|i: int, j: int|
            0 <= i < j < self.clients@.len() ==> self.clients@[i].0@ != self.clients@[j].0@
        &&& forall|i: int|
            0 <= i < self.clients@.len() ==> (#[trigger] self.clients@[i]).1@.len() <= self.limit
    }

    /// Builds a limiter that admits at most `limit` requests per client
    /// within each sliding window of `window` seconds. Zero quotas and zero
    /// windows are rejected at construction; the bound on `window` keeps the
    /// millisecond conversion within `u64`.
    pub fn new(limit: usize, window: u64) -> (r: RateLimiter)
        requires
            limit >= 1,
            1 <= window <= u64::MAX / 1000,
        ensures
            r.wf(),
            r.limit_spec() == limit,
            r.window_ms_spec() == window * 1000,
            forall|id: Seq<char>| r.client_window(id) == Seq::<u64>::empty(),
    {
        let r = RateLimiter {
            clients: Vec::new(),
            limit,
            window_ms: window * 1000,
            epoch: std::time::Instant::now(),
        };
        proof {
            assert(entry_views(r.clients@) =~= Seq::<(Seq<char>, Seq<u64>)>::empty());
        }
        r
    }

    /// One admission check for `id` against the explicit clock reading
    /// `now_ms`: prune the stale timestamps of `id`, admit exactly when fewer
    /// than `limit` remain, and record `now_ms` only on admission. Windows of
    /// other identifiers are untouched.
    pub fn allow_at(&mut self, id: &str, now_ms: u64) -> (admitted: bool)
        requires
            old(self).wf(),
        ensures
            final(self).wf(),
            final(self).limit_spec() == old(self).limit_spec(),
            final(self).window_ms_spec() == old(self).window_ms_spec(),
            admitted == admits(
                old(self).client_window(id@),
                now_ms,
                old(self).window_ms_spec(),
                old(self).limit_spec(),
            ),
            final(self).client_window(id@) == window_after(
                old(self).client_window(id@),
                now_ms,
                old(self).window_ms_spec(),
                old(self).limit_spec(),
            ),
            forall|other: Seq<char>|
                other != id@ ==> final(self).client_window(other) == old(self).client_window(
                    other,
                ),
    {
        let limit: usize = self.limit;
        let window_ms: u64 = self.window_ms;
        let ghost pred = |t: u64| active_at(t, now_ms, window_ms);
        let ghost views0 = entry_views(self.clients@);
        let ghost w0 = old(self).client_window(id@);
        let key: String = id.to_owned();
        match find_client(&self.clients, &key) {
            None => {
                proof {
                    lemma_window_of_absent(views0, id@);
                    assert(w0 =~= Seq::<u64>::empty());
                    assert(pruned(w0, now_ms, window_ms) =~= Seq::<u64>::empty());
                }
                let mut w: Vec<u64> = Vec::new();
                w.push(now_ms);
                self.clients.push((key, w));
                proof {
                    assert(entry_views(self.clients@) =~= views0.push((id@, seq![now_ms])));
                    lemma_window_of_push(views0, (id@, seq![now_ms]));
                    assert(window_after(w0, now_ms, window_ms, limit) =~= seq![now_ms]);
                }
                true
            },
            Some(i) => {
                let m: usize = self.clients[i].1.len();
                let mut kept: Vec<u64> = Vec::new();
                let mut j: usize = 0;
                proof {
                    lemma_window_of_found(views0, i as int, id@);
                    assert(w0 == self.clients@[i as int].1@);
                }
                while j < m
                    invariant
                        j <= m,
                        0 <= i < self.clients@.len(),
                        m == self.clients@[i as int].1@.len(),
                        self == old(self),
                        window_ms >= 1,
                        pred == (|t: u64| active_at(t, now_ms, window_ms)),
                        kept@ == self.clients@[i as int].1@.take(j as int).filter(pred),
                    decreases m - j,
                {
                    let t: u64 = self.clients[i].1[j];
                    proof {
                        assert(self.clients@[i as int].1@.take(j + 1) =~= self.clients@[
                            i as int].1@.take(j as int).push(t));
                        assert(pred(t) == active_at(t, now_ms, window_ms));
                    }
                    if t >= now_ms || now_ms - t < window_ms {
                        kept.push(t);
                    }
                    j += 1;
                }
                proof {
                    assert(self.clients@[i as int].1@.take(m as int) =~= self.clients@[
                        i as int].1@);
                    assert(kept@ == pruned(w0, now_ms, window_ms));
                }
                let admitted: bool = kept.len() < limit;
                if admitted {
                    kept.push(now_ms);
                }
                let ghost kept_view = kept@;
                let entry = vstd::std_specs::vec::vec_index_mut(&mut self.clients, i);
                entry.1 = kept;
                proof {
                    assert(entry_views(self.clients@) =~= views0.update(
                        i as int,
                        (id@, kept_view),
                    ));
                    assert forall|j2: int|
                        0 <= j2 < views0.len() && j2 != i as int implies (#[trigger] views0[j2]).0
                        != views0[i as int].0 by {
                        assert(views0[j2].0 == old(self).clients@[j2].0@);
                    }
                    lemma_window_of_update(views0, i as int, kept_view);
                }
                admitted
            },
        }
    }

    /// One admission check for `ip` against the clock now: behaves as
    /// `allow_at` at whatever millisecond count the clock reports.
    pub fn allow(&mut self, ip: &str) -> (admitted: bool)
        requires
            old(self).wf(),
        ensures
            final(self).wf(),
            final(self).limit_spec() == old(self).limit_spec(),
            final(self).window_ms_spec() == old(self).window_ms_spec(),
            exists|now_ms: u64|
                {
                    &&& admitted == admits(
                        old(self).client_window(ip@),
                        now_ms,
                        old(self).window_ms_spec(),
                        old(self).limit_spec(),
                    )
                    &&& final(self).client_window(ip@) == #[trigger] window_after(
                        old(self).client_window(ip@),
                        now_ms,
                        old(self).window_ms_spec(),
                        old(self).limit_spec(),
                    )
                },
            forall|other: Seq<char>|
                other != ip@ ==> final(self).client_window(other) == old(self).client_window(
                    other,
                ),
    {
        let d = self.epoch.elapsed();
        let ms: u128 = d.as_millis();
        let now_ms: u64 = #[verifier::truncate] (ms as u64);
        self.allow_at(ip, now_ms)
    }
}

/// Every timestamp of `w` still counts at time `now`.
pub open spec fn all_active(w: Seq<u64>, now: u64, window_ms: u64) -> bool {
    forall|i: int| 0 <= i < w.len() ==> active_at(#[trigger] w[i], now, window_ms)
}

/// Pruning drops nothing from a window whose timestamps all still count.
pub proof fn lemma_pruned_all_active(w: Seq<u64>, now: u64, window_ms: u64)
    requires
        all_active(w, now, window_ms),
    ensures
        pruned(w, now, window_ms) == w,
    decreases w.len(),
{
    if w.len() > 0 {
        assert(all_active(w.drop_last(), now, window_ms));
        lemma_pruned_all_active(w.drop_last(), now, window_ms);
        assert(w =~= w.drop_last().push(w.last()));
        assert(active_at(w.last(), now, window_ms));
        assert(pruned(w, now, window_ms) =~= w);
    } else {
        assert(pruned(w, now, window_ms) =~= w);
    }
}

/// A window holding a stale timestamp prunes to strictly fewer entries.
pub proof fn lemma_pruned_drops_stale(w: Seq<u64>, now: u64, window_ms: u64, i: int)
    requires
        0 <= i < w.len(),
        !active_at(w[i], now, window_ms),
    ensures
        pruned(w, now, window_ms).len() < w.len(),
    decreases w.len(),
{
    assert(w =~= w.drop_last().push(w.last()));
    if i == w.len() - 1 {
        assert(pruned(w, now, window_ms) == pruned(w.drop_last(), now, window_ms));
    } else {
        lemma_pruned_drops_stale(w.drop_last(), now, window_ms, i);
    }
}

/// Law: window slide. A client at (or under) quota is admitted again as soon
/// as any one of its recorded timestamps has aged past the window, however
/// full its window was.
pub proof fn lemma_window_slide(w: Seq<u64>, now: u64, window_ms: u64, limit: usize, i: int)
    requires
        w.len() <= limit,
        0 <= i < w.len(),
        !active_at(w[i], now, window_ms),
    ensures
        admits(w, now, window_ms, limit),
{
    lemma_pruned_drops_stale(w, now, window_ms, i);
}

/// Law: quota exhaustion. A client holding `limit` timestamps that all still
/// count is rejected, and the rejected attempt leaves its window unchanged.
pub proof fn lemma_quota_exhausted_rejects(w: Seq<u64>, now: u64, window_ms: u64, limit: usize)
    requires
        w.len() == limit,
        all_active(w, now, window_ms),
    ensures
        !admits(w, now, window_ms, limit),
        window_after(w, now, window_ms, limit) == w,
{
    lemma_pruned_all_active(w, now, window_ms);
}

/// The window of one client after a sequence of admission checks at the
/// given times, starting from window `w0`.
pub open spec fn run_window(w0: Seq<u64>, times: Seq<u64>, window_ms: u64, limit: usize) -> Seq<u64>
    decreases times.len(),
{
    if times.len() == 0 {
        w0
    } else {
        run_window(window_after(w0, times[0], window_ms, limit), times.skip(1), window_ms, limit)
    }
}

/// Law: admission count. While the timestamps a client already holds and the
/// times of its coming checks all lie within one window span of each other,
/// and the total stays within the quota, every check admits and every time
/// is recorded in order.
pub proof fn lemma_admission_count(w0: Seq<u64>, times: Seq<u64>, window_ms: u64, limit: usize)
    requires
        w0.len() + times.len() <= limit,
        forall|k: int| 0 <= k < times.len() ==> all_active(w0, #[trigger] times[k], window_ms),
        forall|j: int, k: int|
            0 <= j <= k < times.len() ==> active_at(#[trigger] times[j], #[trigger] times[k], window_ms),
    ensures
        run_window(w0, times, window_ms, limit) == w0 + times,
        forall|k: int|
            0 <= k < times.len() ==> admits(
                #[trigger] run_window(w0, times.take(k), window_ms, limit),
                times[k],
                window_ms,
                limit,
            ),
    decreases times.len(),
{
    if times.len() == 0 {
        assert(w0 + times =~= w0);
    } else {
        let t0 = times[0];
        lemma_pruned_all_active(w0, t0, window_ms);
        assert(admits(w0, t0, window_ms, limit));
        let w1 = w0.push(t0);
        assert(window_after(w0, t0, window_ms, limit) == w1);
        let rest = times.skip(1);
        assert forall|k: int| 0 <= k < rest.len() implies all_active(
            w1,
            #[trigger] rest[k],
            window_ms,
        ) by {
            assert(rest[k] == times[k + 1]);
            assert forall|i: int| 0 <= i < w1.len() implies active_at(
                #[trigger] w1[i],
                times[k + 1],
                window_ms,
            ) by {
                if i < w0.len() {
                    assert(all_active(w0, times[k + 1], window_ms));
                    assert(w1[i] == w0[i]);
                } else {
                    assert(w1[i] == t0);
                    assert(active_at(times[0], times[k + 1], window_ms));
                }
            }
        }
        assert forall|j: int, k: int| 0 <= j <= k < rest.len() implies active_at(
            #[trigger] rest[j],
            #[trigger] rest[k],
            window_ms,
        ) by {
            assert(rest[j] == times[j + 1]);
            assert(rest[k] == times[k + 1]);
        }
        lemma_admission_count(w1, rest, window_ms, limit);
        assert(run_window(w0, times, window_ms, limit) == run_window(w1, rest, window_ms, limit));
        assert(w1 + rest =~= w0 + times);
        assert forall|k: int| 0 <= k < times.len() implies admits(
            #[trigger] run_window(w0, times.take(k), window_ms, limit),
            times[k],
            window_ms,
            limit,
        ) by {
            if k == 0 {
                assert(times.take(0) =~= Seq::<u64>::empty());
                assert(run_window(w0, times.take(0), window_ms, limit) == w0);
            } else {
                let tk = times.take(k);
                assert(tk.len() > 0);
                assert(tk[0] == times[0]);
                assert(tk.skip(1) =~= rest.take(k - 1));
                assert(run_window(w0, tk, window_ms, limit) == run_window(
                    w1,
                    rest.take(k - 1),
                    window_ms,
                    limit,
                ));
                assert(rest[k - 1] == times[k]);
            }
        }
    }
}

/// Law: bounded admissions. In any reachable limiter state no client holds
/// more than `limit` recorded timestamps; with `lemma_quota_exhausted_rejects`
/// this bounds admissions within one window by the quota. Each `allow` call's
/// prune-and-record step is one atomic transition on `&mut self`, so checks
/// that race on the same identifier are ordered and the bound still holds.
pub proof fn lemma_recorded_bounded(r: RateLimiter, id: Seq<char>)
    requires
        r.wf(),
    ensures
        r.client_window(id).len() <= r.limit_spec(),
{
    let views = entry_views(r.clients@);
    lemma_window_of_cases(views, id);
    if r.client_window(id) != Seq::<u64>::empty() {
        let i = choose|i: int| 0 <= i < views.len() && window_of(views, id) == (#[trigger] views[i]).1;
        assert(views[i].1 == r.clients@[i].1@);
    }
}

} // verus!
