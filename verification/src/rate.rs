//! Per-client request counting for rate limiting: each client address may
//! make a fixed number of requests within a one-minute window.

use vstd::prelude::*;
use crate::text::text_eq;
use crate::keyed::{pairs_map, distinct_keys, lemma_pairs_map_lookup, lemma_pairs_map_update};

verus! {

/// How many requests a client may make within one window.
pub const RATE_LIMIT: u32 = 10;

/// The length of the counting window, in nanoseconds (one minute).
pub const RATE_WINDOW_NANOS: u64 = 60_000_000_000;

/// The count for one client and when its window began (nanoseconds on the
/// router's monotonic clock).
#[derive(Clone, Copy, PartialEq, Eq, Structural, Debug)]
pub struct RateEntry {
    pub count: u32,
    pub since: u64,
}

/// How long ago `since` was at time `now`; 0 where `since` is later.
pub open spec fn age(since: u64, now: u64) -> nat {
    if now >= since {
        (now - since) as nat
    } else {
        0
    }
}

/// An entry begun at `since` still counts at time `now`.
pub open spec fn is_fresh(since: u64, now: u64) -> bool {
    age(since, now) < RATE_WINDOW_NANOS
}

/// The entries of `m` whose window has not ended at time `now`.
pub open spec fn fresh_part(m: Map<Seq<char>, RateEntry>, now: u64) -> Map<Seq<char>, RateEntry> {
    Map::new(|k: Seq<char>| m.dom().contains(k) && is_fresh(m[k].since, now), |k: Seq<char>| m[k])
}

/// The count recorded for `ip`, 0 where there is none.
pub open spec fn count_in(m: Map<Seq<char>, RateEntry>, ip: Seq<char>) -> nat {
    if m.dom().contains(ip) {
        m[ip].count as nat
    } else {
        0
    }
}

/// When the window of `ip` began, or `now` where it has none yet.
pub open spec fn since_in(m: Map<Seq<char>, RateEntry>, ip: Seq<char>, now: u64) -> u64 {
    if m.dom().contains(ip) {
        m[ip].since
    } else {
        now
    }
}

/// The count of `ip` within its current window at time `now`: its count where
/// its window has not ended, 0 otherwise.
pub open spec fn count_in_window(m: Map<Seq<char>, RateEntry>, ip: Seq<char>, now: u64) -> nat {
    if m.dom().contains(ip) && is_fresh(m[ip].since, now) {
        m[ip].count as nat
    } else {
        0
    }
}

/// When the current window of `ip` began at time `now`: where its window has
/// ended or it has none, a new one begins now.
pub open spec fn window_start(m: Map<Seq<char>, RateEntry>, ip: Seq<char>, now: u64) -> u64 {
    if m.dom().contains(ip) && is_fresh(m[ip].since, now) {
        m[ip].since
    } else {
        now
    }
}

/// A request that brings a client's count to `count` is refused.
pub open spec fn over_limit(count: nat) -> bool {
    count > RATE_LIMIT
}

/// Whether a request that brings a client's count to `count` is refused.
pub fn is_over_limit(count: u32) -> (r: bool)
    ensures
        r == over_limit(count as nat),
{
    count > RATE_LIMIT
}

/// Request counts by client address.
pub struct RateTable {
    entries: Vec<(String, RateEntry)>,
}

/// The view of the stored pairs.
pub open spec fn rate_views(entries: Seq<(String, RateEntry)>) -> Seq<(Seq<char>, RateEntry)> {
    entries.map_values(|e: (String, RateEntry)| (e.0@, e.1))
}

impl RateTable {
    /// The stored pairs, as contracts see them.
    pub closed spec fn pairs(&self) -> Seq<(Seq<char>, RateEntry)> {
        rate_views(self.entries@)
    }

    /// The entries, by client address.
    pub open spec fn table(&self) -> Map<Seq<char>, RateEntry> {
        pairs_map(self.pairs())
    }

    /// No address is stored twice.
    pub open spec fn wf(&self) -> bool {
        distinct_keys(self.pairs())
    }

    /// No client has made a request yet.
    pub fn new() -> (r: RateTable)
        ensures
            r.wf(),
            r.table() == Map::<Seq<char>, RateEntry>::empty(),
    {
        let r = RateTable { entries: Vec::new() };
        assert(r.pairs() =~= Seq::<(Seq<char>, RateEntry)>::empty());
        r
    }

    fn find(&self, ip: &str) -> (r: Option<usize>)
        requires
            self.wf(),
        ensures
            r matches Some(i) ==> i < self.pairs().len() && self.pairs()[i as int].0 == ip@,
            r is None ==> forall|i: int| 0 <= i < self.pairs().len() ==> self.pairs()[i].0 != ip@,
    {
        let mut i: usize = 0;
        while i < self.entries.len()
            invariant
                i <= self.entries.len(),
                forall|k: int| 0 <= k < i ==> self.pairs()[k].0 != ip@,
            decreases self.entries.len() - i,
        {
            if text_eq(self.entries[i].0.as_str(), ip) {
                return Some(i);
            }
            i = i + 1;
        }
        None
    }

    /// The count recorded for `ip`, 0 where there is none.
    pub fn count_of(&self, ip: &str) -> (r: u32)
        requires
            self.wf(),
        ensures
            r == count_in(self.table(), ip@),
    {
        proof {
            lemma_pairs_map_lookup(self.pairs(), ip@);
        }
        match self.find(ip) {
            Some(i) => self.entries[i].1.count,
            None => 0,
        }
    }

    /// Adds `increment` to the count of `ip`, starting its window at `now`
    /// where it has none; returns the new count.
    fn bump(&mut self, ip: &str, increment: u32, now: u64) -> (count: u32)
        requires
            old(self).wf(),
            count_in(old(self).table(), ip@) + increment <= u32::MAX,
        ensures
            final(self).wf(),
            count == count_in(old(self).table(), ip@) + increment,
            final(self).table() == old(self).table().insert(
                ip@,
                RateEntry { count, since: since_in(old(self).table(), ip@, now) },
            ),
    {
        proof {
            lemma_pairs_map_lookup(self.pairs(), ip@);
        }
        match self.find(ip) {
            Some(i) => {
                let name = self.entries[i].0.clone();
                let entry = self.entries[i].1;
                let updated = RateEntry { count: entry.count + increment, since: entry.since };
                let ghost before = self.pairs();
                self.entries.set(i, (name, updated));
                proof {
                    assert(self.pairs() =~= before.update(i as int, (before[i as int].0, updated)));
                    lemma_pairs_map_update(before, i as int, updated);
                }
                updated.count
            },
            None => {
                let ghost before = self.pairs();
                let entry = RateEntry { count: increment, since: now };
                self.entries.push((ip.to_string(), entry));
                proof {
                    assert(self.pairs() =~= before.push((ip@, entry)));
                    assert(self.pairs().drop_last() =~= before);
                }
                increment
            },
        }
    }

    /// The count of `ip` within its current window at time `now`.
    pub fn window_count(&self, ip: &str, now: u64) -> (r: u32)
        requires
            self.wf(),
        ensures
            r == count_in_window(self.table(), ip@, now),
    {
        proof {
            lemma_pairs_map_lookup(self.pairs(), ip@);
        }
        match self.find(ip) {
            Some(i) => {
                let entry = self.entries[i].1;
                let fresh = if now >= entry.since {
                    now - entry.since < RATE_WINDOW_NANOS
                } else {
                    true
                };
                if fresh {
                    entry.count
                } else {
                    0
                }
            },
            None => 0,
        }
    }

    /// Starts a new window for `ip` where its window has ended at time `now`.
    fn restart_if_stale(&mut self, ip: &str, now: u64)
        requires
            old(self).wf(),
        ensures
            final(self).wf(),
            final(self).table() == if old(self).table().dom().contains(ip@) && !is_fresh(
                old(self).table()[ip@].since,
                now,
            ) {
                old(self).table().insert(ip@, RateEntry { count: 0, since: now })
            } else {
                old(self).table()
            },
    {
        proof {
            lemma_pairs_map_lookup(self.pairs(), ip@);
        }
        match self.find(ip) {
            Some(i) => {
                let entry = self.entries[i].1;
                let stale = if now >= entry.since {
                    now - entry.since >= RATE_WINDOW_NANOS
                } else {
                    false
                };
                if stale {
                    let name = self.entries[i].0.clone();
                    let reset = RateEntry { count: 0, since: now };
                    let ghost before = self.pairs();
                    self.entries.set(i, (name, reset));
                    proof {
                        assert(self.pairs() =~= before.update(i as int, (before[i as int].0, reset)));
                        lemma_pairs_map_update(before, i as int, reset);
                    }
                }
            },
            None => {},
        }
    }

    /// Counts one request from `ip` at time `now`. Only requests within the
    /// client's current one-minute window count: where its window has ended
    /// (or it has none) a new one begins now with the count at 0; then the
    /// count goes up by one. Returns the new count.
    pub fn count_request(&mut self, ip: &str, now: u64) -> (count: u32)
        requires
            old(self).wf(),
            count_in_window(old(self).table(), ip@, now) < u32::MAX,
        ensures
            final(self).wf(),
            count == count_in_window(old(self).table(), ip@, now) + 1,
            final(self).table() == old(self).table().insert(
                ip@,
                RateEntry { count, since: window_start(old(self).table(), ip@, now) },
            ),
    {
        self.restart_if_stale(ip, now);
        self.bump(ip, 1, now)
    }

    /// Drops every entry whose window has ended at time `now`.
    pub fn evict_stale(&mut self, now: u64)
        requires
            old(self).wf(),
        ensures
            final(self).wf(),
            final(self).table() == fresh_part(old(self).table(), now),
    {
        let ghost all = self.pairs();
        let mut kept: Vec<(String, RateEntry)> = Vec::new();
        let mut i: usize = 0;
        while i < self.entries.len()
            invariant
                i <= self.entries.len(),
                all == self.pairs(),
                distinct_keys(all),
                distinct_keys(rate_views(kept@)),
                forall|j: int|
                    0 <= j < kept.len() ==> exists|m: int|
                        0 <= m < i && (#[trigger] rate_views(kept@)[j]).0 == all[m].0,
                pairs_map(rate_views(kept@)) == fresh_part(pairs_map(all.take(i as int)), now),
            decreases self.entries.len() - i,
        {
            let entry = self.entries[i].1;
            let ghost before = rate_views(kept@);
            let ghost key = all[i as int].0;
            proof {
                lemma_pairs_map_lookup(all.take(i as int), key);
                assert(all.take(i + 1).drop_last() =~= all.take(i as int));
                assert forall|j: int| 0 <= j < before.len() implies before[j].0 != key by {
                    let m = choose|m: int| 0 <= m < i && before[j].0 == all[m].0;
                    assert(all[m].0 != all[i as int].0);
                }
                assert(!pairs_map(all.take(i as int)).dom().contains(key)) by {
                    if pairs_map(all.take(i as int)).dom().contains(key) {
                        let m = choose|m: int| 0 <= m < i && all.take(i as int)[m].0 == key;
                        assert(all[m].0 == key);
                    }
                }
            }
            let fresh = if now >= entry.since {
                now - entry.since < RATE_WINDOW_NANOS
            } else {
                true
            };
            if fresh {
                let name = self.entries[i].0.clone();
                kept.push((name, entry));
                proof {
                    assert(rate_views(kept@) =~= before.push((key, entry)));
                    assert(rate_views(kept@).drop_last() =~= before);
                    assert forall|j: int| 0 <= j < kept.len() implies exists|m: int|
                        0 <= m < i + 1 && (#[trigger] rate_views(kept@)[j]).0 == all[m].0 by {
                        if j < before.len() {
                            assert(rate_views(kept@)[j] == before[j]);
                        } else {
                            assert(rate_views(kept@)[j].0 == all[i as int].0);
                        }
                    }
                    assert(fresh_part(pairs_map(all.take(i + 1)), now) =~= fresh_part(
                        pairs_map(all.take(i as int)),
                        now,
                    ).insert(key, entry));
                }
            } else {
                proof {
                    assert(fresh_part(pairs_map(all.take(i + 1)), now) =~= fresh_part(
                        pairs_map(all.take(i as int)),
                        now,
                    ));
                }
            }
            i = i + 1;
        }
        assert(all.take(self.entries.len() as int) =~= all);
        self.entries = kept;
    }

    /// Applies a count announced by a peer for `ip` at time `now`: ended
    /// windows are dropped first, then the count of `ip` goes up by
    /// `increment` (a client without an entry starts at 0 with its window
    /// beginning now). Returns the new count.
    pub fn sync_from_peer(&mut self, ip: &str, increment: u32, now: u64) -> (count: u32)
        requires
            old(self).wf(),
            count_in(fresh_part(old(self).table(), now), ip@) + increment <= u32::MAX,
        ensures
            final(self).wf(),
            count == count_in(fresh_part(old(self).table(), now), ip@) + increment,
            final(self).table() == fresh_part(old(self).table(), now).insert(
                ip@,
                RateEntry { count, since: since_in(fresh_part(old(self).table(), now), ip@, now) },
            ),
    {
        self.evict_stale(now);
        proof {
            lemma_pairs_map_lookup(self.pairs(), ip@);
        }
        match self.find(ip) {
            Some(i) => {
                let entry = self.entries[i].1;
                let stale = if now >= entry.since {
                    now - entry.since >= RATE_WINDOW_NANOS
                } else {
                    false
                };
                if stale {
                    let name = self.entries[i].0.clone();
                    let reset = RateEntry { count: 0, since: now };
                    self.entries.set(i, (name, reset));
                }
            },
            None => {},
        }
        self.bump(ip, increment, now)
    }
}

/// The first ten requests of a client in a window are admitted and every later
/// one is refused: when a client without a current window makes requests one
/// after another, all within one minute of the first, the `k`-th (from 1)
/// brings its count to `k` and is refused exactly when `k` is over the limit.
pub proof fn law_kth_request_count(
    tables: Seq<Map<Seq<char>, RateEntry>>,
    counts: Seq<u32>,
    nows: Seq<u64>,
    ip: Seq<char>,
    k: int,
)
    requires
        tables.len() == counts.len() + 1,
        nows.len() == counts.len(),
        counts.len() > 0,
        !(tables[0].dom().contains(ip) && is_fresh(tables[0][ip].since, nows[0])),
        forall|j: int| 0 <= j < nows.len() ==> nows[0] <= #[trigger] nows[j] && nows[j] - nows[0] < RATE_WINDOW_NANOS,
        forall|j: int|
            0 <= j < counts.len() ==> #[trigger] counts[j] == count_in_window(tables[j], ip, nows[j]) + 1
                && tables[j + 1] == tables[j].insert(
                ip,
                RateEntry { count: counts[j], since: window_start(tables[j], ip, nows[j]) },
            ),
        0 <= k < counts.len(),
    ensures
        counts[k] == k + 1,
        tables[k + 1][ip].since == nows[0],
        over_limit(counts[k] as nat) <==> k + 1 > RATE_LIMIT,
    decreases k,
{
    assert(counts[k] == count_in_window(tables[k], ip, nows[k]) + 1);
    assert(nows[0] <= nows[k] && nows[k] - nows[0] < RATE_WINDOW_NANOS);
    if k > 0 {
        law_kth_request_count(tables, counts, nows, ip, k - 1);
        assert(counts[k - 1] == count_in_window(tables[k - 1], ip, nows[k - 1]) + 1);
        assert(tables[k].dom().contains(ip));
        assert(is_fresh(tables[k][ip].since, nows[k]));
    } else {
        assert(nows[0] <= nows[0]);
    }
}


/// The window is one minute: an entry begun at least a minute before `now`
/// counts for nothing and a request then starts a new window at `now`, while
/// an entry begun less than a minute before `now` (or later) still counts
/// in full.
pub proof fn law_window_is_one_minute(m: Map<Seq<char>, RateEntry>, ip: Seq<char>, now: u64)
    requires
        m.dom().contains(ip),
    ensures
        now >= m[ip].since && now - m[ip].since >= 60_000_000_000 ==> count_in_window(m, ip, now) == 0
            && window_start(m, ip, now) == now && !fresh_part(m, now).dom().contains(ip),
        now < m[ip].since || now - m[ip].since < 60_000_000_000 ==> count_in_window(m, ip, now)
            == m[ip].count && window_start(m, ip, now) == m[ip].since && fresh_part(m, now).dom().contains(ip),
{
}

} // verus!
