//! The pool of model backends: weighted round-robin selection that can pass
//! over an excluded backend and backends marked slow, and the count of tokens
//! each backend has produced.

use vstd::prelude::*;
use crate::text::text_eq;
use crate::keyed::{pairs_map, distinct_keys, lemma_pairs_map_lookup, lemma_pairs_map_update};

verus! {

broadcast use vstd::string::group_string_axioms;

/// A model backend: where it listens, which model it serves, and its share of
/// the traffic.
pub struct Backend {
    pub url: String,
    pub model: String,
    pub weight: u32,
}

/// A backend as the contracts see it.
pub struct BackendView {
    pub url: Seq<char>,
    pub model: Seq<char>,
    pub weight: u32,
}

impl View for Backend {
    type V = BackendView;

    open spec fn view(&self) -> BackendView {
        BackendView { url: self.url@, model: self.model@, weight: self.weight }
    }
}

impl Backend {
    /// A backend with the given address, model and weight.
    pub fn new(url: String, model: String, weight: u32) -> (r: Backend)
        ensures
            r@ == (BackendView { url: url@, model: model@, weight }),
    {
        Backend { url, model, weight }
    }

    /// A copy of this backend.
    pub fn duplicate(&self) -> (r: Backend)
        ensures
            r@ == self@,
    {
        Backend { url: self.url.clone(), model: self.model.clone(), weight: self.weight }
    }
}

/// The weights of a list of backends.
pub open spec fn weights_of(backends: Seq<BackendView>) -> Seq<u32> {
    backends.map_values(|b: BackendView| b.weight)
}

/// The rotation that weighted round-robin walks through: the index of each
/// backend, repeated as many times as its weight, in the order of the list.
pub open spec fn weighted_order_of(weights: Seq<u32>) -> Seq<usize>
    decreases weights.len(),
{
    if weights.len() == 0 {
        Seq::empty()
    } else {
        weighted_order_of(weights.drop_last()) + Seq::new(
            weights.last() as nat,
            |_i: int| (weights.len() - 1) as usize,
        )
    }
}

/// `n` copies of `x` hold `n` of `x` and none of anything else.
proof fn lemma_repeat_count(n: nat, x: usize, y: usize)
    ensures
        Seq::new(n, |_i: int| x).to_multiset().count(y) == if y == x {
            n
        } else {
            0
        },
    decreases n,
{
    broadcast use vstd::seq_lib::group_to_multiset_ensures;

    if n > 0 {
        let s = Seq::new(n, |_i: int| x);
        let t = Seq::new((n - 1) as nat, |_i: int| x);
        lemma_repeat_count((n - 1) as nat, x, y);
        assert(s =~= t.push(x));
    }
}

/// Each backend appears in the rotation exactly as many times as its weight.
pub proof fn law_rotation_shares(weights: Seq<u32>, i: usize)
    requires
        weights.len() <= usize::MAX,
    ensures
        weighted_order_of(weights).to_multiset().count(i) == if (i as int) < weights.len() {
            weights[i as int] as nat
        } else {
            0
        },
    decreases weights.len(),
{
    broadcast use vstd::seq_lib::lemma_multiset_commutative;
    broadcast use vstd::seq_lib::group_to_multiset_ensures;

    if weights.len() > 0 {
        let front = weights.drop_last();
        let last = (weights.len() - 1) as usize;
        law_rotation_shares(front, i);
        lemma_repeat_count(weights.last() as nat, last, i);
        assert(weighted_order_of(weights).to_multiset() =~= weighted_order_of(front).to_multiset().add(
            Seq::new(weights.last() as nat, |_i: int| last).to_multiset(),
        ));
    }
}

/// Every entry of the rotation names a backend of the list.
pub proof fn lemma_weighted_order_in_range(weights: Seq<u32>)
    requires
        weights.len() <= usize::MAX,
    ensures
        forall|k: int|
            0 <= k < weighted_order_of(weights).len() ==> (#[trigger] weighted_order_of(weights)[k]
                as int) < weights.len(),
    decreases weights.len(),
{
    if weights.len() > 0 {
        let front = weights.drop_last();
        lemma_weighted_order_in_range(front);
        let all = weighted_order_of(weights);
        let head = weighted_order_of(front);
        assert forall|k: int| 0 <= k < all.len() implies (#[trigger] all[k] as int) < weights.len() by {
            if k < head.len() {
                assert(all[k] == head[k]);
            } else {
                assert(all[k] == (weights.len() - 1) as usize);
            }
        }
    }
}


/// What the statistics report: each backend address and each address that
/// tokens were counted for, with the tokens counted for it (0 where none were).
pub open spec fn stats_of(tokens: Map<Seq<char>, u64>, backends: Seq<BackendView>) -> Map<Seq<char>, u64> {
    Map::new(
        |k: Seq<char>|
            tokens.dom().contains(k) || exists|b: int| 0 <= b < backends.len() && (#[trigger] backends[b]).url == k,
        |k: Seq<char>| count_for(tokens, k) as u64,
    )
}

/// Whether `key` is one of the addresses in `pairs`.
fn has_key(pairs: &Vec<(String, u64)>, key: &str) -> (r: bool)
    ensures
        r == exists|i: int| 0 <= i < pairs.len() && (#[trigger] entry_views(pairs@)[i]).0 == key@,
{
    let mut i: usize = 0;
    while i < pairs.len()
        invariant
            i <= pairs.len(),
            forall|k: int| 0 <= k < i ==> (#[trigger] entry_views(pairs@)[k]).0 != key@,
        decreases pairs.len() - i,
    {
        if text_eq(pairs[i].0.as_str(), key) {
            assert(entry_views(pairs@)[i as int].0 == key@);
            return true;
        }
        i = i + 1;
    }
    false
}

/// Token counts per backend address.
pub struct TokenCounts {
    entries: Vec<(String, u64)>,
}

/// The view of the stored pairs.
pub open spec fn entry_views(entries: Seq<(String, u64)>) -> Seq<(Seq<char>, u64)> {
    entries.map_values(|e: (String, u64)| (e.0@, e.1))
}

/// The count recorded for `url` in `counts`, 0 where there is none.
pub open spec fn count_for(counts: Map<Seq<char>, u64>, url: Seq<char>) -> nat {
    if counts.dom().contains(url) {
        counts[url] as nat
    } else {
        0
    }
}

impl TokenCounts {
    /// The stored pairs, as contracts see them.
    pub closed spec fn pairs(&self) -> Seq<(Seq<char>, u64)> {
        entry_views(self.entries@)
    }

    /// The counts, by address.
    pub open spec fn counts(&self) -> Map<Seq<char>, u64> {
        pairs_map(self.pairs())
    }

    /// No address is stored twice.
    pub open spec fn wf(&self) -> bool {
        distinct_keys(self.pairs())
    }

    /// No counts yet.
    pub fn new() -> (r: TokenCounts)
        ensures
            r.wf(),
            r.counts() == Map::<Seq<char>, u64>::empty(),
    {
        let r = TokenCounts { entries: Vec::new() };
        assert(r.pairs() =~= Seq::<(Seq<char>, u64)>::empty());
        r
    }

    /// Where `url` is stored, if it is.
    fn find(&self, url: &str) -> (r: Option<usize>)
        requires
            self.wf(),
        ensures
            r matches Some(i) ==> i < self.pairs().len() && self.pairs()[i as int].0 == url@,
            r is None ==> forall|i: int| 0 <= i < self.pairs().len() ==> self.pairs()[i].0 != url@,
    {
        let mut i: usize = 0;
        while i < self.entries.len()
            invariant
                i <= self.entries.len(),
                forall|k: int| 0 <= k < i ==> self.pairs()[k].0 != url@,
            decreases self.entries.len() - i,
        {
            if text_eq(self.entries[i].0.as_str(), url) {
                return Some(i);
            }
            i = i + 1;
        }
        None
    }

    /// The count recorded for `url`, 0 where there is none.
    pub fn get(&self, url: &str) -> (r: u64)
        requires
            self.wf(),
        ensures
            r == count_for(self.counts(), url@),
    {
        proof {
            lemma_pairs_map_lookup(self.pairs(), url@);
        }
        match self.find(url) {
            Some(i) => self.entries[i].1,
            None => 0,
        }
    }

    /// Adds `count` to the count of `url`, which starts at 0.
    pub fn add(&mut self, url: &str, count: u64)
        requires
            old(self).wf(),
            count_for(old(self).counts(), url@) + count <= u64::MAX,
        ensures
            final(self).wf(),
            final(self).counts() == old(self).counts().insert(
                url@,
                (count_for(old(self).counts(), url@) + count) as u64,
            ),
    {
        proof {
            lemma_pairs_map_lookup(self.pairs(), url@);
        }
        match self.find(url) {
            Some(i) => {
                let name = self.entries[i].0.clone();
                let total = self.entries[i].1 + count;
                let ghost before = self.pairs();
                self.entries.set(i, (name, total));
                proof {
                    assert(self.pairs() =~= before.update(i as int, (before[i as int].0, total)));
                    lemma_pairs_map_update(before, i as int, total);
                }
            },
            None => {
                let ghost before = self.pairs();
                self.entries.push((url.to_string(), count));
                proof {
                    assert(self.pairs() =~= before.push((url@, count)));
                    assert(self.pairs().drop_last() =~= before);
                }
            },
        }
    }

    /// The recorded counts, one pair per address.
    pub fn to_pairs(&self) -> (r: Vec<(String, u64)>)
        requires
            self.wf(),
        ensures
            distinct_keys(entry_views(r@)),
            pairs_map(entry_views(r@)) == self.counts(),
    {
        let mut out: Vec<(String, u64)> = Vec::new();
        let mut i: usize = 0;
        while i < self.entries.len()
            invariant
                i <= self.entries.len(),
                out.len() == i,
                entry_views(out@) == self.pairs().take(i as int),
            decreases self.entries.len() - i,
        {
            let name = self.entries[i].0.clone();
            assert(name@ == self.entries@[i as int].0@);
            out.push((name, self.entries[i].1));
            assert(out@[i as int].0@ == self.entries@[i as int].0@);
            assert(entry_views(out@)[i as int] == self.pairs()[i as int]);
            assert(entry_views(out@) =~= self.pairs().take(i + 1));
            i = i + 1;
        }
        assert(self.pairs().take(self.entries.len() as int) =~= self.pairs());
        out
    }
}


/// `x % n` for `0 <= x < 2n`, without division.
proof fn lemma_wrap(x: int, n: int)
    requires
        0 < n,
        0 <= x < 2 * n,
    ensures
        x % n == if x < n {
            x
        } else {
            x - n
        },
{
    if x < n {
        vstd::arithmetic::div_mod::lemma_small_mod(x as nat, n as nat);
    } else {
        vstd::arithmetic::div_mod::lemma_small_mod((x - n) as nat, n as nat);
        vstd::arithmetic::div_mod::lemma_mod_sub_multiples_vanish(x, n);
    }
}

/// The address to pass over, as contracts see it.
pub open spec fn exclude_view(exclude: Option<&str>) -> Option<Seq<char>> {
    match exclude {
        Some(e) => Some(e@),
        None => None,
    }
}

/// The selection state of a pool: its backends, the weighted rotation, and
/// where in the rotation the next search starts.
pub struct PoolState {
    pub backends: Seq<BackendView>,
    pub order: Seq<usize>,
    pub cursor: nat,
}

impl PoolState {
    /// The rotation is the one the weights make, and the cursor points into it.
    pub open spec fn wf(self) -> bool {
        &&& self.backends.len() <= usize::MAX
        &&& self.order == weighted_order_of(weights_of(self.backends))
        &&& if self.order.len() == 0 {
            self.cursor == 0
        } else {
            self.cursor < self.order.len()
        }
    }

    /// The place in the rotation `offset` steps after the cursor.
    pub open spec fn position(self, offset: int) -> int {
        (self.cursor + offset) % (self.order.len() as int)
    }

    /// The backend `offset` steps after the cursor.
    pub open spec fn backend_at(self, offset: int) -> int {
        self.order[self.position(offset)] as int
    }

    /// The backend `offset` steps after the cursor may be chosen: it is not
    /// the excluded address, and it is not slow where slow ones are skipped.
    pub open spec fn eligible(
        self,
        offset: int,
        exclude: Option<Seq<char>>,
        skip_slow: bool,
        slow: Seq<bool>,
    ) -> bool {
        let b = self.backend_at(offset);
        &&& exclude matches Some(e) ==> self.backends[b].url != e
        &&& skip_slow ==> !slow[b]
    }

    /// `offset` is the first place after the cursor, in one turn of the
    /// rotation, whose backend may be chosen.
    pub open spec fn is_first_eligible(
        self,
        offset: int,
        exclude: Option<Seq<char>>,
        skip_slow: bool,
        slow: Seq<bool>,
    ) -> bool {
        &&& 0 <= offset < self.order.len()
        &&& self.eligible(offset, exclude, skip_slow, slow)
        &&& forall|o: int| 0 <= o < offset ==> !#[trigger] self.eligible(o, exclude, skip_slow, slow)
    }

    /// Some place in one turn of the rotation holds a backend that may be chosen.
    pub open spec fn has_eligible(
        self,
        exclude: Option<Seq<char>>,
        skip_slow: bool,
        slow: Seq<bool>,
    ) -> bool {
        exists|o: int| 0 <= o < self.order.len() && #[trigger] self.eligible(o, exclude, skip_slow, slow)
    }

    /// The same pool with the cursor at `c`.
    pub open spec fn with_cursor(self, c: nat) -> PoolState {
        PoolState { cursor: c, ..self }
    }

    /// Choosing the backend at `offset`: `pick` is that backend and the
    /// cursor moves just past its place.
    pub open spec fn takes(self, offset: int, pick: int, after: PoolState) -> bool {
        &&& pick == self.backend_at(offset)
        &&& after == self.with_cursor(((self.position(offset) + 1) % (self.order.len() as int)) as nat)
    }

    /// One selection from this state picks backend `pick` and leaves `after`:
    /// the first backend after the cursor that is neither excluded nor (where
    /// slow ones are skipped) slow; failing that, the first that is not
    /// excluded; failing that, backend 0 with the cursor unmoved.
    pub open spec fn selects(
        self,
        exclude: Option<Seq<char>>,
        skip_slow: bool,
        slow: Seq<bool>,
        pick: int,
        after: PoolState,
    ) -> bool {
        if self.has_eligible(exclude, skip_slow, slow) {
            exists|o: int| #[trigger]
                self.is_first_eligible(o, exclude, skip_slow, slow) && self.takes(o, pick, after)
        } else if self.has_eligible(exclude, false, slow) {
            exists|o: int| #[trigger]
                self.is_first_eligible(o, exclude, false, slow) && self.takes(o, pick, after)
        } else {
            pick == 0 && after == self
        }
    }
}

/// The backends, the weighted rotation with its cursor, and the token counts.
pub struct BackendPool {
    backends: Vec<Backend>,
    current_index: usize,
    weighted_order: Vec<usize>,
    token_counts: TokenCounts,
}

/// The views of a list of backends.
pub open spec fn backend_views(backends: Seq<Backend>) -> Seq<BackendView> {
    backends.map_values(|b: Backend| b@)
}

impl BackendPool {
    /// The selection state.
    pub closed spec fn state(&self) -> PoolState {
        PoolState {
            backends: backend_views(self.backends@),
            order: self.weighted_order@,
            cursor: self.current_index as nat,
        }
    }

    /// Tokens counted so far, by backend address.
    pub closed spec fn tokens(&self) -> Map<Seq<char>, u64> {
        self.token_counts.counts()
    }

    /// The token counts hold each address once.
    pub closed spec fn counts_wf(&self) -> bool {
        self.token_counts.wf()
    }

    /// The pool is well formed.
    pub open spec fn wf(&self) -> bool {
        self.state().wf() && self.counts_wf()
    }

    /// A pool over `backends`, with the rotation at its start and no tokens counted.
    pub fn new(backends: Vec<Backend>) -> (r: BackendPool)
        ensures
            r.wf(),
            r.state().backends == backend_views(backends@),
            r.state().order == weighted_order_of(weights_of(backend_views(backends@))),
            r.state().cursor == 0,
            r.tokens() == Map::<Seq<char>, u64>::empty(),
    {
        let ghost ws = weights_of(backend_views(backends@));
        let mut weighted_order: Vec<usize> = Vec::new();
        let mut index: usize = 0;
        while index < backends.len()
            invariant
                index <= backends.len(),
                ws == weights_of(backend_views(backends@)),
                weighted_order@ == weighted_order_of(ws.take(index as int)),
            decreases backends.len() - index,
        {
            let weight = backends[index].weight;
            let ghost before = weighted_order@;
            let mut k: u32 = 0;
            while k < weight
                invariant
                    k <= weight,
                    weighted_order@ == before + Seq::new(k as nat, |_i: int| index),
                decreases weight - k,
            {
                weighted_order.push(index);
                assert(weighted_order@ =~= before + Seq::new((k + 1) as nat, |_i: int| index));
                k = k + 1;
            }
            assert(ws.take(index + 1).drop_last() =~= ws.take(index as int));
            assert(ws[index as int] == weight);
            index = index + 1;
        }
        assert(ws.take(backends.len() as int) =~= ws);
        let r = BackendPool {
            backends,
            current_index: 0,
            weighted_order,
            token_counts: TokenCounts::new(),
        };
        r
    }

    /// The backends of the pool.
    pub fn backends(&self) -> (r: &Vec<Backend>)
        ensures
            backend_views(r@) == self.state().backends,
    {
        &self.backends
    }

    /// The first offset from the cursor, within one turn of the rotation, whose
    /// backend may be chosen.
    fn scan(&self, exclude: Option<&str>, skip_slow: bool, slow: &Vec<bool>) -> (r: Option<usize>)
        requires
            self.wf(),
            slow.len() == self.state().backends.len(),
        ensures
            r matches Some(o) ==> self.state().is_first_eligible(
                o as int,
                exclude_view(exclude),
                skip_slow,
                slow@,
            ),
            r is None ==> !self.state().has_eligible(exclude_view(exclude), skip_slow, slow@),
    {
        let ghost st = self.state();
        proof {
            lemma_weighted_order_in_range(weights_of(st.backends));
        }
        let len = self.weighted_order.len();
        let start = self.current_index;
        let mut offset: usize = 0;
        while offset < len
            invariant
                st == self.state(),
                st.wf(),
                len == st.order.len(),
                start == st.cursor,
                slow.len() == st.backends.len(),
                self.backends.len() == st.backends.len(),
                offset <= len,
                forall|k: int| 0 <= k < st.order.len() ==> (#[trigger] st.order[k] as int) < st.backends.len(),
                forall|o: int| 0 <= o < offset ==> !#[trigger] st.eligible(o, exclude_view(exclude), skip_slow, slow@),
            decreases len - offset,
        {
            let cand = if offset < len - start {
                start + offset
            } else {
                offset - (len - start)
            };
            proof {
                lemma_wrap(start + offset, len as int);
            }
            assert(cand as int == st.position(offset as int));
            let b = self.weighted_order[cand];
            assert(b as int == st.backend_at(offset as int));
            let mut ok = true;
            match exclude {
                Some(e) => {
                    if text_eq(self.backends[b].url.as_str(), e) {
                        ok = false;
                    }
                },
                None => {},
            }
            if skip_slow && slow[b] {
                ok = false;
            }
            assert(self.backends@[b as int]@ == st.backends[b as int]);
            if ok {
                assert(st.eligible(offset as int, exclude_view(exclude), skip_slow, slow@));
                return Some(offset);
            }
            assert(!st.eligible(offset as int, exclude_view(exclude), skip_slow, slow@));
            offset = offset + 1;
        }
        None
    }

    /// Chooses a backend by weighted round-robin and moves the cursor past it
    /// (see `PoolState::selects`). `slow[i]` tells whether backend `i` is
    /// currently marked slow.
    pub fn select_backend(&mut self, exclude: Option<&str>, skip_slow: bool, slow: &Vec<bool>) -> (pick: usize)
        requires
            old(self).wf(),
            old(self).state().backends.len() > 0,
            slow.len() == old(self).state().backends.len(),
        ensures
            final(self).wf(),
            final(self).tokens() == old(self).tokens(),
            pick < old(self).state().backends.len(),
            old(self).state().selects(exclude_view(exclude), skip_slow, slow@, pick as int, final(self).state()),
    {
        let ghost st = self.state();
        proof {
            lemma_weighted_order_in_range(weights_of(st.backends));
        }
        let first = self.scan(exclude, skip_slow, slow);
        let found = match first {
            Some(o) => Some(o),
            None => self.scan(exclude, false, slow),
        };
        match found {
            Some(offset) => {
                let len = self.weighted_order.len();
                let start = self.current_index;
                let cand = if offset < len - start {
                    start + offset
                } else {
                    offset - (len - start)
                };
                proof {
                    lemma_wrap(start + offset, len as int);
                    lemma_wrap(cand + 1, len as int);
                }
                let next = if cand + 1 == len {
                    0
                } else {
                    cand + 1
                };
                let pick = self.weighted_order[cand];
                self.current_index = next;
                assert(st.takes(offset as int, pick as int, self.state()));
                pick
            },
            None => 0,
        }
    }

    /// The next backend by weighted round-robin, passing over slow ones where
    /// another is available.
    pub fn next(&mut self, slow: &Vec<bool>) -> (r: Backend)
        requires
            old(self).wf(),
            old(self).state().backends.len() > 0,
            slow.len() == old(self).state().backends.len(),
        ensures
            final(self).wf(),
            final(self).tokens() == old(self).tokens(),
            exists|pick: int|
                old(self).state().selects(None, true, slow@, pick, final(self).state())
                    && 0 <= pick < old(self).state().backends.len()
                    && r@ == #[trigger] old(self).state().backends[pick],
    {
        let pick = self.select_backend(None, true, slow);
        let r = self.backends[pick].duplicate();
        assert(r@ == self.state().backends[pick as int]);
        r
    }

    /// The next backend by weighted round-robin other than the one at
    /// `exclude_url`, passing over slow ones where another is available.
    pub fn next_excluding(&mut self, exclude_url: &str, slow: &Vec<bool>) -> (r: Backend)
        requires
            old(self).wf(),
            old(self).state().backends.len() > 0,
            slow.len() == old(self).state().backends.len(),
        ensures
            final(self).wf(),
            final(self).tokens() == old(self).tokens(),
            exists|pick: int|
                old(self).state().selects(Some(exclude_url@), true, slow@, pick, final(self).state())
                    && 0 <= pick < old(self).state().backends.len()
                    && r@ == #[trigger] old(self).state().backends[pick],
    {
        let pick = self.select_backend(Some(exclude_url), true, slow);
        let r = self.backends[pick].duplicate();
        assert(r@ == self.state().backends[pick as int]);
        r
    }

    /// Adds `count` tokens to those counted for `url`.
    pub fn record_tokens(&mut self, url: &str, count: u64)
        requires
            old(self).wf(),
            count_for(old(self).tokens(), url@) + count <= u64::MAX,
        ensures
            final(self).wf(),
            final(self).state() == old(self).state(),
            final(self).tokens() == old(self).tokens().insert(
                url@,
                (count_for(old(self).tokens(), url@) + count) as u64,
            ),
    {
        self.token_counts.add(url, count);
    }

    /// The tokens counted for `url` so far, 0 where none were.
    pub fn tokens_for(&self, url: &str) -> (r: u64)
        requires
            self.wf(),
        ensures
            r == count_for(self.tokens(), url@),
    {
        self.token_counts.get(url)
    }

    /// The token counts, one pair per address: every backend of the pool
    /// (0 where nothing was counted for it) and every other address that
    /// tokens were counted for (see `stats_of`).
    pub fn get_stats(&self) -> (r: Vec<(String, u64)>)
        requires
            self.wf(),
        ensures
            distinct_keys(entry_views(r@)),
            pairs_map(entry_views(r@)) == stats_of(self.tokens(), self.state().backends),
    {
        let mut out = self.token_counts.to_pairs();
        let ghost views = backend_views(self.backends@);
        proof {
            assert(stats_of(self.tokens(), views.take(0)) =~= self.tokens());
        }
        let mut i: usize = 0;
        while i < self.backends.len()
            invariant
                i <= self.backends.len(),
                views == backend_views(self.backends@),
                distinct_keys(entry_views(out@)),
                pairs_map(entry_views(out@)) == stats_of(self.tokens(), views.take(i as int)),
            decreases self.backends.len() - i,
        {
            let url = self.backends[i].url.clone();
            let ghost before = entry_views(out@);
            let ghost key = url@;
            assert(key == views[i as int].url);
            proof {
                lemma_pairs_map_lookup(before, key);
                assert(views.take(i + 1).drop_last() =~= views.take(i as int));
            }
            if !has_key(&out, url.as_str()) {
                out.push((url, 0));
                proof {
                    assert(entry_views(out@) =~= before.push((key, 0u64)));
                    assert(entry_views(out@).drop_last() =~= before);
                    let prev = stats_of(self.tokens(), views.take(i as int));
                    let next = stats_of(self.tokens(), views.take(i + 1));
                    assert(!prev.dom().contains(key));
                    assert(!self.tokens().dom().contains(key));
                    assert(views.take(i + 1)[i as int].url == key);
                    assert forall|k: Seq<char>| next.dom().contains(k) <==> prev.insert(key, 0).dom().contains(k) by {
                        if next.dom().contains(k) && !self.tokens().dom().contains(k) && k != key {
                            let b = choose|b: int| 0 <= b < i + 1 && (#[trigger] views.take(i + 1)[b]).url == k;
                            assert(views.take(i as int)[b] == views.take(i + 1)[b]);
                        }
                        if prev.dom().contains(k) && !self.tokens().dom().contains(k) {
                            let b = choose|b: int| 0 <= b < i && (#[trigger] views.take(i as int)[b]).url == k;
                            assert(views.take(i as int)[b] == views.take(i + 1)[b]);
                        }
                    }
                    assert(stats_of(self.tokens(), views.take(i + 1)) =~= stats_of(
                        self.tokens(),
                        views.take(i as int),
                    ).insert(key, 0));
                }
            } else {
                proof {
                    let prev = stats_of(self.tokens(), views.take(i as int));
                    let next = stats_of(self.tokens(), views.take(i + 1));
                    assert(prev.dom().contains(key));
                    assert forall|k: Seq<char>| next.dom().contains(k) <==> prev.dom().contains(k) by {
                        if next.dom().contains(k) && !self.tokens().dom().contains(k) && k != key {
                            let b = choose|b: int| 0 <= b < i + 1 && (#[trigger] views.take(i + 1)[b]).url == k;
                            assert(views.take(i as int)[b] == views.take(i + 1)[b]);
                        }
                        if prev.dom().contains(k) && !self.tokens().dom().contains(k) {
                            let b = choose|b: int| 0 <= b < i && (#[trigger] views.take(i as int)[b]).url == k;
                            assert(views.take(i as int)[b] == views.take(i + 1)[b]);
                        }
                    }
                    assert(stats_of(self.tokens(), views.take(i + 1)) =~= stats_of(
                        self.tokens(),
                        views.take(i as int),
                    ));
                }
            }
            i = i + 1;
        }
        assert(views.take(self.backends.len() as int) =~= views);
        out
    }
}


/// How many times backend `b` occurs among `picks`.
pub open spec fn times_chosen(picks: Seq<int>, b: int) -> nat {
    picks.to_multiset().count(b)
}

/// No backend is marked slow.
pub open spec fn none_slow(slow: Seq<bool>) -> bool {
    forall|b: int| 0 <= b < slow.len() ==> !#[trigger] slow[b]
}

proof fn lemma_count_as_int(s: Seq<usize>, b: usize)
    ensures
        s.map_values(|x: usize| x as int).to_multiset().count(b as int) == s.to_multiset().count(b),
    decreases s.len(),
{
    broadcast use vstd::seq_lib::group_to_multiset_ensures;

    if s.len() > 0 {
        let front = s.drop_last();
        lemma_count_as_int(front, b);
        assert(s =~= front.push(s.last()));
        assert(s.map_values(|x: usize| x as int) =~= front.map_values(|x: usize| x as int).push(
            s.last() as int,
        ));
    }
}

/// A turn of the rotation that starts at the cursor holds what the rotation holds.
proof fn lemma_turn_multiset(order: Seq<usize>, c: int)
    requires
        0 <= c < order.len(),
    ensures
        Seq::new(order.len(), |k: int| order[(c + k) % (order.len() as int)]).to_multiset()
            == order.to_multiset(),
{
    broadcast use vstd::seq_lib::lemma_multiset_commutative;

    let n = order.len() as int;
    let turn = Seq::new(order.len(), |k: int| order[(c + k) % n]);
    assert forall|k: int| 0 <= k < n implies #[trigger] turn[k] == (order.skip(c) + order.take(c))[k] by {
        lemma_wrap(c + k, n);
    }
    assert(turn =~= order.skip(c) + order.take(c));
    assert(order.take(c) + order.skip(c) =~= order);
    assert(turn.to_multiset() =~= order.take(c).to_multiset().add(order.skip(c).to_multiset()));
}

/// A selection that excludes nothing, in a pool where nothing is slow, takes
/// the backend at the cursor and moves the cursor one place on.
pub proof fn law_plain_selection_takes_cursor(
    st: PoolState,
    skip_slow: bool,
    slow: Seq<bool>,
    pick: int,
    after: PoolState,
)
    requires
        st.wf(),
        st.order.len() > 0,
        slow.len() == st.backends.len(),
        none_slow(slow),
        st.selects(None, skip_slow, slow, pick, after),
    ensures
        pick == st.order[st.cursor as int],
        after == st.with_cursor(((st.cursor + 1) % st.order.len()) as nat),
{
    lemma_weighted_order_in_range(weights_of(st.backends));
    let n = st.order.len() as int;
    vstd::arithmetic::div_mod::lemma_small_mod(st.cursor, n as nat);
    assert(st.position(0) == st.cursor);
    assert(st.eligible(0, None, skip_slow, slow));
    assert(st.has_eligible(None, skip_slow, slow));
    let o = choose|o: int| #[trigger]
        st.is_first_eligible(o, None, skip_slow, slow) && st.takes(o, pick, after);
    if o > 0 {
        assert(!st.eligible(0, None, skip_slow, slow));
    }
}

/// The first `j` selections of a turn take the rotation in order from the cursor.
proof fn lemma_turn_prefix(
    states: Seq<PoolState>,
    picks: Seq<int>,
    skip_slow: bool,
    slow: Seq<bool>,
    j: int,
)
    requires
        states.len() == picks.len() + 1,
        states[0].wf(),
        states[0].order.len() > 0,
        picks.len() == states[0].order.len(),
        slow.len() == states[0].backends.len(),
        none_slow(slow),
        0 <= j <= picks.len(),
        forall|jj: int|
            0 <= jj < picks.len() ==> #[trigger] states[jj].selects(
                None,
                skip_slow,
                slow,
                picks[jj],
                states[jj + 1],
            ),
    ensures
        states[j] == states[0].with_cursor(
            ((states[0].cursor + j) % (states[0].order.len() as int)) as nat,
        ),
        forall|k: int|
            0 <= k < j ==> picks[k] == states[0].order[(states[0].cursor + k) % (
            states[0].order.len() as int)] as int,
    decreases j,
{
    let st = states[0];
    let n = st.order.len() as int;
    let c = st.cursor as int;
    if j == 0 {
        vstd::arithmetic::div_mod::lemma_small_mod(st.cursor, n as nat);
        assert(st.with_cursor(st.cursor) == st);
    } else {
        lemma_turn_prefix(states, picks, skip_slow, slow, j - 1);
        let sj = states[j - 1];
        vstd::arithmetic::div_mod::lemma_mod_bound(c + j - 1, n);
        assert(sj.wf());
        assert(states[j - 1].selects(None, skip_slow, slow, picks[j - 1], states[(j - 1) + 1]));
        law_plain_selection_takes_cursor(sj, skip_slow, slow, picks[j - 1], states[j]);
        lemma_wrap(c + j - 1, n);
        lemma_wrap(c + j, n);
        lemma_wrap((c + j - 1) % n + 1, n);
    }
}

/// Weighted round-robin shares: over one full turn of the rotation (as many
/// selections as the rotation is long), selections that exclude nothing, in a
/// pool where nothing is slow, choose every backend exactly as often as its
/// weight.
pub proof fn law_full_turn_shares(
    states: Seq<PoolState>,
    picks: Seq<int>,
    skip_slow: bool,
    slow: Seq<bool>,
    b: usize,
)
    requires
        states.len() == picks.len() + 1,
        states[0].wf(),
        picks.len() == states[0].order.len(),
        slow.len() == states[0].backends.len(),
        none_slow(slow),
        forall|j: int|
            0 <= j < picks.len() ==> #[trigger] states[j].selects(
                None,
                skip_slow,
                slow,
                picks[j],
                states[j + 1],
            ),
    ensures
        times_chosen(picks, b as int) == if (b as int) < states[0].backends.len() {
            states[0].backends[b as int].weight as nat
        } else {
            0
        },
{
    let st = states[0];
    let n = st.order.len() as int;
    let c = st.cursor as int;
    if n == 0 {
        assert(picks =~= Seq::<int>::empty());
        law_rotation_shares(weights_of(st.backends), b);
        assert(st.order =~= Seq::<usize>::empty());
        broadcast use vstd::seq_lib::group_to_multiset_ensures;
        if (b as int) < st.backends.len() {
            assert(weights_of(st.backends)[b as int] == st.backends[b as int].weight);
        }
    } else {
        let turn = Seq::new(st.order.len(), |k: int| st.order[(c + k) % n]);
        lemma_turn_prefix(states, picks, skip_slow, slow, n);
        assert(picks =~= turn.map_values(|x: usize| x as int));
        lemma_count_as_int(turn, b);
        lemma_turn_multiset(st.order, c);
        law_rotation_shares(weights_of(st.backends), b);
        if (b as int) < st.backends.len() {
            assert(weights_of(st.backends)[b as int] == st.backends[b as int].weight);
        }
    }
}

/// Exclusion: where the rotation holds any backend whose address is not the
/// excluded one, the backend chosen does not have the excluded address.
pub proof fn law_excluded_address_avoided(
    st: PoolState,
    exclude: Seq<char>,
    skip_slow: bool,
    slow: Seq<bool>,
    pick: int,
    after: PoolState,
)
    requires
        st.wf(),
        slow.len() == st.backends.len(),
        st.selects(Some(exclude), skip_slow, slow, pick, after),
        exists|k: int| 0 <= k < st.order.len() && st.backends[#[trigger] st.order[k] as int].url != exclude,
    ensures
        st.backends[pick].url != exclude,
{
    let k = choose|k: int| 0 <= k < st.order.len() && st.backends[#[trigger] st.order[k] as int].url != exclude;
    let n = st.order.len() as int;
    let c = st.cursor as int;
    let o = if k >= c { k - c } else { k + n - c };
    lemma_wrap(c + o, n);
    assert(st.position(o) == k);
    assert(st.eligible(o, Some(exclude), false, slow));
    assert(st.has_eligible(Some(exclude), false, slow));
}

/// Slow backends are passed over: where slow ones are skipped and the rotation
/// holds a backend that is neither slow nor excluded, the backend chosen is
/// not slow.
pub proof fn law_slow_backend_avoided(
    st: PoolState,
    exclude: Option<Seq<char>>,
    slow: Seq<bool>,
    pick: int,
    after: PoolState,
)
    requires
        st.wf(),
        slow.len() == st.backends.len(),
        st.selects(exclude, true, slow, pick, after),
        exists|k: int|
            0 <= k < st.order.len() && !slow[#[trigger] st.order[k] as int] && (exclude matches Some(
                e,
            ) ==> st.backends[st.order[k] as int].url != e),
    ensures
        0 <= pick < st.backends.len(),
        !slow[pick],
{
    lemma_weighted_order_in_range(weights_of(st.backends));
    let k = choose|k: int|
        0 <= k < st.order.len() && !slow[#[trigger] st.order[k] as int] && (exclude matches Some(
            e,
        ) ==> st.backends[st.order[k] as int].url != e);
    let n = st.order.len() as int;
    let c = st.cursor as int;
    let o = if k >= c { k - c } else { k + n - c };
    lemma_wrap(c + o, n);
    assert(st.position(o) == k);
    assert(st.eligible(o, exclude, true, slow));
    assert(st.has_eligible(exclude, true, slow));
}


/// The sum of the counts recorded for `url` in a run of recordings, the
/// `j`-th adding `counts[j]` to `urls[j]`.
pub open spec fn recorded_sum(urls: Seq<Seq<char>>, counts: Seq<u64>, url: Seq<char>) -> nat
    decreases urls.len(),
{
    if urls.len() == 0 {
        0
    } else {
        recorded_sum(urls.drop_last(), counts.drop_last(), url) + if urls.last() == url {
            counts[urls.len() - 1] as nat
        } else {
            0
        }
    }
}

/// The statistics add up: after a run of token recordings from no counts,
/// the statistics give each address the sum of what was recorded for it
/// (0 for a backend that nothing was recorded for).
pub proof fn law_stats_sum_recorded(
    tokens: Seq<Map<Seq<char>, u64>>,
    urls: Seq<Seq<char>>,
    counts: Seq<u64>,
    backends: Seq<BackendView>,
    url: Seq<char>,
    j: int,
)
    requires
        tokens.len() == urls.len() + 1,
        counts.len() == urls.len(),
        tokens[0] == Map::<Seq<char>, u64>::empty(),
        forall|i: int|
            0 <= i < urls.len() ==> count_for(#[trigger] tokens[i], urls[i]) + counts[i] <= u64::MAX
                && tokens[i + 1] == tokens[i].insert(
                urls[i],
                (count_for(tokens[i], urls[i]) + counts[i]) as u64,
            ),
        0 <= j <= urls.len(),
    ensures
        count_for(tokens[j], url) == recorded_sum(urls.take(j), counts.take(j), url),
        stats_of(tokens[j], backends).dom().contains(url) ==> stats_of(tokens[j], backends)[url]
            == recorded_sum(urls.take(j), counts.take(j), url),
    decreases j,
{
    if j > 0 {
        law_stats_sum_recorded(tokens, urls, counts, backends, url, j - 1);
        assert(urls.take(j).drop_last() =~= urls.take(j - 1));
        assert(counts.take(j).drop_last() =~= counts.take(j - 1));
        let i = j - 1;
        assert(count_for(tokens[i], urls[i]) + counts[i] <= u64::MAX);
    } else {
        assert(urls.take(0).len() == 0);
    }
}


/// The rotation lists the backends in the order of the list: an earlier place
/// never holds a later backend. With `law_rotation_shares` this fixes the
/// rotation: the first backend's copies, then the second's, and so on.
pub proof fn law_rotation_in_list_order(weights: Seq<u32>)
    requires
        weights.len() <= usize::MAX,
    ensures
        forall|a: int, b: int|
            0 <= a <= b < weighted_order_of(weights).len() ==> weighted_order_of(weights)[a]
                <= weighted_order_of(weights)[b],
    decreases weights.len(),
{
    if weights.len() > 0 {
        let front = weights.drop_last();
        law_rotation_in_list_order(front);
        lemma_weighted_order_in_range(front);
        let head = weighted_order_of(front);
        let all = weighted_order_of(weights);
        let last = (weights.len() - 1) as usize;
        assert forall|a: int, b: int| 0 <= a <= b < all.len() implies all[a] <= all[b] by {
            if b < head.len() {
                assert(all[a] == head[a] && all[b] == head[b]);
            } else if a < head.len() {
                assert(all[a] == head[a]);
                assert(all[b] == last);
            } else {
                assert(all[a] == last && all[b] == last);
            }
        }
    }
}

/// The first request to a new pool, with nothing excluded and nothing slow,
/// goes to the first backend of the list whose weight is not zero.
pub proof fn law_first_pick_is_first_weighted(
    backends: Seq<BackendView>,
    skip_slow: bool,
    slow: Seq<bool>,
    pick: int,
    after: PoolState,
)
    requires
        backends.len() <= usize::MAX,
        slow.len() == backends.len(),
        none_slow(slow),
        exists|j: int| 0 <= j < backends.len() && #[trigger] backends[j].weight > 0,
        (PoolState {
            backends,
            order: weighted_order_of(weights_of(backends)),
            cursor: 0,
        }).selects(None, skip_slow, slow, pick, after),
    ensures
        0 <= pick < backends.len(),
        backends[pick].weight > 0,
        forall|j: int| 0 <= j < pick ==> #[trigger] backends[j].weight == 0,
{
    broadcast use vstd::seq_lib::group_to_multiset_ensures;

    let ws = weights_of(backends);
    let st = PoolState { backends, order: weighted_order_of(ws), cursor: 0 };
    let j0 = choose|j: int| 0 <= j < backends.len() && #[trigger] backends[j].weight > 0;
    law_rotation_shares(ws, j0 as usize);
    assert(ws[j0] == backends[j0].weight);
    assert(st.order.to_multiset().count(j0 as usize) > 0);
    assert(st.order.len() > 0);
    law_plain_selection_takes_cursor(st, skip_slow, slow, pick, after);
    lemma_weighted_order_in_range(ws);
    law_rotation_in_list_order(ws);
    let p0 = st.order[0];
    assert(pick == p0 as int);
    law_rotation_shares(ws, p0);
    assert(st.order.contains(p0));
    assert(ws[pick] == backends[pick].weight);
    assert forall|j: int| 0 <= j < pick implies #[trigger] backends[j].weight == 0 by {
        if backends[j].weight > 0 {
            law_rotation_shares(ws, j as usize);
            assert(ws[j] == backends[j].weight);
            assert(st.order.to_multiset().count(j as usize) > 0);
            assert(st.order.contains(j as usize));
            let k = choose|k: int| 0 <= k < st.order.len() && st.order[k] == j as usize;
            assert(st.order[0] <= st.order[k]);
        }
    }
}

} // verus!
