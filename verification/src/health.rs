//! Which backends are marked slow. A backend that answered slowly is marked,
//! peers share their marks, and a mark is cleared after a cooling period.

use vstd::prelude::*;
use crate::text::text_eq;
use crate::backend::{Backend, BackendView, PoolState, backend_views, weights_of, law_slow_backend_avoided, lemma_weighted_order_in_range};
use crate::keyed::{pairs_map, distinct_keys, lemma_pairs_map_lookup, lemma_pairs_map_update};

verus! {

/// The marks, by backend address; an address never marked has no entry.
pub struct HealthTable {
    entries: Vec<(String, bool)>,
}

/// The view of the stored pairs.
pub open spec fn mark_views(entries: Seq<(String, bool)>) -> Seq<(Seq<char>, bool)> {
    entries.map_values(|e: (String, bool)| (e.0@, e.1))
}

/// `url` is marked slow in `marks`.
pub open spec fn marked_slow(marks: Map<Seq<char>, bool>, url: Seq<char>) -> bool {
    marks.dom().contains(url) && marks[url]
}

/// For each backend, whether it is marked slow.
pub open spec fn slow_flags_of(marks: Map<Seq<char>, bool>, backends: Seq<BackendView>) -> Seq<bool> {
    backends.map_values(|b: BackendView| marked_slow(marks, b.url))
}

impl HealthTable {
    /// The stored pairs, as contracts see them.
    pub closed spec fn pairs(&self) -> Seq<(Seq<char>, bool)> {
        mark_views(self.entries@)
    }

    /// The marks, by address.
    pub open spec fn marks(&self) -> Map<Seq<char>, bool> {
        pairs_map(self.pairs())
    }

    /// No address is stored twice.
    pub open spec fn wf(&self) -> bool {
        distinct_keys(self.pairs())
    }

    /// No backend marked yet.
    pub fn new() -> (r: HealthTable)
        ensures
            r.wf(),
            r.marks() == Map::<Seq<char>, bool>::empty(),
    {
        let r = HealthTable { entries: Vec::new() };
        assert(r.pairs() =~= Seq::<(Seq<char>, bool)>::empty());
        r
    }

    fn find(&self, url: &str) -> (r: Option<usize>)
        requires
            self.wf(),
        ensures
            r matches Some(i) ==> i < self.pairs().len() && self.pairs()[i as int].0 == url@,
            r is None ==> forall|i: int| 0 <= i < self.pairs().len() ==> self.pairs()[i].0 != url@,
    {
        let mut i: usize = 0;
        while i < self.entries.len()
            invariant
                i <= self.entries.len(),
                forall|k: int| 0 <= k < i ==> self.pairs()[k].0 != url@,
            decreases self.entries.len() - i,
        {
            if text_eq(self.entries[i].0.as_str(), url) {
                return Some(i);
            }
            i = i + 1;
        }
        None
    }

    /// Records whether `url` is slow.
    pub fn set(&mut self, url: &str, slow: bool)
        requires
            old(self).wf(),
        ensures
            final(self).wf(),
            final(self).marks() == old(self).marks().insert(url@, slow),
    {
        match self.find(url) {
            Some(i) => {
                let name = self.entries[i].0.clone();
                let ghost before = self.pairs();
                self.entries.set(i, (name, slow));
                proof {
                    assert(self.pairs() =~= before.update(i as int, (before[i as int].0, slow)));
                    lemma_pairs_map_update(before, i as int, slow);
                }
            },
            None => {
                let ghost before = self.pairs();
                self.entries.push((url.to_string(), slow));
                proof {
                    assert(self.pairs() =~= before.push((url@, slow)));
                    assert(self.pairs().drop_last() =~= before);
                }
            },
        }
    }

    /// Whether `url` is marked slow.
    pub fn is_slow(&self, url: &str) -> (r: bool)
        requires
            self.wf(),
        ensures
            r == marked_slow(self.marks(), url@),
    {
        proof {
            lemma_pairs_map_lookup(self.pairs(), url@);
        }
        match self.find(url) {
            Some(i) => self.entries[i].1,
            None => false,
        }
    }

    /// For each backend of `backends`, in order, whether it is marked slow.
    pub fn slow_flags(&self, backends: &Vec<Backend>) -> (r: Vec<bool>)
        requires
            self.wf(),
        ensures
            r@ == slow_flags_of(self.marks(), backend_views(backends@)),
    {
        let ghost want = slow_flags_of(self.marks(), backend_views(backends@));
        let mut flags: Vec<bool> = Vec::new();
        let mut i: usize = 0;
        while i < backends.len()
            invariant
                self.wf(),
                i <= backends.len(),
                want == slow_flags_of(self.marks(), backend_views(backends@)),
                flags@ == want.take(i as int),
            decreases backends.len() - i,
        {
            let slow = self.is_slow(backends[i].url.as_str());
            flags.push(slow);
            assert(flags@ =~= want.take(i + 1));
            i = i + 1;
        }
        assert(want.take(backends.len() as int) =~= want);
        flags
    }
}


/// Slow marks steer selection: when a selection that skips slow backends is
/// given the flags of the current marks, and the rotation holds a backend that
/// is neither marked slow nor excluded, the backend chosen is not marked slow;
/// in particular a backend just marked slow is not chosen.
pub proof fn law_marked_backend_avoided(
    marks: Map<Seq<char>, bool>,
    st: PoolState,
    exclude: Option<Seq<char>>,
    pick: int,
    after: PoolState,
)
    requires
        st.wf(),
        st.selects(exclude, true, slow_flags_of(marks, st.backends), pick, after),
        exists|k: int|
            0 <= k < st.order.len() && !marked_slow(marks, st.backends[#[trigger] st.order[k] as int].url)
                && (exclude matches Some(e) ==> st.backends[st.order[k] as int].url != e),
    ensures
        0 <= pick < st.backends.len(),
        !marked_slow(marks, st.backends[pick].url),
{
    let slow = slow_flags_of(marks, st.backends);
    lemma_weighted_order_in_range(weights_of(st.backends));
    let k = choose|k: int|
        0 <= k < st.order.len() && !marked_slow(marks, st.backends[#[trigger] st.order[k] as int].url)
            && (exclude matches Some(e) ==> st.backends[st.order[k] as int].url != e);
    assert(!slow[st.order[k] as int]);
    law_slow_backend_avoided(st, exclude, slow, pick, after);
}

} // verus!
