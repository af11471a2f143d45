//! The decisions taken for one routing request: rate limiting, which backend
//! to try, what to do when it answers, fails or times out, and when to hand
//! the request to the peer router. The caller performs each action (calls
//! the backend, forwards to the peer, replies) and reports what happened.

use vstd::prelude::*;
use crate::backend::{BackendPool, count_for};
use crate::rate::{RateTable, RateEntry, count_in_window, window_start, over_limit, is_over_limit};

verus! {

/// How many backends a request is tried on before it is given up locally.
pub const MAX_ATTEMPTS: u32 = 2;

/// A backend that took longer than this (in milliseconds) to answer is marked slow.
pub const SLOW_THRESHOLD_MS: u64 = 2000;

/// The status of a request that is not answered with a model's output.
#[derive(Clone, Copy, PartialEq, Eq, Structural, Debug)]
pub enum RouteStatus {
    /// The client is over its rate limit.
    TooManyRequests,
    /// Every local attempt failed and there was no peer to try.
    InternalServerError,
    /// The request was forwarded to this router and failed here too, or the
    /// peer it was forwarded to failed.
    BadGateway,
}

/// Where a request stands.
#[derive(Clone, Copy, PartialEq, Eq, Structural, Debug)]
pub enum RouteState {
    /// Waiting for backend `backend` to answer attempt number `attempt`
    /// (from 1); `forwarded` tells whether a peer sent the request here.
    Trying { attempt: u32, backend: usize, forwarded: bool },
    /// Waiting for the peer to answer the forwarded request.
    Forwarding,
    /// The request has been answered.
    Finished,
}

/// What the caller does next.
#[derive(Clone, Copy, PartialEq, Eq, Structural, Debug)]
pub enum RouteAction {
    /// Send the prompt to backend `backend`.
    CallBackend { backend: usize },
    /// Answer with the backend's output; where `mark_slow`, mark that backend
    /// slow, and where `notify_peer`, tell the peer and clear the mark after
    /// the cooling period.
    Reply { mark_slow: bool, notify_peer: bool },
    /// Send the request to the peer, marked as forwarded.
    ForwardToPeer,
    /// Answer with the peer's answer.
    ReplyFromPeer,
    /// Answer with this status.
    Fail { status: RouteStatus },
}

/// How a request begins: the client's new request count, whether to tell the
/// peer about it, and the first state and action.
pub struct Admission {
    pub count: u32,
    pub sync_peer: bool,
    pub state: RouteState,
    pub action: RouteAction,
}

/// What happens once every local attempt has failed: a request that came
/// from a peer is never sent on again; otherwise it goes to the peer where
/// there is one, and fails where there is none.
pub open spec fn exhausted_outcome(forwarded: bool, peer_known: bool) -> (RouteState, RouteAction) {
    if !forwarded && peer_known {
        (RouteState::Forwarding, RouteAction::ForwardToPeer)
    } else if forwarded {
        (RouteState::Finished, RouteAction::Fail { status: RouteStatus::BadGateway })
    } else {
        (RouteState::Finished, RouteAction::Fail { status: RouteStatus::InternalServerError })
    }
}

/// What follows the failure of attempt `state->attempt`, with `pick` the
/// backend that the rotation gave next: another attempt on `pick` where
/// attempts remain, and otherwise `exhausted_outcome`.
pub open spec fn after_failure(state: RouteState, pick: int, peer_known: bool) -> (RouteState, RouteAction) {
    if state->attempt < MAX_ATTEMPTS {
        (
            RouteState::Trying {
                attempt: (state->attempt + 1) as u32,
                backend: pick as usize,
                forwarded: state->forwarded,
            },
            RouteAction::CallBackend { backend: pick as usize },
        )
    } else {
        exhausted_outcome(state->forwarded, peer_known)
    }
}

/// The tokens counted for an answer of `response_len` bytes.
pub open spec fn tokens_of(response_len: usize) -> u64 {
    ((response_len as u64) / 4) as u64
}

/// The state of the whole router that requests go through: its backends and
/// the request counts of its clients.
pub struct Router {
    pub pool: BackendPool,
    pub rates: RateTable,
}

impl Router {
    /// Both parts are well formed.
    pub open spec fn wf(&self) -> bool {
        self.pool.wf() && self.rates.wf()
    }

    /// A router over the given backends, with no requests counted.
    pub fn new(pool: BackendPool) -> (r: Router)
        requires
            pool.wf(),
        ensures
            r.wf(),
            r.pool == pool,
            r.rates.table() == Map::<Seq<char>, RateEntry>::empty(),
    {
        Router { pool, rates: RateTable::new() }
    }

    /// A request from `ip` arrives at time `now` (nanoseconds). It is counted
    /// in the client's current one-minute window (see
    /// `RateTable::count_request`); where a peer is known it is told of the
    /// request; a request that takes the client over its limit is refused;
    /// any other goes to the next backend by weighted round-robin (passing
    /// over slow ones where another is available), so backends are needed
    /// only for a request that is admitted. `slow[i]` tells whether backend
    /// `i` is marked slow.
    pub fn begin(
        &mut self,
        ip: &str,
        now: u64,
        forwarded: bool,
        peer_known: bool,
        slow: &Vec<bool>,
    ) -> (r: Admission)
        requires
            old(self).wf(),
            over_limit(count_in_window(old(self).rates.table(), ip@, now) + 1)
                || old(self).pool.state().backends.len() > 0,
            slow.len() == old(self).pool.state().backends.len(),
            count_in_window(old(self).rates.table(), ip@, now) < u32::MAX,
        ensures
            final(self).wf(),
            r.count == count_in_window(old(self).rates.table(), ip@, now) + 1,
            final(self).rates.table() == old(self).rates.table().insert(
                ip@,
                RateEntry { count: r.count, since: window_start(old(self).rates.table(), ip@, now) },
            ),
            r.sync_peer == peer_known,
            final(self).pool.tokens() == old(self).pool.tokens(),
            over_limit(r.count as nat) ==> {
                &&& r.state == RouteState::Finished
                &&& r.action == (RouteAction::Fail { status: RouteStatus::TooManyRequests })
                &&& final(self).pool == old(self).pool
            },
            !over_limit(r.count as nat) ==> exists|pick: int|
                #![trigger old(self).pool.state().backends[pick]]
                old(self).pool.state().selects(None, true, slow@, pick, final(self).pool.state())
                    && r.state == (RouteState::Trying { attempt: 1, backend: pick as usize, forwarded })
                    && r.action == (RouteAction::CallBackend { backend: pick as usize })
                    && 0 <= pick < old(self).pool.state().backends.len(),
    {
        let count = self.rates.count_request(ip, now);
        if is_over_limit(count) {
            return Admission {
                count,
                sync_peer: peer_known,
                state: RouteState::Finished,
                action: RouteAction::Fail { status: RouteStatus::TooManyRequests },
            };
        }
        let ghost before = self.pool.state();
        let pick = self.pool.select_backend(None, true, slow);
        assert(old(self).pool.state().backends[pick as int] == before.backends[pick as int]);
        Admission {
            count,
            sync_peer: peer_known,
            state: RouteState::Trying { attempt: 1, backend: pick, forwarded },
            action: RouteAction::CallBackend { backend: pick },
        }
    }

    /// The backend being tried answered with `response_len` bytes after
    /// `elapsed_ms` milliseconds. Its token count grows by a quarter of the
    /// length; the answer is passed on, and a backend slower than the
    /// threshold is marked slow (and the peer told, where one is known).
    pub fn on_answer(
        &mut self,
        state: RouteState,
        response_len: usize,
        elapsed_ms: u64,
        peer_known: bool,
    ) -> (r: (RouteState, RouteAction))
        requires
            old(self).wf(),
            state matches RouteState::Trying { backend, .. } && (backend as int) < old(
                self,
            ).pool.state().backends.len() && count_for(
                old(self).pool.tokens(),
                old(self).pool.state().backends[backend as int].url,
            ) + tokens_of(response_len) <= u64::MAX,
        ensures
            final(self).wf(),
            final(self).rates == old(self).rates,
            final(self).pool.state() == old(self).pool.state(),
            ({
                let url = old(self).pool.state().backends[state->backend as int].url;
                final(self).pool.tokens() == old(self).pool.tokens().insert(
                    url,
                    (count_for(old(self).pool.tokens(), url) + tokens_of(response_len)) as u64,
                )
            }),
            r.0 == RouteState::Finished,
            r.1 == (RouteAction::Reply {
                mark_slow: elapsed_ms > SLOW_THRESHOLD_MS,
                notify_peer: elapsed_ms > SLOW_THRESHOLD_MS && peer_known,
            }),
    {
        let backend = match state {
            RouteState::Trying { backend, .. } => backend,
            _ => 0,
        };
        let url = self.pool.backends()[backend].url.clone();
        let tokens = (response_len as u64) / 4;
        self.pool.record_tokens(url.as_str(), tokens);
        let slow = elapsed_ms > SLOW_THRESHOLD_MS;
        (RouteState::Finished, RouteAction::Reply { mark_slow: slow, notify_peer: slow && peer_known })
    }

    /// The backend being tried failed or timed out. The next backend other
    /// than the failed one is taken from the rotation; where attempts remain
    /// it is tried, and otherwise the request goes as `exhausted_outcome` says.
    pub fn on_failure(&mut self, state: RouteState, peer_known: bool, slow: &Vec<bool>) -> (r: (
        RouteState,
        RouteAction,
    ))
        requires
            old(self).wf(),
            old(self).pool.state().backends.len() > 0,
            slow.len() == old(self).pool.state().backends.len(),
            state matches RouteState::Trying { attempt, backend, .. } && 1 <= attempt <= MAX_ATTEMPTS
                && (backend as int) < old(self).pool.state().backends.len(),
        ensures
            final(self).wf(),
            final(self).rates == old(self).rates,
            final(self).pool.tokens() == old(self).pool.tokens(),
            exists|pick: int|
                #![trigger old(self).pool.state().backends[pick]]
                old(self).pool.state().selects(
                    Some(old(self).pool.state().backends[state->backend as int].url),
                    true,
                    slow@,
                    pick,
                    final(self).pool.state(),
                ) && 0 <= pick < old(self).pool.state().backends.len() && r == after_failure(
                    state,
                    pick,
                    peer_known,
                ),
    {
        let (attempt, backend, forwarded) = match state {
            RouteState::Trying { attempt, backend, forwarded } => (attempt, backend, forwarded),
            _ => (1, 0, false),
        };
        let url = self.pool.backends()[backend].url.clone();
        let ghost urls = self.pool.state().backends;
        assert(url@ == urls[backend as int].url);
        let pick = self.pool.select_backend(Some(url.as_str()), true, slow);
        assert(old(self).pool.state().backends[pick as int] == urls[pick as int]);
        if attempt < MAX_ATTEMPTS {
            let next = RouteState::Trying { attempt: attempt + 1, backend: pick, forwarded };
            return (next, RouteAction::CallBackend { backend: pick });
        }
        if !forwarded && peer_known {
            (RouteState::Forwarding, RouteAction::ForwardToPeer)
        } else if forwarded {
            (RouteState::Finished, RouteAction::Fail { status: RouteStatus::BadGateway })
        } else {
            (RouteState::Finished, RouteAction::Fail { status: RouteStatus::InternalServerError })
        }
    }
}

/// The peer answered the forwarded request: a good answer is passed on, and
/// anything else fails as a bad gateway.
pub fn on_peer_answer(ok: bool) -> (r: (RouteState, RouteAction))
    ensures
        r.0 == RouteState::Finished,
        r.1 == if ok {
            RouteAction::ReplyFromPeer
        } else {
            RouteAction::Fail { status: RouteStatus::BadGateway }
        },
{
    if ok {
        (RouteState::Finished, RouteAction::ReplyFromPeer)
    } else {
        (RouteState::Finished, RouteAction::Fail { status: RouteStatus::BadGateway })
    }
}


/// Loop prevention: a request that a peer forwarded here is never sent to a
/// peer again, and a local request goes to the peer exactly when all local
/// attempts failed and a peer is known.
pub proof fn law_no_forwarding_loop(state: RouteState, pick: int, peer_known: bool)
    requires
        state is Trying,
    ensures
        state->forwarded ==> after_failure(state, pick, peer_known).1 != RouteAction::ForwardToPeer,
        after_failure(state, pick, peer_known).1 == RouteAction::ForwardToPeer <==> (
        state->attempt >= MAX_ATTEMPTS && !state->forwarded && peer_known),
{
}

/// At most two attempts: from an attempt within the limit, a failure leads to
/// the next attempt within the limit or to no further local attempt, and the
/// last attempt's failure never calls a backend again.
pub proof fn law_attempts_bounded(state: RouteState, pick: int, peer_known: bool)
    requires
        state matches RouteState::Trying { attempt, .. } && 1 <= attempt <= MAX_ATTEMPTS,
    ensures
        after_failure(state, pick, peer_known).0 matches RouteState::Trying { attempt, .. }
            ==> 2 <= attempt <= MAX_ATTEMPTS,
        state->attempt == MAX_ATTEMPTS ==> !(after_failure(state, pick, peer_known).1 is CallBackend),
{
}


/// The answer once every local attempt has failed: a request that a peer
/// forwarded here always fails with bad gateway, whether or not this router
/// knows a peer; a local request goes to the peer where one is known and
/// fails with an internal server error where none is.
pub proof fn law_exhausted_answers(state: RouteState, pick: int, peer_known: bool)
    requires
        state matches RouteState::Trying { attempt, .. } && attempt >= MAX_ATTEMPTS,
    ensures
        state->forwarded ==> after_failure(state, pick, peer_known) == (
            RouteState::Finished,
            RouteAction::Fail { status: RouteStatus::BadGateway },
        ),
        !state->forwarded && !peer_known ==> after_failure(state, pick, peer_known) == (
            RouteState::Finished,
            RouteAction::Fail { status: RouteStatus::InternalServerError },
        ),
        !state->forwarded && peer_known ==> after_failure(state, pick, peer_known) == (
            RouteState::Forwarding,
            RouteAction::ForwardToPeer,
        ),
{
}

/// The tokens counted for an answer are a quarter of its length in bytes,
/// rounded down, for every length.
pub proof fn law_tokens_quarter_length(n: usize, m: usize)
    ensures
        tokens_of(n) as int == n as int / 4,
        n <= m ==> tokens_of(n) <= tokens_of(m),
        4 * (tokens_of(n) as int) <= (n as int) && (n as int) < 4 * (tokens_of(n) as int) + 4,
{
}

} // verus!
