//! The token refresh coordinator: decides when a token must be refreshed
//! and guarantees at most one in-flight refresh per credential id.
//!
//! The network call itself is a collaborator's job; the pool's caller claims
//! the per-id slot with `begin_refresh`, performs the exchange outside any
//! lock, writes the result back into the pool, and releases the slot with
//! `end_refresh`. A caller that fails to claim the slot waits for the
//! holder's result instead of issuing a second network call.

use vstd::prelude::*;
use crate::tracker::PoolConfig;

verus! {

/// Whether a token must be refreshed before use at time `now`: expiry
/// unknown, already past, or within the safety margin.
pub open spec fn token_stale(expires_at: Option<u64>, now: u64, margin: u64) -> bool {
    match expires_at {
        Option::None => true,
        Option::Some(t) => t <= now + margin,
    }
}

/// Decide whether a token with this expiry needs a refresh at time `now`
/// (seconds).
pub fn needs_refresh(expires_at: Option<u64>, now: u64, cfg: PoolConfig) -> (r: bool)
    ensures
        r == token_stale(expires_at, now, cfg.refresh_margin_secs),
{
    match expires_at {
        Option::None => true,
        Option::Some(t) => {
            if cfg.refresh_margin_secs > u64::MAX - now {
                true
            } else {
                t <= now + cfg.refresh_margin_secs
            }
        },
    }
}

/// Per-id serialization of refreshes: the set of credential ids whose
/// refresh is currently in flight.
pub struct RefreshCoordinator {
    in_flight: Vec<u64>,
}

impl RefreshCoordinator {
    /// A refresh for `id` is currently in flight.
    pub closed spec fn refreshing(self, id: u64) -> bool {
        self.in_flight@.contains(id)
    }

    /// The in-flight list holds each id at most once.
    pub closed spec fn wf(self) -> bool {
        forall|i: int, j: int|
            0 <= i < j < self.in_flight@.len() ==> self.in_flight@[i] != self.in_flight@[j]
    }

    /// What a slot claim does: it succeeds exactly when no refresh for the
    /// id was in flight, marks the id in flight, and touches no other id.
    pub open spec fn claim_post(pre: Self, post: Self, id: u64, granted: bool) -> bool {
        &&& granted == !pre.refreshing(id)
        &&& post.refreshing(id)
        &&& forall|x: u64| x != id ==> post.refreshing(x) == pre.refreshing(x)
    }

    pub fn new() -> (r: Self)
        ensures
            r.wf(),
            forall|x: u64| !r.refreshing(x),
    {
        RefreshCoordinator { in_flight: Vec::new() }
    }

    /// Claim the refresh slot for `id`. Returns whether this caller must
    /// perform the refresh; on `false` a refresh is already in flight and
    /// the caller should wait for its result.
    pub fn begin_refresh(&mut self, id: u64) -> (granted: bool)
        requires
            old(self).wf(),
        ensures
            final(self).wf(),
            Self::claim_post(*old(self), *final(self), id, granted),
            !granted ==> *final(self) == *old(self),
    {
        let mut i: usize = 0;
        while i < self.in_flight.len()
            invariant
                *self == *old(self),
                old(self).wf(),
                i <= self.in_flight@.len(),
                forall|j: int| 0 <= j < i ==> self.in_flight@[j] != id,
            decreases self.in_flight@.len() - i,
        {
            if self.in_flight[i] == id {
                return false;
            }
            i = i + 1;
        }
        self.in_flight.push(id);
        proof {
            assert(self.in_flight@.last() == id);
            assert(self.in_flight@.contains(id));
            assert forall|x: u64| x != id implies self.in_flight@.contains(x)
                == old(self).in_flight@.contains(x) by {
                if old(self).in_flight@.contains(x) {
                    let k = choose|k: int|
                        0 <= k < old(self).in_flight@.len() && old(self).in_flight@[k] == x;
                    assert(self.in_flight@[k] == x);
                }
                if self.in_flight@.contains(x) {
                    let k = choose|k: int|
                        0 <= k < self.in_flight@.len() && self.in_flight@[k] == x;
                    assert(k < old(self).in_flight@.len());
                    assert(old(self).in_flight@[k] == x);
                }
            }
        }
        true
    }

    /// Release the refresh slot for `id` (on every exit path, success or
    /// failure, so no stuck "refresh in progress" state can leak).
    pub fn end_refresh(&mut self, id: u64)
        requires
            old(self).wf(),
        ensures
            final(self).wf(),
            !final(self).refreshing(id),
            forall|x: u64| x != id ==> final(self).refreshing(x) == old(self).refreshing(x),
    {
        let mut i: usize = 0;
        while i < self.in_flight.len()
            invariant
                old(self).wf(),
                self.in_flight@ == old(self).in_flight@,
                i <= self.in_flight@.len(),
                forall|j: int| 0 <= j < i ==> self.in_flight@[j] != id,
            decreases self.in_flight@.len() - i,
        {
            if self.in_flight[i] == id {
                self.in_flight.remove(i);
                proof {
                    let pre = old(self).in_flight@;
                    let post = self.in_flight@;
                    assert(post =~= pre.take(i as int) + pre.skip(i as int + 1));
                    assert forall|x: u64| x != id implies post.contains(x) == pre.contains(x) by {
                        if pre.contains(x) {
                            let k = choose|k: int| 0 <= k < pre.len() && pre[k] == x;
                            if k < i {
                                assert(post[k] == x);
                            } else {
                                assert(post[k - 1] == x);
                            }
                        }
                        if post.contains(x) {
                            let k = choose|k: int| 0 <= k < post.len() && post[k] == x;
                            if k < i {
                                assert(pre[k] == x);
                            } else {
                                assert(pre[k + 1] == x);
                            }
                        }
                    }
                    assert forall|k: int| 0 <= k < post.len() implies post[k] != id by {
                        if k < i {
                            assert(pre[k] != id);
                        } else {
                            assert(pre[k + 1] != id);
                        }
                    }
                    assert(!post.contains(id));
                }
                return ;
            }
            i = i + 1;
        }
        proof {
            assert(!self.in_flight@.contains(id));
        }
    }
}

/// Law: two back-to-back slot claims for the same id are never both
/// granted — concurrent acquirers of an expired credential trigger exactly
/// one refresh call between them.
pub proof fn lemma_at_most_one_claim(
    c0: RefreshCoordinator,
    c1: RefreshCoordinator,
    c2: RefreshCoordinator,
    id: u64,
    granted1: bool,
    granted2: bool,
)
    requires
        RefreshCoordinator::claim_post(c0, c1, id, granted1),
        RefreshCoordinator::claim_post(c1, c2, id, granted2),
    ensures
        !(granted1 && granted2),
{
}

} // verus!
