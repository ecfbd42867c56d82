//! The per-peer timeout tracker: a map from peer address to the time of the
//! last activity the pool expects a reply for.  A peer is tracked exactly
//! while the pool is waiting to hear from it; a sweep evicts every peer whose
//! entry has aged past the configured timeout and reports each such peer once.

use vstd::prelude::*;

use crate::assoc::{
    assoc_map, lemma_assoc_dom, lemma_assoc_index, lemma_assoc_push, lemma_assoc_remove,
    lemma_assoc_update, unique_keys,
};
use crate::server::PeerAddr;

verus! {

/// A peer whose last activity was at `last` has gone silent by `now` under
/// timeout `timeout`: its age is at least the timeout.
pub open spec fn expired(last: u64, timeout: u64, now: u64) -> bool {
    now - last >= timeout
}

/// The bindings a sweep at `now` leaves in place: the peers not yet expired,
/// with their recorded times.
pub open spec fn survivors(m: Map<PeerAddr, u64>, timeout: u64, now: u64) -> Map<PeerAddr, u64> {
    Map::new(
        |a: PeerAddr| m.dom().contains(a) && !expired(m[a], timeout, now),
        |a: PeerAddr| m[a],
    )
}

/// The peers a sweep at `now` evicts and reports: those tracked and expired.
pub open spec fn timed_out(m: Map<PeerAddr, u64>, timeout: u64, now: u64) -> Set<PeerAddr> {
    Set::new(|a: PeerAddr| m.dom().contains(a) && expired(m[a], timeout, now))
}

/// Map from peer address to the last-activity time, in milliseconds of the
/// caller's clock.
pub struct PeerTimeoutTracker {
    entries: Vec<(PeerAddr, u64)>,
}

impl View for PeerTimeoutTracker {
    type V = Map<PeerAddr, u64>;

    closed spec fn view(&self) -> Map<PeerAddr, u64> {
        assoc_map(self.entries@)
    }
}

impl PeerTimeoutTracker {
    /// Internal shape: each peer address occurs at most once.
    pub closed spec fn wf(&self) -> bool {
        unique_keys(self.entries@)
    }

    /// An empty tracker: no peer is awaited.
    pub fn new() -> (r: PeerTimeoutTracker)
        ensures
            r.wf(),
            r@ == Map::<PeerAddr, u64>::empty(),
    {
        PeerTimeoutTracker { entries: Vec::new() }
    }

    /// Index of the entry for `addr`, if one exists.
    fn find(&self, addr: PeerAddr) -> (r: Option<usize>)
        ensures
            match r {
                Some(i) => i < self.entries@.len() && self.entries@[i as int].0 == addr,
                None => forall|j: int|
                    0 <= j < self.entries@.len() ==> (#[trigger] self.entries@[j]).0 != addr,
            },
    {
        let mut i: usize = 0;
        while i < self.entries.len()
            invariant
                i <= self.entries@.len(),
                forall|j: int| 0 <= j < i ==> (#[trigger] self.entries@[j]).0 != addr,
            decreases self.entries@.len() - i,
        {
            if self.entries[i].0 == addr {
                return Some(i);
            }
            i = i + 1;
        }
        None
    }

    /// Whether the pool is currently awaiting activity from `addr`.
    pub fn contains(&self, addr: PeerAddr) -> (r: bool)
        ensures
            r == self@.dom().contains(addr),
    {
        proof {
            lemma_assoc_dom(self.entries@);
        }
        self.find(addr).is_some()
    }

    /// Record activity towards `addr` at time `now`: insert the peer, or
    /// refresh its time if it is already tracked.
    pub fn touch(&mut self, addr: PeerAddr, now: u64)
        requires
            old(self).wf(),
        ensures
            final(self).wf(),
            final(self)@ == old(self)@.insert(addr, now),
    {
        let ghost s = self.entries@;
        match self.find(addr) {
            Some(i) => {
                self.entries.set(i, (addr, now));
                proof {
                    lemma_assoc_update(s, i as int, now);
                    assert(self.entries@ =~= s.update(i as int, (addr, now)));
                    assert forall|p: int, q: int|
                        0 <= p < q < self.entries@.len() implies (#[trigger] self.entries@[p]).0
                        != (#[trigger] self.entries@[q]).0 by {
                        assert(self.entries@[p].0 == s[p].0);
                        assert(self.entries@[q].0 == s[q].0);
                    }
                }
            },
            None => {
                self.entries.push((addr, now));
                proof {
                    lemma_assoc_push(s, addr, now);
                    assert forall|p: int, q: int|
                        0 <= p < q < self.entries@.len() implies (#[trigger] self.entries@[p]).0
                        != (#[trigger] self.entries@[q]).0 by {
                        if q == self.entries@.len() - 1 {
                            assert(self.entries@[p] == s[p]);
                        } else {
                            assert(self.entries@[p] == s[p]);
                            assert(self.entries@[q] == s[q]);
                        }
                    }
                }
            },
        }
    }

    /// Forget `addr`: the pool no longer awaits anything from it.
    pub fn clear(&mut self, addr: PeerAddr)
        requires
            old(self).wf(),
        ensures
            final(self).wf(),
            final(self)@ == old(self)@.remove(addr),
    {
        let ghost s = self.entries@;
        match self.find(addr) {
            Some(i) => {
                self.entries.remove(i);
                proof {
                    lemma_assoc_remove(s, i as int);
                    assert forall|p: int, q: int|
                        0 <= p < q < self.entries@.len() implies (#[trigger] self.entries@[p]).0
                        != (#[trigger] self.entries@[q]).0 by {
                        let pp = if p < i { p } else { p + 1 };
                        let qq = if q < i { q } else { q + 1 };
                        assert(self.entries@[p] == s[pp]);
                        assert(self.entries@[q] == s[qq]);
                    }
                }
            },
            None => {
                proof {
                    lemma_assoc_dom(s);
                    assert(!self@.dom().contains(addr));
                    assert(self@ =~= self@.remove(addr));
                }
            },
        }
    }

    /// Evict every peer whose age has reached `timeout` at time `now` and
    /// return the evicted addresses, each exactly once; the other entries are
    /// kept unchanged.
    pub fn sweep(&mut self, timeout: u64, now: u64) -> (evicted: Vec<PeerAddr>)
        requires
            old(self).wf(),
        ensures
            final(self).wf(),
            final(self)@ == survivors(old(self)@, timeout, now),
            forall|a: PeerAddr|
                #[trigger] evicted@.contains(a) <==> timed_out(old(self)@, timeout, now).contains(
                    a,
                ),
            forall|p: int, q: int| 0 <= p < q < evicted@.len() ==> evicted@[p] != evicted@[q],
    {
        let ghost s = self.entries@;
        let mut kept: Vec<(PeerAddr, u64)> = Vec::new();
        let mut evicted: Vec<PeerAddr> = Vec::new();
        let mut k: usize = 0;
        while k < self.entries.len()
            invariant
                self.wf(),
                self.entries@ == s,
                k <= s.len(),
                // every kept entry is a processed, unexpired entry of the old list
                forall|j: int|
                    0 <= j < kept@.len() ==> kept_from_prefix(
                        s,
                        k as int,
                        timeout,
                        now,
                        #[trigger] kept@[j],
                    ),
                // every evicted address is the key of a processed, expired entry
                forall|j: int|
                    0 <= j < evicted@.len() ==> evicted_from_prefix(
                        s,
                        k as int,
                        timeout,
                        now,
                        #[trigger] evicted@[j],
                    ),
                // every processed entry landed where it belongs
                forall|i: int|
                    0 <= i < k ==> if expired((#[trigger] s[i]).1, timeout, now) {
                        evicted@.contains(s[i].0)
                    } else {
                        kept@.contains(s[i])
                    },
                unique_keys(kept@),
                forall|p: int, q: int| 0 <= p < q < evicted@.len() ==> evicted@[p] != evicted@[q],
            decreases s.len() - k,
        {
            let (addr, last) = self.entries[k];
            let ghost k_old = kept@;
            let ghost e_old = evicted@;
            if now >= last && now - last >= timeout {
                proof {
                    assert(s[k as int] == (addr, last));
                    assert forall|q: int| 0 <= q < evicted@.len() implies evicted@[q] != addr by {
                        let i = choose|i: int|
                            0 <= i < k && (#[trigger] s[i]).0 == evicted@[q] && expired(
                                s[i].1,
                                timeout,
                                now,
                            );
                        assert(s[i].0 != s[k as int].0);
                    }
                }
                evicted.push(addr);
                proof {
                    assert(evicted@[e_old.len() as int] == addr);
                    assert forall|i: int|
                        0 <= i < k && expired((#[trigger] s[i]).1, timeout, now) implies
                        evicted@.contains(s[i].0) by {
                        assert(e_old.contains(s[i].0));
                        let j = choose|j: int| 0 <= j < e_old.len() && e_old[j] == s[i].0;
                        assert(evicted@[j] == s[i].0);
                    }
                    assert(evicted@.contains(s[k as int].0));
                    assert forall|j: int| 0 <= j < evicted@.len() implies evicted_from_prefix(
                        s,
                        k + 1,
                        timeout,
                        now,
                        #[trigger] evicted@[j],
                    ) by {
                        if j < e_old.len() {
                            assert(evicted@[j] == e_old[j]);
                            lemma_evicted_prefix_grow(s, k as int, timeout, now, e_old[j]);
                        } else {
                            assert(evicted@[j] == addr);
                            assert(0 <= k < k + 1 && (s[k as int]).0 == addr && expired(
                                s[k as int].1,
                                timeout,
                                now,
                            ));
                        }
                    }
                    assert forall|j: int| 0 <= j < kept@.len() implies kept_from_prefix(
                        s,
                        k + 1,
                        timeout,
                        now,
                        #[trigger] kept@[j],
                    ) by {
                        lemma_kept_prefix_grow(s, k as int, timeout, now, kept@[j]);
                    }
                }
            } else {
                proof {
                    assert(s[k as int] == (addr, last));
                    assert(!expired(s[k as int].1, timeout, now));
                    assert forall|q: int| 0 <= q < kept@.len() implies (#[trigger] kept@[q]).0
                        != addr by {
                        let i = choose|i: int|
                            0 <= i < k && #[trigger] s[i] == kept@[q] && !expired(
                                s[i].1,
                                timeout,
                                now,
                            );
                        assert(s[i].0 != s[k as int].0);
                    }
                }
                kept.push((addr, last));
                proof {
                    assert(kept@[k_old.len() as int] == (addr, last));
                    assert forall|i: int|
                        0 <= i < k && !expired((#[trigger] s[i]).1, timeout, now) implies
                        kept@.contains(s[i]) by {
                        assert(k_old.contains(s[i]));
                        let j = choose|j: int| 0 <= j < k_old.len() && k_old[j] == s[i];
                        assert(kept@[j] == s[i]);
                    }
                    assert(kept@.contains(s[k as int]));
                    assert forall|j: int| 0 <= j < kept@.len() implies kept_from_prefix(
                        s,
                        k + 1,
                        timeout,
                        now,
                        #[trigger] kept@[j],
                    ) by {
                        if j < k_old.len() {
                            assert(kept@[j] == k_old[j]);
                            lemma_kept_prefix_grow(s, k as int, timeout, now, k_old[j]);
                        } else {
                            assert(kept@[j] == (addr, last));
                            assert(0 <= k < k + 1 && s[k as int] == kept@[j] && !expired(
                                s[k as int].1,
                                timeout,
                                now,
                            ));
                        }
                    }
                    assert forall|j: int| 0 <= j < evicted@.len() implies evicted_from_prefix(
                        s,
                        k + 1,
                        timeout,
                        now,
                        #[trigger] evicted@[j],
                    ) by {
                        lemma_evicted_prefix_grow(s, k as int, timeout, now, evicted@[j]);
                    }
                }
            }
            k = k + 1;
        }
        self.entries = kept;
        proof {
            lemma_assoc_dom(s);
            assert forall|a: PeerAddr| #[trigger]
                self@.dom().contains(a) == survivors(assoc_map(s), timeout, now).dom().contains(
                    a,
                ) by {
                lemma_assoc_dom(self.entries@);
                if self@.dom().contains(a) {
                    let j = choose|j: int|
                        0 <= j < self.entries@.len() && #[trigger] self.entries@[j].0 == a;
                    assert(kept_from_prefix(s, s.len() as int, timeout, now, self.entries@[j]));
                    let i = choose|i: int|
                        0 <= i < s.len() && #[trigger] s[i] == self.entries@[j] && !expired(
                            s[i].1,
                            timeout,
                            now,
                        );
                    lemma_assoc_index(s, i);
                } else {
                    if assoc_map(s).dom().contains(a) && !expired(assoc_map(s)[a], timeout, now) {
                        let i = choose|i: int| 0 <= i < s.len() && #[trigger] s[i].0 == a;
                        lemma_assoc_index(s, i);
                        assert(self.entries@.contains(s[i]));
                        let j = choose|j: int|
                            0 <= j < self.entries@.len() && self.entries@[j] == s[i];
                        assert(self.entries@[j].0 == a);
                    }
                }
            }
            assert forall|a: PeerAddr|
                self@.dom().contains(a) implies self@[a] == assoc_map(s)[a] by {
                lemma_assoc_dom(self.entries@);
                let j = choose|j: int|
                    0 <= j < self.entries@.len() && #[trigger] self.entries@[j].0 == a;
                lemma_assoc_index(self.entries@, j);
                assert(kept_from_prefix(s, s.len() as int, timeout, now, self.entries@[j]));
                let i = choose|i: int|
                    0 <= i < s.len() && #[trigger] s[i] == self.entries@[j] && !expired(
                        s[i].1,
                        timeout,
                        now,
                    );
                lemma_assoc_index(s, i);
            }
            assert(self@ =~= survivors(assoc_map(s), timeout, now));
            assert forall|a: PeerAddr| #[trigger]
                evicted@.contains(a) == timed_out(assoc_map(s), timeout, now).contains(a) by {
                if evicted@.contains(a) {
                    let j = choose|j: int| 0 <= j < evicted@.len() && evicted@[j] == a;
                    assert(evicted_from_prefix(s, s.len() as int, timeout, now, evicted@[j]));
                    let i = choose|i: int|
                        0 <= i < s.len() && (#[trigger] s[i]).0 == a && expired(
                            s[i].1,
                            timeout,
                            now,
                        );
                    lemma_assoc_index(s, i);
                } else {
                    if assoc_map(s).dom().contains(a) && expired(assoc_map(s)[a], timeout, now) {
                        let i = choose|i: int| 0 <= i < s.len() && #[trigger] s[i].0 == a;
                        lemma_assoc_index(s, i);
                        assert(evicted@.contains(s[i].0));
                    }
                }
            }
        }
        evicted
    }
}

/// The entry stands among the first `k` of the old list and is not expired.
spec fn kept_from_prefix(
    s: Seq<(PeerAddr, u64)>,
    k: int,
    timeout: u64,
    now: u64,
    e: (PeerAddr, u64),
) -> bool {
    exists|i: int| 0 <= i < k && #[trigger] s[i] == e && !expired(s[i].1, timeout, now)
}

/// The address keys an expired entry among the first `k` of the old list.
spec fn evicted_from_prefix(
    s: Seq<(PeerAddr, u64)>,
    k: int,
    timeout: u64,
    now: u64,
    a: PeerAddr,
) -> bool {
    exists|i: int| 0 <= i < k && (#[trigger] s[i]).0 == a && expired(s[i].1, timeout, now)
}

proof fn lemma_kept_prefix_grow(
    s: Seq<(PeerAddr, u64)>,
    k: int,
    timeout: u64,
    now: u64,
    e: (PeerAddr, u64),
)
    requires
        kept_from_prefix(s, k, timeout, now, e),
    ensures
        kept_from_prefix(s, k + 1, timeout, now, e),
{
    let i = choose|i: int| 0 <= i < k && #[trigger] s[i] == e && !expired(s[i].1, timeout, now);
    assert(0 <= i < k + 1 && s[i] == e && !expired(s[i].1, timeout, now));
}

proof fn lemma_evicted_prefix_grow(
    s: Seq<(PeerAddr, u64)>,
    k: int,
    timeout: u64,
    now: u64,
    a: PeerAddr,
)
    requires
        evicted_from_prefix(s, k, timeout, now, a),
    ensures
        evicted_from_prefix(s, k + 1, timeout, now, a),
{
    let i = choose|i: int| 0 <= i < k && (#[trigger] s[i]).0 == a && expired(s[i].1, timeout, now);
    assert(0 <= i < k + 1 && s[i].0 == a && expired(s[i].1, timeout, now));
}

/// Timeout round trip: a peer recorded by a successful send and still silent
/// once the timeout has elapsed is evicted by that sweep; afterwards it is no
/// longer tracked, so no later sweep can report it a second time.
pub proof fn lemma_timeout_round_trip(
    m: Map<PeerAddr, u64>,
    a: PeerAddr,
    timeout: u64,
    now: u64,
    timeout2: u64,
    now2: u64,
)
    requires
        m.dom().contains(a),
        expired(m[a], timeout, now),
    ensures
        timed_out(m, timeout, now).contains(a),
        !survivors(m, timeout, now).dom().contains(a),
        !timed_out(survivors(m, timeout, now), timeout2, now2).contains(a),
{
}

/// A message clears the pending timeout: once a peer's entry is removed on
/// arrival of its datagram, no sweep — at any later time and under any
/// timeout — reports a timeout for that peer.
pub proof fn lemma_message_clears_timeout(
    m: Map<PeerAddr, u64>,
    a: PeerAddr,
    timeout: u64,
    now: u64,
)
    ensures
        !m.remove(a).dom().contains(a),
        !timed_out(m.remove(a), timeout, now).contains(a),
{
}

} // verus!
