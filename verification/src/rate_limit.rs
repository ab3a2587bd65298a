//! Per-peer connection-rate limiting for the unauthenticated entry path.
//!
//! The limiter tracks recent accepted-connect times per peer address. A peer
//! that already opened `MAX_CONNECTS_PER_PEER_PER_WINDOW` connections within
//! the rolling window is refused before any handshake work; stale times are
//! pruned first, and at most `MAX_QUIC_TRACKED_PEERS` peers are kept, the
//! one with the oldest first connect giving way to a new peer.
//!
//! Times are nanoseconds on a monotonic clock chosen by the caller.

use vstd::prelude::*;

use crate::error::{msg, str_eq, Result, ShphError};

verus! {

/// Length of the rolling rate window: ten seconds.
pub const PEER_RATE_WINDOW_NANOS: u64 = 10000000000;

/// Connects a peer may open within one window.
pub const MAX_CONNECTS_PER_PEER_PER_WINDOW: usize = 8;

/// Recent connects after which a peer must answer a cookie challenge.
pub const COOKIE_CHALLENGE_THRESHOLD: usize = 4;

/// Peers known at once.
pub const MAX_QUIC_TRACKED_PEERS: usize = 1024;

/// A connect at `t` still counts at `now`.
pub open spec fn fresh(t: u64, now: u64) -> bool {
    t + PEER_RATE_WINDOW_NANOS > now
}

/// The connect times that still count at `now`, in order.
pub open spec fn live(s: Seq<u64>, now: u64) -> Seq<u64>
    decreases s.len(),
{
    if s.len() == 0 {
        s
    } else if fresh(s.last(), now) {
        live(s.drop_last(), now).push(s.last())
    } else {
        live(s.drop_last(), now)
    }
}

/// The known peers after stale times are pruned and peers without a
/// counting connect are dropped.
pub open spec fn pruned(m: Map<Seq<char>, Seq<u64>>, now: u64) -> Map<Seq<char>, Seq<u64>> {
    Map::new(|k: Seq<char>| m.contains_key(k) && live(m[k], now).len() > 0, |k: Seq<char>| live(m[k], now))
}

/// `v` is a known peer whose first recorded connect is the oldest.
pub open spec fn oldest(m: Map<Seq<char>, Seq<u64>>, v: Seq<char>) -> bool {
    m.contains_key(v) && forall|k: Seq<char>| #[trigger] m.contains_key(k) ==> m[v][0] <= m[k][0]
}

/// The counting times of `peer`, empty when it is not known.
pub open spec fn entries_of(m: Map<Seq<char>, Seq<u64>>, peer: Seq<char>) -> Seq<u64> {
    if m.contains_key(peer) {
        m[peer]
    } else {
        Seq::<u64>::empty()
    }
}

/// One check of `peer` at `now`: whether it is admitted, and the known
/// peers afterwards.
pub open spec fn rate_step(
    m: Map<Seq<char>, Seq<u64>>,
    peer: Seq<char>,
    now: u64,
    admitted: bool,
    next: Map<Seq<char>, Seq<u64>>,
) -> bool {
    let p = pruned(m, now);
    let e = entries_of(p, peer);
    &&& admitted == (e.len() < MAX_CONNECTS_PER_PEER_PER_WINDOW)
    &&& !admitted ==> next == p
    &&& admitted && (p.contains_key(peer) || p.len() < MAX_QUIC_TRACKED_PEERS) ==> next == p.insert(peer, e.push(now))
    &&& admitted && !(p.contains_key(peer) || p.len() < MAX_QUIC_TRACKED_PEERS) ==> exists|v: Seq<char>|
        #[trigger] oldest(p, v) && next == p.remove(v).insert(peer, e.push(now))
}

/// The refusal text for a peer over its rate limit.
pub open spec fn rate_limit_message(peer: Seq<char>) -> Seq<char> {
    "peer "@ + peer + " exceeded connection rate limit (8 per 10s)"@
}

/// The bounds every limiter keeps: how many peers it tracks, and that each
/// known peer has between one and the per-window maximum of times.
pub open spec fn rate_bounded(m: Map<Seq<char>, Seq<u64>>) -> bool {
    &&& m.dom().finite()
    &&& m.len() <= MAX_QUIC_TRACKED_PEERS
    &&& forall|k: Seq<char>| #[trigger] m.contains_key(k) ==> 0 < m[k].len() <= MAX_CONNECTS_PER_PEER_PER_WINDOW
}

/// The recent connect times of one peer.
#[derive(Debug)]
struct PeerEntries {
    peer: String,
    times: Vec<u64>,
}

spec fn pairs_map(s: Seq<PeerEntries>) -> Map<Seq<char>, Seq<u64>>
    decreases s.len(),
{
    if s.len() == 0 {
        Map::empty()
    } else {
        pairs_map(s.drop_last()).insert(s.last().peer@, s.last().times@)
    }
}

spec fn distinct_peers(s: Seq<PeerEntries>) -> bool {
    forall|i: int, j: int| 0 <= i < j < s.len() ==> (#[trigger] s[i]).peer@ != (#[trigger] s[j]).peer@
}

spec fn entries_bounded(s: Seq<PeerEntries>) -> bool {
    forall|i: int| 0 <= i < s.len() ==> 0 < (#[trigger] s[i]).times@.len() <= MAX_CONNECTS_PER_PEER_PER_WINDOW
}

proof fn lemma_pairs_map(s: Seq<PeerEntries>)
    requires
        distinct_peers(s),
    ensures
        pairs_map(s).dom().finite(),
        pairs_map(s).len() == s.len(),
        forall|i: int| 0 <= i < s.len() ==> pairs_map(s).contains_key((#[trigger] s[i]).peer@) && pairs_map(s)[s[i].peer@]
            == s[i].times@,
        forall|k: Seq<char>| #[trigger] pairs_map(s).contains_key(k) ==> exists|i: int| 0 <= i < s.len() && (#[trigger] s[i]).peer@ == k,
    decreases s.len(),
{
    if s.len() > 0 {
        let d = s.drop_last();
        assert forall|i: int, j: int| 0 <= i < j < d.len() implies (#[trigger] d[i]).peer@ != (#[trigger] d[j]).peer@ by {
            assert(d[i] == s[i] && d[j] == s[j]);
        }
        lemma_pairs_map(d);
        let last = s.last();
        assert(!pairs_map(d).contains_key(last.peer@)) by {
            if pairs_map(d).contains_key(last.peer@) {
                let i = choose|i: int| 0 <= i < d.len() && (#[trigger] d[i]).peer@ == last.peer@;
                assert(d[i] == s[i]);
                assert(s[i].peer@ != s[s.len() - 1].peer@);
            }
        }
        assert forall|i: int| 0 <= i < s.len() implies pairs_map(s).contains_key((#[trigger] s[i]).peer@) && pairs_map(s)[s[i].peer@]
            == s[i].times@ by {
            if i < s.len() - 1 {
                assert(d[i] == s[i]);
                assert(s[i].peer@ != s[s.len() - 1].peer@);
            }
        }
        assert forall|k: Seq<char>| #[trigger] pairs_map(s).contains_key(k) implies exists|i: int| 0 <= i < s.len() && (#[trigger] s[i]).peer@ == k by {
            if k == last.peer@ {
                assert(s[s.len() - 1].peer@ == k);
            } else {
                let i = choose|i: int| 0 <= i < d.len() && (#[trigger] d[i]).peer@ == k;
                assert(d[i] == s[i]);
            }
        }
    }
}

proof fn lemma_pairs_update(s: Seq<PeerEntries>, i: int, e: PeerEntries)
    requires
        distinct_peers(s),
        0 <= i < s.len(),
        s[i].peer@ == e.peer@,
    ensures
        distinct_peers(s.update(i, e)),
        pairs_map(s.update(i, e)) == pairs_map(s).insert(e.peer@, e.times@),
{
    let t = s.update(i, e);
    assert forall|a: int, b: int| 0 <= a < b < t.len() implies (#[trigger] t[a]).peer@ != (#[trigger] t[b]).peer@ by {
        assert(t[a].peer@ == s[a].peer@ && t[b].peer@ == s[b].peer@);
    }
    lemma_pairs_map(s);
    lemma_pairs_map(t);
    assert forall|k: Seq<char>| #[trigger] pairs_map(t).contains_key(k) == pairs_map(s).insert(e.peer@, e.times@).contains_key(k) by {
        if pairs_map(t).contains_key(k) {
            let j = choose|j: int| 0 <= j < t.len() && (#[trigger] t[j]).peer@ == k;
            assert(s[j].peer@ == k);
        }
        if pairs_map(s).contains_key(k) {
            let j = choose|j: int| 0 <= j < s.len() && (#[trigger] s[j]).peer@ == k;
            assert(t[j].peer@ == k);
        }
        if k == e.peer@ {
            assert(t[i].peer@ == k);
        }
    }
    assert forall|k: Seq<char>| #[trigger] pairs_map(t).contains_key(k) implies pairs_map(t)[k] == pairs_map(s).insert(
        e.peer@,
        e.times@,
    )[k] by {
        let j = choose|j: int| 0 <= j < t.len() && (#[trigger] t[j]).peer@ == k;
        if j == i {
            assert(t[j] == e);
        } else {
            assert(t[j] == s[j]);
            assert(s[j].peer@ != s[i].peer@);
        }
    }
    assert(pairs_map(t) =~= pairs_map(s).insert(e.peer@, e.times@));
}

proof fn lemma_pairs_remove(s: Seq<PeerEntries>, i: int)
    requires
        distinct_peers(s),
        0 <= i < s.len(),
    ensures
        distinct_peers(s.remove(i)),
        pairs_map(s.remove(i)) == pairs_map(s).remove(s[i].peer@),
{
    let t = s.remove(i);
    assert forall|a: int, b: int| 0 <= a < b < t.len() implies (#[trigger] t[a]).peer@ != (#[trigger] t[b]).peer@ by {
        let a2 = if a < i { a } else { a + 1 };
        let b2 = if b < i { b } else { b + 1 };
        assert(t[a] == s[a2] && t[b] == s[b2]);
    }
    lemma_pairs_map(s);
    lemma_pairs_map(t);
    let gone = s[i].peer@;
    assert forall|k: Seq<char>| #[trigger] pairs_map(t).contains_key(k) == pairs_map(s).remove(gone).contains_key(k) by {
        if pairs_map(t).contains_key(k) {
            let j = choose|j: int| 0 <= j < t.len() && (#[trigger] t[j]).peer@ == k;
            let j2 = if j < i { j } else { j + 1 };
            assert(t[j] == s[j2]);
            assert(s[j2].peer@ != s[i].peer@);
        }
        if pairs_map(s).contains_key(k) && k != gone {
            let j = choose|j: int| 0 <= j < s.len() && (#[trigger] s[j]).peer@ == k;
            if j < i {
                assert(t[j] == s[j]);
            } else {
                assert(j != i);
                assert(t[j - 1] == s[j]);
            }
        }
    }
    assert forall|k: Seq<char>| #[trigger] pairs_map(t).contains_key(k) implies pairs_map(t)[k] == pairs_map(s).remove(gone)[k] by {
        let j = choose|j: int| 0 <= j < t.len() && (#[trigger] t[j]).peer@ == k;
        let j2 = if j < i { j } else { j + 1 };
        assert(t[j] == s[j2]);
    }
    assert(pairs_map(t) =~= pairs_map(s).remove(gone));
}

proof fn lemma_live_len(s: Seq<u64>, now: u64)
    ensures
        live(s, now).len() <= s.len(),
    decreases s.len(),
{
    if s.len() > 0 {
        lemma_live_len(s.drop_last(), now);
    }
}

/// Whether a connect at `t` still counts at `now`.
fn is_fresh(t: u64, now: u64) -> (b: bool)
    ensures
        b == fresh(t, now),
{
    let age = if now >= t { now - t } else { 0 };
    age < PEER_RATE_WINDOW_NANOS
}

/// The connect times that still count at `now`.
fn live_times(times: &Vec<u64>, now: u64) -> (r: Vec<u64>)
    ensures
        r@ == live(times@, now),
{
    let mut r: Vec<u64> = Vec::new();
    let mut i: usize = 0;
    while i < times.len()
        invariant
            i <= times@.len(),
            r@ == live(times@.take(i as int), now),
        decreases times@.len() - i,
    {
        proof {
            assert(times@.take(i + 1).drop_last() =~= times@.take(i as int));
            assert(times@.take(i + 1).last() == times@[i as int]);
        }
        if is_fresh(times[i], now) {
            r.push(times[i]);
        }
        i = i + 1;
    }
    proof {
        assert(times@.take(times@.len() as int) =~= times@);
    }
    r
}

/// Prunes stale times and drops peers without a counting connect.
fn prune(seen: &Vec<PeerEntries>, now: u64) -> (kept: Vec<PeerEntries>)
    requires
        distinct_peers(seen@),
        entries_bounded(seen@),
    ensures
        distinct_peers(kept@),
        entries_bounded(kept@),
        pairs_map(kept@) == pruned(pairs_map(seen@), now),
        kept@.len() <= seen@.len(),
{
    let mut kept: Vec<PeerEntries> = Vec::new();
    let mut i: usize = 0;
    proof {
        assert(pairs_map(seen@.take(0)) =~= Map::<Seq<char>, Seq<u64>>::empty());
        assert(pruned(Map::<Seq<char>, Seq<u64>>::empty(), now) =~= Map::<Seq<char>, Seq<u64>>::empty());
    }
    while i < seen.len()
        invariant
            i <= seen@.len(),
            distinct_peers(seen@),
            entries_bounded(seen@),
            distinct_peers(kept@),
            entries_bounded(kept@),
            kept@.len() <= i,
            pairs_map(kept@) == pruned(pairs_map(seen@.take(i as int)), now),
        decreases seen@.len() - i,
    {
        let ghost pre = seen@.take(i as int);
        let ghost k = seen@[i as int].peer@;
        let ghost v = seen@[i as int].times@;
        proof {
            assert(seen@.take(i + 1).drop_last() =~= pre);
            assert(seen@.take(i + 1).last() == seen@[i as int]);
            assert forall|a: int, b: int| 0 <= a < b < pre.len() implies (#[trigger] pre[a]).peer@ != (#[trigger] pre[b]).peer@ by {
                assert(pre[a] == seen@[a] && pre[b] == seen@[b]);
            }
            lemma_pairs_map(pre);
            assert(!pairs_map(pre).contains_key(k)) by {
                if pairs_map(pre).contains_key(k) {
                    let j = choose|j: int| 0 <= j < pre.len() && (#[trigger] pre[j]).peer@ == k;
                    assert(pre[j] == seen@[j]);
                }
            }
            lemma_live_len(v, now);
        }
        let live = live_times(&seen[i].times, now);
        if live.len() > 0 {
            let entry = PeerEntries { peer: seen[i].peer.clone(), times: live };
            proof {
                lemma_pairs_map(kept@);
                assert forall|a: int, b: int| 0 <= a < b < kept@.push(entry).len() implies (#[trigger] kept@.push(entry)[a]).peer@
                    != (#[trigger] kept@.push(entry)[b]).peer@ by {
                    if b == kept@.len() {
                        assert(kept@.push(entry)[a] == kept@[a]);
                        assert(pairs_map(kept@).contains_key(kept@[a].peer@));
                    } else {
                        assert(kept@.push(entry)[a] == kept@[a] && kept@.push(entry)[b] == kept@[b]);
                    }
                }
                assert(kept@.push(entry).drop_last() =~= kept@);
                assert(pruned(pairs_map(pre).insert(k, v), now) =~= pruned(pairs_map(pre), now).insert(k, live@));
            }
            kept.push(entry);
        } else {
            proof {
                assert(pruned(pairs_map(pre).insert(k, v), now) =~= pruned(pairs_map(pre), now));
            }
        }
        i = i + 1;
    }
    proof {
        assert(seen@.take(seen@.len() as int) =~= seen@);
    }
    kept
}

/// The position of `peer` among the entries.
fn find_peer(s: &Vec<PeerEntries>, peer: &str) -> (r: Option<usize>)
    requires
        distinct_peers(s@),
    ensures
        r is None ==> !pairs_map(s@).contains_key(peer@),
        r matches Some(i) ==> i < s@.len() && s@[i as int].peer@ == peer@,
{
    let mut i: usize = 0;
    while i < s.len()
        invariant
            i <= s@.len(),
            forall|j: int| 0 <= j < i ==> (#[trigger] s@[j]).peer@ != peer@,
        decreases s@.len() - i,
    {
        if str_eq(s[i].peer.as_str(), peer) {
            return Some(i);
        }
        i = i + 1;
    }
    proof {
        lemma_pairs_map(s@);
        if pairs_map(s@).contains_key(peer@) {
            let j = choose|j: int| 0 <= j < s@.len() && (#[trigger] s@[j]).peer@ == peer@;
        }
    }
    None
}

/// The position of the entry whose first time is the oldest.
fn oldest_index(s: &Vec<PeerEntries>) -> (r: usize)
    requires
        s@.len() > 0,
        entries_bounded(s@),
    ensures
        r < s@.len(),
        forall|j: int| 0 <= j < s@.len() ==> s@[r as int].times@[0] <= (#[trigger] s@[j]).times@[0],
{
    let mut best: usize = 0;
    let mut i: usize = 1;
    assert(s@[0].times@.len() > 0);
    while i < s.len()
        invariant
            1 <= i <= s@.len(),
            best < i,
            entries_bounded(s@),
            forall|j: int| 0 <= j < i ==> s@[best as int].times@[0] <= (#[trigger] s@[j]).times@[0],
        decreases s@.len() - i,
    {
        assert(s@[i as int].times@.len() > 0);
        assert(s@[best as int].times@.len() > 0);
        if s[i].times[0] < s[best].times[0] {
            best = i;
        }
        i = i + 1;
    }
    best
}

/// Keeps recent connect times per peer and refuses peers over the rate.
#[derive(Debug)]
pub struct PeerRateLimiter {
    seen: Vec<PeerEntries>,
}

impl PeerRateLimiter {
    #[verifier::type_invariant]
    spec fn inv(self) -> bool {
        &&& distinct_peers(self.seen@)
        &&& entries_bounded(self.seen@)
        &&& self.seen@.len() <= MAX_QUIC_TRACKED_PEERS
    }

    /// The recent connect times of each known peer.
    pub closed spec fn recent(&self) -> Map<Seq<char>, Seq<u64>> {
        pairs_map(self.seen@)
    }

    /// A limiter that knows no peer.
    pub fn new() -> (r: Self)
        ensures
            r.recent() == Map::<Seq<char>, Seq<u64>>::empty(),
    {
        PeerRateLimiter { seen: Vec::new() }
    }

    /// Records a connect from `peer` at `now` when the peer is within the
    /// rate limit, after pruning the times that no longer count; refuses it
    /// otherwise.
    pub fn check_and_record(&mut self, peer: &str, now: u64) -> (res: Result<()>)
        ensures
            rate_step(old(self).recent(), peer@, now, res is Ok, final(self).recent()),
            rate_bounded(final(self).recent()),
            res matches Err(e) ==> (e matches ShphError::Transport(t) && t@ == rate_limit_message(peer@)),
    {
        proof {
            use_type_invariant(&*self);
        }
        let ghost m = self.recent();
        let mut kept = prune(&self.seen, now);
        let ghost p = pairs_map(kept@);
        proof {
            lemma_pairs_map(kept@);
        }
        match find_peer(&kept, peer) {
            Some(i) => {
                proof {
                    assert(p.contains_key(peer@) && p[peer@] == kept@[i as int].times@);
                }
                if kept[i].times.len() >= MAX_CONNECTS_PER_PEER_PER_WINDOW {
                    self.seen = kept;
                    proof {
                        self.lemma_bounded();
                    }
                    let mut text = msg("peer ");
                    text.append(peer);
                    text.append(" exceeded connection rate limit (8 per 10s)");
                    assert(text@ =~= rate_limit_message(peer@));
                    return Err(ShphError::Transport(text));
                }
                let mut times: Vec<u64> = Vec::new();
                let mut j: usize = 0;
                while j < kept[i].times.len()
                    invariant
                        i < kept@.len(),
                        j <= kept@[i as int].times@.len(),
                        times@ == kept@[i as int].times@.take(j as int),
                    decreases kept@[i as int].times@.len() - j,
                {
                    times.push(kept[i].times[j]);
                    j = j + 1;
                    assert(times@ =~= kept@[i as int].times@.take(j as int));
                }
                assert(times@ =~= kept@[i as int].times@);
                times.push(now);
                let entry = PeerEntries { peer: kept[i].peer.clone(), times };
                proof {
                    lemma_pairs_update(kept@, i as int, entry);
                }
                kept.set(i, entry);
                self.seen = kept;
                proof {
                    self.lemma_bounded();
                }
                Ok(())
            },
            None => {
                let ghost mut evicted: Option<Seq<char>> = None;
                if kept.len() >= MAX_QUIC_TRACKED_PEERS {
                    let v = oldest_index(&kept);
                    let ghost vk = kept@[v as int].peer@;
                    let ghost before_rm = kept@;
                    proof {
                        lemma_pairs_remove(kept@, v as int);
                        assert(oldest(p, vk)) by {
                            assert forall|k: Seq<char>| #[trigger] p.contains_key(k) implies p[vk][0] <= p[k][0] by {
                                let j = choose|j: int| 0 <= j < kept@.len() && (#[trigger] kept@[j]).peer@ == k;
                            }
                        }
                    }
                    kept.remove(v);
                    proof {
                        evicted = Some(vk);
                        assert(entries_bounded(kept@)) by {
                            assert forall|a: int| 0 <= a < kept@.len() implies 0 < (#[trigger] kept@[a]).times@.len()
                                <= MAX_CONNECTS_PER_PEER_PER_WINDOW by {
                                assert(kept@[a] == before_rm[if a < v { a } else { a + 1 }]);
                            }
                        }
                    }
                }
                let ghost before = kept@;
                let mut times: Vec<u64> = Vec::new();
                times.push(now);
                let entry = PeerEntries { peer: String::from_str(peer), times };
                proof {
                    lemma_pairs_map(before);
                    assert forall|a: int, b: int| 0 <= a < b < before.push(entry).len() implies (#[trigger] before.push(
                        entry,
                    )[a]).peer@ != (#[trigger] before.push(entry)[b]).peer@ by {
                        assert(before.push(entry)[a] == before[a]);
                        if b < before.len() {
                            assert(before.push(entry)[b] == before[b]);
                        } else {
                            assert(pairs_map(before).contains_key(before[a].peer@));
                        }
                    }
                    assert(before.push(entry).drop_last() =~= before);
                    assert(times@ =~= Seq::<u64>::empty().push(now));
                }
                kept.push(entry);
                self.seen = kept;
                proof {
                    self.lemma_bounded();
                    let e = Seq::<u64>::empty();
                    assert(self.recent() == pairs_map(before).insert(peer@, e.push(now)));
                    let q = pruned(m, now);
                    if let Some(vk) = evicted {
                        assert(oldest(q, vk) && self.recent() == q.remove(vk).insert(peer@, e.push(now)));
                    }
                }
                Ok(())
            },
        }
    }

    proof fn lemma_bounded(&self)
        requires
            distinct_peers(self.seen@),
            entries_bounded(self.seen@),
            self.seen@.len() <= MAX_QUIC_TRACKED_PEERS,
        ensures
            rate_bounded(self.recent()),
    {
        lemma_pairs_map(self.seen@);
        assert forall|k: Seq<char>| #[trigger] self.recent().contains_key(k) implies 0 < self.recent()[k].len()
            <= MAX_CONNECTS_PER_PEER_PER_WINDOW by {
            let j = choose|j: int| 0 <= j < self.seen@.len() && (#[trigger] self.seen@[j]).peer@ == k;
        }
    }

    /// Whether `peer` has connected often enough recently that it must
    /// answer a cookie challenge first.
    pub fn requires_cookie(&self, peer: &str) -> (b: bool)
        ensures
            b == (self.recent().contains_key(peer@) && self.recent()[peer@].len() >= COOKIE_CHALLENGE_THRESHOLD),
    {
        proof {
            use_type_invariant(self);
            lemma_pairs_map(self.seen@);
        }
        match find_peer(&self.seen, peer) {
            Some(i) => self.seen[i].times.len() >= COOKIE_CHALLENGE_THRESHOLD,
            None => false,
        }
    }
}

/// A handle on a rate limiter for exercising it from outside the crate.
#[derive(Debug)]
pub struct PeerRateLimiterProbe {
    inner: PeerRateLimiter,
}

impl PeerRateLimiterProbe {
    /// The recent connect times the probed limiter holds.
    pub closed spec fn recent(&self) -> Map<Seq<char>, Seq<u64>> {
        self.inner.recent()
    }

    /// A probe on a fresh limiter.
    pub fn new() -> (p: Self)
        ensures
            p.recent() == Map::<Seq<char>, Seq<u64>>::empty(),
    {
        PeerRateLimiterProbe { inner: PeerRateLimiter::new() }
    }

    /// Checks and records a connect from `peer` at `now_nanos`; true when
    /// it is admitted.
    pub fn check(&mut self, peer: &str, now_nanos: u64) -> (admitted: bool)
        ensures
            rate_step(old(self).recent(), peer@, now_nanos, admitted, final(self).recent()),
            rate_bounded(final(self).recent()),
    {
        self.inner.check_and_record(peer, now_nanos).is_ok()
    }
}

impl Default for PeerRateLimiterProbe {
    fn default() -> (p: Self)
        ensures
            p.recent() == Map::<Seq<char>, Seq<u64>>::empty(),
    {
        PeerRateLimiterProbe::new()
    }
}

/// Within one window a peer is admitted at most
/// `MAX_CONNECTS_PER_PEER_PER_WINDOW` times: an admitted connect leaves at
/// most that many counting times for the peer, and a peer that already has
/// that many is refused.
pub proof fn lemma_peer_rate_is_capped(
    m: Map<Seq<char>, Seq<u64>>,
    peer: Seq<char>,
    now: u64,
    admitted: bool,
    next: Map<Seq<char>, Seq<u64>>,
)
    requires
        rate_step(m, peer, now, admitted, next),
    ensures
        admitted ==> next.contains_key(peer) && next[peer].len() <= MAX_CONNECTS_PER_PEER_PER_WINDOW
            && next[peer].last() == now,
        pruned(m, now).contains_key(peer) && pruned(m, now)[peer].len() >= MAX_CONNECTS_PER_PEER_PER_WINDOW ==> !admitted,
{
    let p = pruned(m, now);
    let e = entries_of(p, peer);
    if admitted && !(p.contains_key(peer) || p.len() < MAX_QUIC_TRACKED_PEERS) {
        let v = choose|v: Seq<char>| #[trigger] oldest(p, v) && next == p.remove(v).insert(peer, e.push(now));
        assert(next[peer] == e.push(now));
    }
}

/// Peers are limited apart: a check of one peer leaves the counting times
/// of every other known peer as they were, unless that peer gave way as
/// the oldest when the table was full.
pub proof fn lemma_other_peers_unaffected(
    m: Map<Seq<char>, Seq<u64>>,
    peer: Seq<char>,
    other: Seq<char>,
    now: u64,
    admitted: bool,
    next: Map<Seq<char>, Seq<u64>>,
)
    requires
        rate_step(m, peer, now, admitted, next),
        other != peer,
        pruned(m, now).contains_key(other),
        pruned(m, now).contains_key(peer) || pruned(m, now).len() < MAX_QUIC_TRACKED_PEERS,
    ensures
        next.contains_key(other) && next[other] == pruned(m, now)[other],
{
}

/// The times at which `peer` was admitted among the first `k` checks of a
/// run, in order.
pub open spec fn admitted_times(peers: Seq<Seq<char>>, times: Seq<u64>, admitted: Seq<bool>, k: int, peer: Seq<char>) -> Seq<u64>
    decreases k,
{
    if k <= 0 {
        Seq::empty()
    } else {
        let prev = admitted_times(peers, times, admitted, k - 1, peer);
        if peers[k - 1] == peer && admitted[k - 1] {
            prev.push(times[k - 1])
        } else {
            prev
        }
    }
}

proof fn lemma_entries_of_pruned(m: Map<Seq<char>, Seq<u64>>, now: u64, x: Seq<char>)
    ensures
        entries_of(pruned(m, now), x) == live(entries_of(m, x), now),
{
    if !m.contains_key(x) {
        assert(live(Seq::<u64>::empty(), now) == Seq::<u64>::empty());
    }
}

proof fn lemma_live_twice(s: Seq<u64>, t1: u64, t2: u64)
    requires
        t1 <= t2,
    ensures
        live(live(s, t1), t2) == live(s, t2),
    decreases s.len(),
{
    if s.len() > 0 {
        lemma_live_twice(s.drop_last(), t1, t2);
        if fresh(s.last(), t1) {
            assert(live(s, t1).drop_last() == live(s.drop_last(), t1));
            assert(live(s, t1).last() == s.last());
        }
    }
}

proof fn lemma_history_invariant(
    peers: Seq<Seq<char>>,
    times: Seq<u64>,
    admitted: Seq<bool>,
    maps: Seq<Map<Seq<char>, Seq<u64>>>,
    k: int,
)
    requires
        peers.len() == times.len() == admitted.len(),
        maps.len() == peers.len() + 1,
        maps[0] == Map::<Seq<char>, Seq<u64>>::empty(),
        forall|i: int, j: int| 0 <= i <= j < times.len() ==> times[i] <= times[j],
        forall|i: int| 0 <= i < peers.len() ==> #[trigger] rate_step(maps[i], peers[i], times[i], admitted[i], maps[i + 1]),
        forall|i: int| 0 <= i < peers.len() && admitted[i] ==> pruned(maps[i], times[i]).contains_key(#[trigger] peers[i])
            || pruned(maps[i], times[i]).len() < MAX_QUIC_TRACKED_PEERS,
        0 <= k <= peers.len(),
    ensures
        forall|x: Seq<char>| #[trigger] entries_of(maps[k], x) == live(
            admitted_times(peers, times, admitted, k, x),
            if k == 0 { 0 } else { times[k - 1] },
        ),
    decreases k,
{
    if k == 0 {
        assert forall|x: Seq<char>| #[trigger] entries_of(maps[k], x) == live(admitted_times(peers, times, admitted, k, x), 0u64) by {
            assert(live(Seq::<u64>::empty(), 0u64) == Seq::<u64>::empty());
        }
    } else {
        let i = k - 1;
        lemma_history_invariant(peers, times, admitted, maps, i);
        let now = times[i];
        let last: u64 = if i == 0 { 0 } else { times[i - 1] };
        assert(last <= now);
        let m = maps[i];
        let p = pruned(m, now);
        let peer = peers[i];
        assert(rate_step(maps[i], peers[i], times[i], admitted[i], maps[i + 1]));
        assert forall|x: Seq<char>| #[trigger] entries_of(maps[k], x) == live(admitted_times(peers, times, admitted, k, x), now) by {
            lemma_entries_of_pruned(m, now, x);
            let before = admitted_times(peers, times, admitted, i, x);
            assert(entries_of(m, x) == live(before, last));
            lemma_live_twice(before, last, now);
            assert(entries_of(p, x) == live(before, now));
            if x == peer && admitted[i] {
                assert(admitted_times(peers, times, admitted, k, x) == before.push(now));
                assert(before.push(now).drop_last() == before);
                assert(before.push(now).last() == now);
                assert(fresh(now, now));
                assert(live(before.push(now), now) == live(before, now).push(now));
                assert(maps[k] == p.insert(peer, entries_of(p, peer).push(now)));
            } else {
                assert(admitted_times(peers, times, admitted, k, x) == before);
                if admitted[i] {
                    assert(maps[k] == p.insert(peer, entries_of(p, peer).push(now)));
                } else {
                    assert(maps[k] == p);
                }
            }
        }
    }
}

/// Over a whole run of checks (clock readings that never go back, no peer
/// evicted for want of room), a peer is admitted exactly when fewer than
/// `MAX_CONNECTS_PER_PEER_PER_WINDOW` of its earlier admitted connects
/// still count; refused connects count for nothing.
pub proof fn lemma_rate_history(
    peers: Seq<Seq<char>>,
    times: Seq<u64>,
    admitted: Seq<bool>,
    maps: Seq<Map<Seq<char>, Seq<u64>>>,
)
    requires
        peers.len() == times.len() == admitted.len(),
        maps.len() == peers.len() + 1,
        maps[0] == Map::<Seq<char>, Seq<u64>>::empty(),
        forall|i: int, j: int| 0 <= i <= j < times.len() ==> times[i] <= times[j],
        forall|i: int| 0 <= i < peers.len() ==> #[trigger] rate_step(maps[i], peers[i], times[i], admitted[i], maps[i + 1]),
        forall|i: int| 0 <= i < peers.len() && admitted[i] ==> pruned(maps[i], times[i]).contains_key(#[trigger] peers[i])
            || pruned(maps[i], times[i]).len() < MAX_QUIC_TRACKED_PEERS,
    ensures
        forall|k: int| 0 <= k < peers.len() ==> #[trigger] admitted[k] == (live(
            admitted_times(peers, times, admitted, k, peers[k]),
            times[k],
        ).len() < MAX_CONNECTS_PER_PEER_PER_WINDOW),
{
    assert forall|k: int| 0 <= k < peers.len() implies #[trigger] admitted[k] == (live(
        admitted_times(peers, times, admitted, k, peers[k]),
        times[k],
    ).len() < MAX_CONNECTS_PER_PEER_PER_WINDOW) by {
        lemma_history_invariant(peers, times, admitted, maps, k);
        let last: u64 = if k == 0 { 0 } else { times[k - 1] };
        let before = admitted_times(peers, times, admitted, k, peers[k]);
        assert(entries_of(maps[k], peers[k]) == live(before, last));
        lemma_entries_of_pruned(maps[k], times[k], peers[k]);
        lemma_live_twice(before, last, times[k]);
        assert(rate_step(maps[k], peers[k], times[k], admitted[k], maps[k + 1]));
    }
}

} // verus!
