//! Fixed-window rate limiting: per-client request counters that a periodic
//! reset clears in bulk.
//!
//! Every request increments its client's counter before the threshold check,
//! so rejected requests still count against the window. A limit of zero
//! disables limiting entirely. The window roll-over is the caller's clock
//! work; it calls `reset` once per window.

use vstd::prelude::*;

verus! {

/// The counter map described by a list of entries, later entries winning.
pub open spec fn map_of(entries: Seq<(Seq<char>, u64)>) -> Map<Seq<char>, u64>
    decreases entries.len(),
{
    if entries.len() == 0 {
        Map::empty()
    } else {
        map_of(entries.drop_last()).insert(entries.last().0, entries.last().1)
    }
}

/// The count recorded for `ip`: its entry, or zero when absent.
pub open spec fn count_of(m: Map<Seq<char>, u64>, ip: Seq<char>) -> u64 {
    if m.contains_key(ip) {
        m[ip]
    } else {
        0
    }
}

/// A counter bumped by one request; pinned at the top of its range.
pub open spec fn bump(c: u64) -> u64 {
    if c < u64::MAX {
        (c + 1) as u64
    } else {
        c
    }
}

proof fn lemma_map_of_contains(entries: Seq<(Seq<char>, u64)>, ip: Seq<char>)
    ensures
        map_of(entries).contains_key(ip) <==> exists|i: int|
            0 <= i < entries.len() && (#[trigger] entries[i]).0 == ip,
    decreases entries.len(),
{
    if entries.len() > 0 {
        lemma_map_of_contains(entries.drop_last(), ip);
        if map_of(entries).contains_key(ip) {
            if entries.last().0 != ip {
                let i = choose|i: int|
                    0 <= i < entries.drop_last().len() && (#[trigger] entries.drop_last()[i]).0
                        == ip;
                assert(entries[i].0 == ip);
            } else {
                assert(entries[entries.len() - 1].0 == ip);
            }
        }
        if exists|i: int| 0 <= i < entries.len() && (#[trigger] entries[i]).0 == ip {
            let i = choose|i: int| 0 <= i < entries.len() && (#[trigger] entries[i]).0 == ip;
            if i < entries.len() - 1 {
                assert(entries.drop_last()[i].0 == ip);
            }
        }
    }
}

proof fn lemma_map_of_lookup(entries: Seq<(Seq<char>, u64)>, i: int)
    requires
        0 <= i < entries.len(),
        forall|p: int, q: int|
            0 <= p < q < entries.len() ==> (#[trigger] entries[p]).0 != (#[trigger] entries[q]).0,
    ensures
        map_of(entries).contains_key(entries[i].0),
        map_of(entries)[entries[i].0] == entries[i].1,
    decreases entries.len(),
{
    if i == entries.len() - 1 {
        lemma_map_of_contains(entries, entries[i].0);
    } else {
        lemma_map_of_lookup(entries.drop_last(), i);
        assert(entries.drop_last()[i] == entries[i]);
        assert(entries.last().0 != entries[i].0);
    }
}

proof fn lemma_map_of_update(entries: Seq<(Seq<char>, u64)>, i: int, v: u64)
    requires
        0 <= i < entries.len(),
        forall|p: int, q: int|
            0 <= p < q < entries.len() ==> (#[trigger] entries[p]).0 != (#[trigger] entries[q]).0,
    ensures
        map_of(entries.update(i, (entries[i].0, v))) == map_of(entries).insert(entries[i].0, v),
    decreases entries.len(),
{
    let k = entries[i].0;
    let updated = entries.update(i, (k, v));
    if i == entries.len() - 1 {
        assert(updated.drop_last() =~= entries.drop_last());
        assert(updated.last() == (k, v));
        assert(map_of(updated) =~= map_of(entries).insert(k, v));
    } else {
        lemma_map_of_update(entries.drop_last(), i, v);
        assert(updated.drop_last() =~= entries.drop_last().update(i, (k, v)));
        assert(updated.last() == entries.last());
        assert(entries.last().0 != k);
        assert(map_of(updated) =~= map_of(entries).insert(k, v));
    }
}

/// The position of the entry for `ip`, if one exists.
fn find_entry(entries: &Vec<(String, u64)>, ip: &String) -> (r: Option<usize>)
    ensures
        match r {
            Some(i) => i < entries@.len() && entries@[i as int].0@ == ip@,
            None => forall|j: int| 0 <= j < entries@.len() ==> (#[trigger] entries@[j]).0@ != ip@,
        },
{
    let mut i: usize = 0;
    while i < entries.len()
        invariant
            i <= entries@.len(),
            forall|j: int| 0 <= j < i ==> (#[trigger] entries@[j]).0@ != ip@,
        decreases entries@.len() - i,
    {
        if entries[i].0 == *ip {
            return Some(i);
        }
        i += 1;
    }
    None
}

/// Per-client request counters for the current window.
pub struct RateLimitTable {
    entries: Vec<(String, u64)>,
}

impl RateLimitTable {
    /// Internal invariant: one entry per client.
    pub closed spec fn wf(&self) -> bool {
        forall|p: int, q: int|
            0 <= p < q < self.entries@.len() ==> (#[trigger] self.entries@[p]).0@
                != (#[trigger] self.entries@[q]).0@
    }

    /// The counters as a map from client to count.
    pub closed spec fn counts(&self) -> Map<Seq<char>, u64> {
        map_of(self.entries.deep_view())
    }

    /// The count recorded for `ip` in the current window.
    pub open spec fn count(&self, ip: Seq<char>) -> u64 {
        count_of(self.counts(), ip)
    }

    /// An empty table: no client has been counted.
    pub fn new() -> (r: RateLimitTable)
        ensures
            r.wf(),
            r.counts() == Map::<Seq<char>, u64>::empty(),
    {
        RateLimitTable { entries: Vec::new() }
    }

    /// Count one request from `ip` and return its new count. Saturates at the
    /// top of the counter range; every other client's count is untouched.
    pub fn note_request(&mut self, ip: &String) -> (c: u64)
        requires
            old(self).wf(),
        ensures
            final(self).wf(),
            c == bump(old(self).count(ip@)),
            final(self).counts() == old(self).counts().insert(ip@, c),
    {
        let ghost oe = old(self).entries.deep_view();
        if let Some(i) = find_entry(&self.entries, ip) {
            let prev = self.entries[i].1;
            let c = if prev < u64::MAX {
                prev + 1
            } else {
                prev
            };
            let key = self.entries[i].0.clone();
            self.entries.set(i, (key, c));
            proof {
                assert(self.entries.deep_view() =~= oe.update(i as int, (ip@, c)));
                assert(oe[i as int].0 == ip@);
                assert(oe[i as int] == (ip@, prev));
                lemma_map_of_lookup(oe, i as int);
                assert(old(self).count(ip@) == prev);
                lemma_map_of_update(oe, i as int, c);
                assert(forall|p: int, q: int|
                    0 <= p < q < self.entries@.len() ==> (#[trigger] self.entries@[p]).0@ != (
                #[trigger] self.entries@[q]).0@);
            }
            return c;
        }
        self.entries.push((ip.clone(), 1));
        proof {
            assert(self.entries.deep_view() =~= oe.push((ip@, 1u64)));
            assert(self.entries.deep_view().drop_last() =~= oe);
            assert(!map_of(oe).contains_key(ip@)) by {
                lemma_map_of_contains(oe, ip@);
                if exists|k: int| 0 <= k < oe.len() && (#[trigger] oe[k]).0 == ip@ {
                    let k = choose|k: int| 0 <= k < oe.len() && (#[trigger] oe[k]).0 == ip@;
                    assert(old(self).entries@[k].0@ == ip@);
                }
            }
            assert(old(self).count(ip@) == 0);
            assert(final(self).counts() =~= old(self).counts().insert(ip@, 1u64));
            assert forall|p: int, q: int|
                0 <= p < q < self.entries@.len() implies (#[trigger] self.entries@[p]).0@ != (
            #[trigger] self.entries@[q]).0@ by {
                if q == self.entries@.len() - 1 {
                    assert(self.entries@[p].0@ != ip@);
                }
            }
        }
        1
    }

    /// Window roll-over: clear every counter at once.
    pub fn reset(&mut self)
        ensures
            final(self).wf(),
            final(self).counts() == Map::<Seq<char>, u64>::empty(),
    {
        self.entries.clear();
    }
}

/// Whether the request is forwarded or refused.
#[derive(Clone, Copy, PartialEq, Eq, Structural, Debug)]
pub enum RateDecision {
    Allowed,
    LimitExceeded,
}

/// One request from `ip` against a per-window limit. With limit zero nothing
/// is counted and nothing is ever refused; otherwise the request is counted
/// first and refused exactly when the new count exceeds the limit.
pub fn rate_limit_step(table: &mut RateLimitTable, ip: &String, limit: u64) -> (d: RateDecision)
    requires
        old(table).wf(),
    ensures
        final(table).wf(),
        limit == 0 ==> *final(table) == *old(table) && d == RateDecision::Allowed,
        limit > 0 ==> {
            let c = bump(count_of(old(table).counts(), ip@));
            &&& final(table).counts() == old(table).counts().insert(ip@, c)
            &&& (d == RateDecision::LimitExceeded <==> c > limit)
        },
{
    if limit == 0 {
        RateDecision::Allowed
    } else {
        let c = table.note_request(ip);
        if c > limit {
            RateDecision::LimitExceeded
        } else {
            RateDecision::Allowed
        }
    }
}

/// The counters after `k` requests from one client into a fresh window.
pub open spec fn window_after(ip: Seq<char>, k: nat) -> Map<Seq<char>, u64>
    decreases k,
{
    if k == 0 {
        Map::empty()
    } else {
        let prev = window_after(ip, (k - 1) as nat);
        prev.insert(ip, bump(count_of(prev, ip)))
    }
}

/// Within one window a client's count is exactly its number of requests.
pub proof fn lemma_window_count(ip: Seq<char>, k: nat)
    requires
        k <= u64::MAX,
    ensures
        count_of(window_after(ip, k), ip) == k,
    decreases k,
{
    if k > 0 {
        lemma_window_count(ip, (k - 1) as nat);
    }
}

/// Fixed-window rate limiting: with a positive limit, the k-th request of a
/// client within one window is refused exactly when k exceeds the limit — in
/// particular every request after a window reset starts from a count of zero
/// again.
pub proof fn lemma_fixed_window(ip: Seq<char>, k: nat, limit: u64)
    requires
        limit > 0,
        1 <= k <= u64::MAX,
    ensures
        bump(count_of(window_after(ip, (k - 1) as nat), ip)) > limit <==> k > limit,
{
    lemma_window_count(ip, (k - 1) as nat);
}

} // verus!
