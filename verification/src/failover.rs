//! Upstream selection and failover.
//!
//! A connection handler asks for a live upstream, tries to connect to it, and
//! on a connect failure marks it dead and asks again. Selection fails only
//! when every configured address is dead. The caller performs the actual
//! connect; the decisions here are what it acts on.

use crate::registry::all_dead_of;
use crate::registry::lemma_live_of_empty;
use crate::registry::lemma_live_of_membership;
use crate::registry::live_of;
use crate::registry::UpstreamRegistry;
use rand::RngExt;
use vstd::prelude::*;

verus! {

/// Selection failed: every configured upstream is currently dead.
#[derive(Clone, Copy, PartialEq, Eq, Structural, Debug)]
pub enum SelectError {
    NoUpstreamAvailable,
}

/// Relies on rand's `Rng::random_range` over `0..n`: the sampled value lies
/// in the range, which must be non-empty (`random_range` panics on an empty
/// range).
#[verifier::external_body]
fn random_index(n: usize) -> (r: usize)
    requires
        n > 0,
    ensures
        r < n,
{
    rand::rng().random_range(0..n)
}

/// Pick an upstream to try: one of the currently live addresses, chosen at
/// random; fails exactly when every configured address is dead.
pub fn select_upstream(reg: &UpstreamRegistry) -> (r: Result<String, SelectError>)
    requires
        reg.wf(),
    ensures
        r is Err <==> reg.spec_all_dead(),
        match r {
            Ok(a) => reg.is_live(a@),
            Err(e) => e == SelectError::NoUpstreamAvailable,
        },
{
    let live = reg.snapshot_live();
    proof {
        lemma_live_of_empty(reg.addrs(), reg.dead_set());
    }
    if live.len() == 0 {
        Err(SelectError::NoUpstreamAvailable)
    } else {
        let i = random_index(live.len());
        let a = live[i].clone();
        proof {
            assert(live.deep_view()[i as int] == a@);
            assert(live_of(reg.addrs(), reg.dead_set()).contains(a@));
            lemma_live_of_membership(reg.addrs(), reg.dead_set(), a@);
        }
        Ok(a)
    }
}

/// Record a connect failure: mark the address dead, and report whether the
/// registry is now exhausted (the caller then gives up with a bad-gateway
/// reply instead of retrying).
pub fn after_connect_failure(reg: &mut UpstreamRegistry, addr: &String) -> (exhausted: bool)
    requires
        old(reg).wf(),
        old(reg).addrs().contains(addr@),
    ensures
        final(reg).wf(),
        final(reg).addrs() == old(reg).addrs(),
        final(reg).dead_set() == old(reg).dead_set().insert(addr@),
        exhausted == final(reg).spec_all_dead(),
{
    reg.mark_dead(addr);
    reg.all_dead()
}

/// The dead set produced by a run of connect failures, starting from a fresh
/// registry: each failure inserts its address.
pub open spec fn marked_dead_after(failures: Seq<Seq<char>>) -> Set<Seq<char>>
    decreases failures.len(),
{
    if failures.len() == 0 {
        Set::empty()
    } else {
        marked_dead_after(failures.drop_last()).insert(failures.last())
    }
}

/// Failover marks exactly the failed addresses dead: after a run of connect
/// failures the dead set is precisely the set of failed addresses; selection
/// then fails if and only if every configured address is among them, and any
/// address still selectable is a configured one that did not fail.
pub proof fn lemma_failover(addrs: Seq<Seq<char>>, failures: Seq<Seq<char>>)
    ensures
        marked_dead_after(failures) == failures.to_set(),
        live_of(addrs, failures.to_set()).len() == 0 <==> all_dead_of(addrs, failures.to_set()),
        forall|a: Seq<char>|
            live_of(addrs, failures.to_set()).contains(a) <==> addrs.contains(a)
                && !failures.to_set().contains(a),
{
    lemma_marked_dead_is_set(failures);
    lemma_live_of_empty(addrs, failures.to_set());
    assert forall|a: Seq<char>|
        live_of(addrs, failures.to_set()).contains(a) <==> addrs.contains(a)
            && !failures.to_set().contains(a) by {
        lemma_live_of_membership(addrs, failures.to_set(), a);
    }
}

/// Marking one more address dead never revives anything: the live snapshot
/// can only shrink.
pub proof fn lemma_live_of_insert_monotone(
    addrs: Seq<Seq<char>>,
    dead: Set<Seq<char>>,
    a: Seq<char>,
)
    ensures
        live_of(addrs, dead.insert(a)).len() <= live_of(addrs, dead).len(),
    decreases addrs.len(),
{
    if addrs.len() > 0 {
        lemma_live_of_insert_monotone(addrs.drop_last(), dead, a);
    }
}

/// Failover terminates: a connect failure on an address that was still live
/// strictly shrinks the live snapshot, so after finitely many failures
/// selection either succeeds or reports every upstream dead.
pub proof fn lemma_failure_shrinks_live(addrs: Seq<Seq<char>>, dead: Set<Seq<char>>, a: Seq<char>)
    requires
        addrs.contains(a),
        !dead.contains(a),
    ensures
        live_of(addrs, dead.insert(a)).len() < live_of(addrs, dead).len(),
    decreases addrs.len(),
{
    if addrs.len() > 0 {
        let last = addrs.last();
        let rest = addrs.drop_last();
        if last == a {
            lemma_live_of_insert_monotone(rest, dead, a);
        } else {
            assert(rest.contains(a)) by {
                let i = choose|i: int| 0 <= i < addrs.len() && addrs[i] == a;
                assert(rest[i] == a);
            }
            lemma_failure_shrinks_live(rest, dead, a);
        }
    }
}

proof fn lemma_marked_dead_is_set(failures: Seq<Seq<char>>)
    ensures
        marked_dead_after(failures) == failures.to_set(),
    decreases failures.len(),
{
    if failures.len() == 0 {
        assert(marked_dead_after(failures) =~= failures.to_set());
    } else {
        lemma_marked_dead_is_set(failures.drop_last());
        assert forall|a: Seq<char>| failures.contains(a) implies failures.drop_last().contains(a)
            || a == failures.last() by {
            let i = choose|i: int| 0 <= i < failures.len() && failures[i] == a;
            if i < failures.len() - 1 {
                assert(failures.drop_last()[i] == a);
            }
        }
        assert forall|a: Seq<char>| failures.drop_last().contains(a) implies failures.contains(
            a,
        ) by {
            let i = choose|i: int|
                0 <= i < failures.drop_last().len() && failures.drop_last()[i] == a;
            assert(failures[i] == a);
        }
        assert(failures.contains(failures.last()));
        assert(marked_dead_after(failures) =~= failures.to_set());
    }
}

} // verus!
