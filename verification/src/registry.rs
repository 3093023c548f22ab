//! The upstream registry: the configured upstream addresses together with the
//! set of addresses currently believed dead.
//!
//! Liveness is tracked by address value, not by position: an address that is
//! configured twice is either fully live or fully dead. The dead set only
//! ever holds configured addresses.

use crate::strutil::contains_string;
use crate::strutil::find_string;
use vstd::prelude::*;

verus! {

/// The live entries of `addrs`, in configured order (duplicates kept):
/// exactly those addresses not in `dead`.
pub open spec fn live_of(addrs: Seq<Seq<char>>, dead: Set<Seq<char>>) -> Seq<Seq<char>>
    decreases addrs.len(),
{
    if addrs.len() == 0 {
        Seq::empty()
    } else {
        let rest = live_of(addrs.drop_last(), dead);
        if dead.contains(addrs.last()) {
            rest
        } else {
            rest.push(addrs.last())
        }
    }
}

/// Every configured address is in `dead`.
pub open spec fn all_dead_of(addrs: Seq<Seq<char>>, dead: Set<Seq<char>>) -> bool {
    forall|i: int| 0 <= i < addrs.len() ==> dead.contains(#[trigger] addrs[i])
}

/// An address is live when it is configured and not marked dead.
pub proof fn lemma_live_of_membership(addrs: Seq<Seq<char>>, dead: Set<Seq<char>>, a: Seq<char>)
    ensures
        live_of(addrs, dead).contains(a) <==> addrs.contains(a) && !dead.contains(a),
    decreases addrs.len(),
{
    if addrs.len() > 0 {
        lemma_live_of_membership(addrs.drop_last(), dead, a);
        let rest = live_of(addrs.drop_last(), dead);
        assert(addrs.contains(a) <==> addrs.drop_last().contains(a) || a == addrs.last()) by {
            if addrs.contains(a) {
                let i = choose|i: int| 0 <= i < addrs.len() && addrs[i] == a;
                if i < addrs.len() - 1 {
                    assert(addrs.drop_last()[i] == a);
                }
            }
            if addrs.drop_last().contains(a) {
                let i = choose|i: int|
                    0 <= i < addrs.drop_last().len() && addrs.drop_last()[i] == a;
                assert(addrs[i] == a);
            }
        }
        if !dead.contains(addrs.last()) {
            assert(rest.push(addrs.last()).contains(a) <==> rest.contains(a) || a
                == addrs.last()) by {
                if rest.contains(a) {
                    let i = choose|i: int| 0 <= i < rest.len() && rest[i] == a;
                    assert(rest.push(addrs.last())[i] == a);
                }
                assert(rest.push(addrs.last())[rest.len() as int] == addrs.last());
            }
        }
    }
}

/// The live snapshot is empty exactly when every configured address is dead.
pub proof fn lemma_live_of_empty(addrs: Seq<Seq<char>>, dead: Set<Seq<char>>)
    ensures
        live_of(addrs, dead).len() == 0 <==> all_dead_of(addrs, dead),
    decreases addrs.len(),
{
    if addrs.len() > 0 {
        lemma_live_of_empty(addrs.drop_last(), dead);
        assert(forall|i: int|
            0 <= i < addrs.len() - 1 ==> addrs.drop_last()[i] == #[trigger] addrs[i]);
        if live_of(addrs, dead).len() == 0 {
            assert(dead.contains(addrs.last()));
            assert(forall|i: int| 0 <= i < addrs.len() - 1 ==> dead.contains(#[trigger] addrs[i]));
        }
    }
}

/// Registry of upstream addresses and the subset currently believed dead.
pub struct UpstreamRegistry {
    addresses: Vec<String>,
    dead: Vec<String>,
}

impl UpstreamRegistry {
    /// The configured addresses, in order.
    pub closed spec fn addrs(&self) -> Seq<Seq<char>> {
        self.addresses.deep_view()
    }

    /// The set of addresses currently marked dead.
    pub closed spec fn dead_set(&self) -> Set<Seq<char>> {
        self.dead.deep_view().to_set()
    }

    /// Internal invariant: the dead list has no repeated address, and every
    /// dead address is a configured one.
    pub closed spec fn wf(&self) -> bool {
        &&& forall|i: int, j: int|
            0 <= i < j < self.dead@.len() ==> #[trigger] self.dead@[i]@ != #[trigger] self.dead@[j]@
        &&& forall|i: int| 0 <= i < self.dead@.len() ==> self.addrs().contains(#[trigger] self.dead@[i]@)
    }

    /// Configured, and not marked dead.
    pub open spec fn is_live(&self, a: Seq<char>) -> bool {
        self.addrs().contains(a) && !self.dead_set().contains(a)
    }

    /// Every configured address (counting duplicates) is dead.
    pub open spec fn spec_all_dead(&self) -> bool {
        all_dead_of(self.addrs(), self.dead_set())
    }

    /// A fresh registry: the given addresses, nothing dead.
    pub fn new(addresses: Vec<String>) -> (r: UpstreamRegistry)
        ensures
            r.wf(),
            r.addrs() == addresses.deep_view(),
            r.dead_set() == Set::<Seq<char>>::empty(),
    {
        let r = UpstreamRegistry { addresses, dead: Vec::new() };
        proof {
            assert(r.dead.deep_view().to_set() =~= Set::<Seq<char>>::empty());
        }
        r
    }

    /// Insert `addr` into the dead set. Idempotent.
    pub fn mark_dead(&mut self, addr: &String)
        requires
            old(self).wf(),
            old(self).addrs().contains(addr@),
        ensures
            final(self).wf(),
            final(self).addrs() == old(self).addrs(),
            final(self).dead_set() == old(self).dead_set().insert(addr@),
    {
        if !contains_string(&self.dead, addr) {
            self.dead.push(addr.clone());
            proof {
                let ov = old(self).dead.deep_view();
                let dv = self.dead.deep_view();
                assert(self.dead@ =~= old(self).dead@.push(*addr));
                assert(dv.len() == ov.len() + 1);
                assert forall|k: int| 0 <= k < ov.len() implies dv[k] == ov[k] by {
                    assert(self.dead@[k] == old(self).dead@[k]);
                }
                assert(dv[ov.len() as int] == addr@);
                assert(dv =~= ov.push(addr@));
                // the new entry was absent, so uniqueness is preserved
                assert forall|p: int, q: int|
                    0 <= p < q < self.dead@.len() implies #[trigger] self.dead@[p]@
                    != #[trigger] self.dead@[q]@ by {
                    if q < ov.len() {
                        assert(old(self).dead@[p]@ != old(self).dead@[q]@);
                    } else {
                        assert(dv[q] == addr@);
                        assert(!ov.contains(addr@));
                        assert(ov[p] != addr@);
                    }
                }
                assert(self.addrs() == old(self).addrs());
                assert forall|p: int| 0 <= p < self.dead@.len() implies self.addrs().contains(
                    #[trigger] self.dead@[p]@,
                ) by {
                    if p < ov.len() {
                        assert(old(self).addrs().contains(old(self).dead@[p]@));
                    }
                }
                assert forall|a: Seq<char>| dv.to_set().contains(a) implies ov.to_set().insert(
                    addr@,
                ).contains(a) by {
                    let k = choose|k: int| 0 <= k < dv.len() && dv[k] == a;
                    if k < ov.len() {
                        assert(ov[k] == a);
                    }
                }
                assert forall|a: Seq<char>|
                    ov.to_set().insert(addr@).contains(a) implies dv.to_set().contains(a) by {
                    if ov.to_set().contains(a) {
                        let k = choose|k: int| 0 <= k < ov.len() && ov[k] == a;
                        assert(dv[k] == a);
                    } else {
                        assert(dv[ov.len() as int] == addr@);
                    }
                }
                assert(self.dead_set() =~= old(self).dead_set().insert(addr@));
            }
        } else {
            proof {
                assert(self.dead_set().contains(addr@));
                assert(self.dead_set() =~= self.dead_set().insert(addr@));
            }
        }
    }

    /// Remove `addr` from the dead set. Idempotent; reports whether anything
    /// changed.
    pub fn mark_live(&mut self, addr: &String) -> (changed: bool)
        requires
            old(self).wf(),
        ensures
            final(self).wf(),
            final(self).addrs() == old(self).addrs(),
            final(self).dead_set() == old(self).dead_set().remove(addr@),
            changed == old(self).dead_set().contains(addr@),
    {
        match find_string(&self.dead, addr) {
            Some(i) => {
                self.dead.remove(i);
                proof {
                    let ov = old(self).dead.deep_view();
                    let dv = self.dead.deep_view();
                    old(self).dead@.remove_ensures(i as int);
                    assert(dv.len() == ov.len() - 1);
                    assert(ov[i as int] == addr@);
                    assert forall|k: int| 0 <= k < dv.len() implies dv[k] == (if k < i {
                        ov[k]
                    } else {
                        ov[k + 1]
                    }) by {
                        if k < i {
                            assert(self.dead@[k] == old(self).dead@[k]);
                        } else {
                            assert(self.dead@[k] == old(self).dead@[k + 1]);
                        }
                    }
                    // uniqueness and membership carry over entry by entry
                    assert forall|p: int, q: int|
                        0 <= p < q < self.dead@.len() implies #[trigger] self.dead@[p]@
                        != #[trigger] self.dead@[q]@ by {
                        let po: int = if p < i { p } else { p + 1 };
                        let qo: int = if q < i { q } else { q + 1 };
                        assert(old(self).dead@[po]@ != old(self).dead@[qo]@);
                    }
                    assert(self.addrs() == old(self).addrs());
                    assert forall|p: int| 0 <= p < self.dead@.len() implies self.addrs().contains(
                        #[trigger] self.dead@[p]@,
                    ) by {
                        let po: int = if p < i { p } else { p + 1 };
                        assert(old(self).addrs().contains(old(self).dead@[po]@));
                    }
                    assert forall|a: Seq<char>| dv.to_set().contains(a) implies ov.to_set().remove(
                        addr@,
                    ).contains(a) by {
                        let k = choose|k: int| 0 <= k < dv.len() && dv[k] == a;
                        let ko: int = if k < i { k } else { k + 1 };
                        assert(ov[ko] == a);
                        // the removed entry was the only one equal to addr
                        assert(a != addr@) by {
                            if ko != i && ov[ko] == addr@ {
                                assert(old(self).dead@[ko]@ == old(self).dead@[i as int]@);
                            }
                        }
                    }
                    assert forall|a: Seq<char>|
                        ov.to_set().remove(addr@).contains(a) implies dv.to_set().contains(a) by {
                        let k = choose|k: int| 0 <= k < ov.len() && ov[k] == a;
                        assert(k != i);
                        let kn: int = if k < i {
                            k
                        } else {
                            k - 1
                        };
                        assert(dv[kn] == a);
                    }
                    assert(self.dead_set() =~= old(self).dead_set().remove(addr@));
                    assert(old(self).dead_set().contains(addr@));
                }
                true
            },
            None => {
                proof {
                    assert(!self.dead_set().contains(addr@)) by {
                        if self.dead.deep_view().contains(addr@) {
                            let k = choose|k: int|
                                0 <= k < self.dead.deep_view().len() && self.dead.deep_view()[k]
                                    == addr@;
                            assert(self.dead@[k]@ == addr@);
                        }
                    }
                    assert(self.dead_set() =~= self.dead_set().remove(addr@));
                }
                false
            },
        }
    }

    /// The configured addresses not currently dead, in configured order.
    pub fn snapshot_live(&self) -> (live: Vec<String>)
        requires
            self.wf(),
        ensures
            live.deep_view() == live_of(self.addrs(), self.dead_set()),
    {
        let mut live: Vec<String> = Vec::new();
        let mut i: usize = 0;
        while i < self.addresses.len()
            invariant
                self.wf(),
                i <= self.addresses@.len(),
                live.deep_view() =~= live_of(self.addrs().take(i as int), self.dead_set()),
            decreases self.addresses@.len() - i,
        {
            let ghost prefix = self.addrs().take(i as int);
            let ghost next = self.addrs().take(i as int + 1);
            proof {
                assert(next.drop_last() =~= prefix);
                assert(next.last() == self.addrs()[i as int]);
            }
            if !contains_string(&self.dead, &self.addresses[i]) {
                proof {
                    assert(!self.dead_set().contains(self.addrs()[i as int])) by {
                        if self.dead.deep_view().to_set().contains(self.addrs()[i as int]) {
                            let k = choose|k: int|
                                0 <= k < self.dead.deep_view().len() && self.dead.deep_view()[k]
                                    == self.addrs()[i as int];
                            assert(self.dead.deep_view().contains(self.addrs()[i as int]));
                        }
                    }
                }
                live.push(self.addresses[i].clone());
                proof {
                    assert(live.deep_view() =~= live_of(next, self.dead_set()));
                }
            } else {
                proof {
                    assert(self.dead_set().contains(self.addrs()[i as int])) by {
                        let k = choose|k: int|
                            0 <= k < self.dead.deep_view().len() && self.dead.deep_view()[k]
                                == self.addrs()[i as int];
                    }
                    assert(live.deep_view() =~= live_of(next, self.dead_set()));
                }
            }
            i += 1;
        }
        proof {
            assert(self.addrs().take(self.addresses@.len() as int) =~= self.addrs());
        }
        live
    }

    /// Whether every configured address is currently dead.
    pub fn all_dead(&self) -> (r: bool)
        requires
            self.wf(),
        ensures
            r == self.spec_all_dead(),
    {
        let mut i: usize = 0;
        while i < self.addresses.len()
            invariant
                self.wf(),
                i <= self.addresses@.len(),
                forall|j: int| 0 <= j < i ==> self.dead_set().contains(#[trigger] self.addrs()[j]),
            decreases self.addresses@.len() - i,
        {
            if !contains_string(&self.dead, &self.addresses[i]) {
                proof {
                    assert(!self.dead_set().contains(self.addrs()[i as int])) by {
                        if self.dead.deep_view().to_set().contains(self.addrs()[i as int]) {
                            let k = choose|k: int|
                                0 <= k < self.dead.deep_view().len() && self.dead.deep_view()[k]
                                    == self.addrs()[i as int];
                            assert(self.dead.deep_view().contains(self.addrs()[i as int]));
                        }
                    }
                }
                return false;
            }
            proof {
                assert(self.dead_set().contains(self.addrs()[i as int])) by {
                    let k = choose|k: int|
                        0 <= k < self.dead.deep_view().len() && self.dead.deep_view()[k]
                            == self.addrs()[i as int];
                }
            }
            i += 1;
        }
        true
    }
}

} // verus!
