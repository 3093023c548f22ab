//! Element-wise vector warm-ups: shifting every element and removing
//! duplicates while keeping first occurrences.

use vstd::prelude::*;

verus! {

/// Whether `v` holds `x`.
pub fn contains_i32(v: &Vec<i32>, x: i32) -> (r: bool)
    ensures
        r == v@.contains(x),
{
    let mut i: usize = 0;
    while i < v.len()
        invariant
            i <= v@.len(),
            forall|j: int| 0 <= j < i ==> v@[j] != x,
        decreases v@.len() - i,
    {
        if v[i] == x {
            return true;
        }
        i += 1;
    }
    false
}

/// A copy of `v` with `n` added to each element.
pub fn add_n(v: Vec<i32>, n: i32) -> (r: Vec<i32>)
    requires
        forall|i: int|
            0 <= i < v@.len() ==> i32::MIN <= #[trigger] v@[i] + n <= i32::MAX,
    ensures
        r@.len() == v@.len(),
        forall|i: int| 0 <= i < v@.len() ==> r@[i] == v@[i] + n,
{
    let mut res: Vec<i32> = Vec::new();
    let mut i: usize = 0;
    while i < v.len()
        invariant
            i <= v@.len(),
            res@.len() == i,
            forall|j: int| 0 <= j < i ==> res@[j] == v@[j] + n,
            forall|j: int|
                0 <= j < v@.len() ==> i32::MIN <= #[trigger] v@[j] + n <= i32::MAX,
        decreases v@.len() - i,
    {
        res.push(v[i] + n);
        i += 1;
    }
    res
}

/// Add `n` to each element of `v`, in place.
pub fn add_n_inplace(v: &mut Vec<i32>, n: i32)
    requires
        forall|i: int|
            0 <= i < old(v)@.len() ==> i32::MIN <= #[trigger] old(v)@[i] + n <= i32::MAX,
    ensures
        final(v)@.len() == old(v)@.len(),
        forall|i: int| 0 <= i < old(v)@.len() ==> final(v)@[i] == old(v)@[i] + n,
{
    let mut i: usize = 0;
    while i < v.len()
        invariant
            i <= v@.len(),
            v@.len() == old(v)@.len(),
            forall|j: int| 0 <= j < i ==> v@[j] == old(v)@[j] + n,
            forall|j: int| i <= j < v@.len() ==> v@[j] == old(v)@[j],
            forall|j: int|
                0 <= j < old(v)@.len() ==> i32::MIN <= #[trigger] old(v)@[j] + n <= i32::MAX,
        decreases v@.len() - i,
    {
        let x = v[i];
        v.set(i, x + n);
        i += 1;
    }
}

/// `s` with every repeated element dropped: first occurrences survive, in
/// their original order.
pub open spec fn dedup_of(s: Seq<i32>) -> Seq<i32>
    decreases s.len(),
{
    if s.len() == 0 {
        Seq::empty()
    } else {
        let rest = dedup_of(s.drop_last());
        if s.drop_last().contains(s.last()) {
            rest
        } else {
            rest.push(s.last())
        }
    }
}

/// Deduplication keeps exactly the elements of its input.
pub proof fn lemma_dedup_membership(s: Seq<i32>, x: i32)
    ensures
        dedup_of(s).contains(x) <==> s.contains(x),
    decreases s.len(),
{
    if s.len() > 0 {
        lemma_dedup_membership(s.drop_last(), x);
        let rest = dedup_of(s.drop_last());
        assert(s.contains(x) <==> s.drop_last().contains(x) || x == s.last()) by {
            if s.contains(x) {
                let i = choose|i: int| 0 <= i < s.len() && s[i] == x;
                if i < s.len() - 1 {
                    assert(s.drop_last()[i] == x);
                }
            }
            if s.drop_last().contains(x) {
                let i = choose|i: int| 0 <= i < s.drop_last().len() && s.drop_last()[i] == x;
                assert(s[i] == x);
            }
        }
        if !s.drop_last().contains(s.last()) {
            assert(rest.push(s.last()).contains(x) <==> rest.contains(x) || x == s.last()) by {
                if rest.contains(x) {
                    let i = choose|i: int| 0 <= i < rest.len() && rest[i] == x;
                    assert(rest.push(s.last())[i] == x);
                }
                assert(rest.push(s.last())[rest.len() as int] == s.last());
            }
        }
    }
}

/// Remove duplicate elements, in place; the first occurrence of each value
/// stays, in the original order.
pub fn dedup(v: &mut Vec<i32>)
    ensures
        final(v)@ == dedup_of(old(v)@),
{
    let mut out: Vec<i32> = Vec::new();
    let mut i: usize = 0;
    while i < v.len()
        invariant
            i <= v@.len(),
            *v == *old(v),
            out@ =~= dedup_of(v@.take(i as int)),
        decreases v@.len() - i,
    {
        let ghost prefix = v@.take(i as int);
        let ghost next = v@.take(i as int + 1);
        proof {
            assert(next.drop_last() =~= prefix);
            assert(next.last() == v@[i as int]);
            lemma_dedup_membership(prefix, v@[i as int]);
        }
        if !contains_i32(&out, v[i]) {
            out.push(v[i]);
        }
        i += 1;
    }
    proof {
        assert(v@.take(v@.len() as int) =~= v@);
    }
    *v = out;
}

} // verus!
