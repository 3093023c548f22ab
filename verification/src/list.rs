//! A singly linked list with a cached size and a sequence view: the stored
//! values, front first.

use vstd::prelude::*;
use vstd::std_specs::cmp::PartialEqSpec;
use vstd::std_specs::cmp::PartialEqSpecImpl;
use vstd::string::StringExecFns;

verus! {

/// One cell: a value and the rest of the list.
pub struct Node<T> {
    value: T,
    next: Option<Box<Node<T>>>,
}

/// The values hanging off `o`, front first.
pub closed spec fn chain_of<T>(o: Option<Box<Node<T>>>) -> Seq<T>
    decreases o,
{
    match o {
        None => Seq::empty(),
        Some(n) => seq![n.value].add(chain_of(n.next)),
    }
}

/// The values of a cell and everything after it.
pub open spec fn node_chain<T>(n: Node<T>) -> Seq<T> {
    chain_of(Some(Box::new(n)))
}

impl<T> Node<T> {
    /// A cell holding `value` in front of `next`.
    pub fn new(value: T, next: Option<Box<Node<T>>>) -> (r: Node<T>)
        ensures
            node_chain(r) == seq![value].add(chain_of(next)),
    {
        let r = Node { value, next };
        proof {
            assert(node_chain(r) =~= seq![value].add(chain_of(r.next)));
        }
        r
    }
}

/// A list of `T`, front at the head.
pub struct LinkedList<T> {
    head: Option<Box<Node<T>>>,
    size: usize,
}

impl<T> View for LinkedList<T> {
    type V = Seq<T>;

    closed spec fn view(&self) -> Seq<T> {
        chain_of(self.head)
    }
}

impl<T> LinkedList<T> {
    /// Internal invariant: the cached size is the number of stored values.
    pub closed spec fn wf(&self) -> bool {
        self.size == chain_of(self.head).len()
    }

    /// An empty list.
    pub fn new() -> (r: LinkedList<T>)
        ensures
            r.wf(),
            r@ == Seq::<T>::empty(),
    {
        LinkedList { head: None, size: 0 }
    }

    /// How many values are stored.
    pub fn get_size(&self) -> (n: usize)
        requires
            self.wf(),
        ensures
            n == self@.len(),
    {
        self.size
    }

    /// Whether nothing is stored.
    pub fn is_empty(&self) -> (r: bool)
        requires
            self.wf(),
        ensures
            r == (self@.len() == 0),
    {
        self.get_size() == 0
    }

    /// Put `value` in front of everything stored so far.
    pub fn push_front(&mut self, value: T)
        requires
            old(self).wf(),
            old(self)@.len() < usize::MAX,
        ensures
            final(self).wf(),
            final(self)@ == seq![value].add(old(self)@),
    {
        let next = self.head.take();
        proof {
            assert(chain_of(next) == old(self)@);
        }
        let new_node: Box<Node<T>> = Box::new(Node::new(value, next));
        self.head = Some(new_node);
        self.size = self.size + 1;
        proof {
            assert(self@ =~= seq![value].add(old(self)@));
        }
    }

    /// Take the front value out, if there is one; the rest moves up.
    pub fn pop_front(&mut self) -> (r: Option<T>)
        requires
            old(self).wf(),
        ensures
            final(self).wf(),
            match r {
                None => old(self)@.len() == 0 && *final(self) == *old(self),
                Some(v) => {
                    &&& old(self)@.len() > 0
                    &&& v == old(self)@[0]
                    &&& final(self)@ == old(self)@.drop_first()
                },
            },
    {
        match self.head.take() {
            None => None,
            Some(node) => {
                let n = *node;
                self.head = n.next;
                self.size = self.size - 1;
                proof {
                    assert(old(self)@ =~= seq![n.value].add(chain_of(n.next)));
                    assert(self@ =~= old(self)@.drop_first());
                }
                Some(n.value)
            },
        }
    }
}

/// The stored strings joined for display, front first: a space before each
/// value, except in front of the first value that actually shows something —
/// a leading empty string adds nothing, so it earns no separator either.
pub open spec fn join_of(s: Seq<String>) -> Seq<char>
    decreases s.len(),
{
    if s.len() == 0 {
        Seq::empty()
    } else {
        let acc = join_of(s.drop_last());
        if acc.len() == 0 {
            s.last()@
        } else {
            acc + " "@ + s.last()@
        }
    }
}

impl LinkedList<String> {
    /// Render the list for display: the values front to back, separated by
    /// single spaces.
    pub fn join_spaced(&self) -> (r: String)
        ensures
            r@ == join_of(self@),
    {
        let mut out = String::new();
        let mut current: &Option<Box<Node<String>>> = &self.head;
        let ghost mut k: int = 0;
        loop
            invariant
                0 <= k <= self@.len(),
                chain_of(*current) == self@.skip(k),
                out@ == join_of(self@.take(k)),
            ensures
                out@ == join_of(self@),
            decreases self@.len() - k,
        {
            match current {
                None => {
                    proof {
                        assert(self@.skip(k).len() == 0);
                        assert(self@.take(k) =~= self@);
                    }
                    break ;
                },
                Some(n) => {
                    let ghost rest = self@.skip(k);
                    let ghost tail = chain_of(n.next);
                    proof {
                        assert(*current is Some);
                        assert(rest =~= seq![n.value].add(tail));
                        assert(rest.len() > 0);
                        assert(rest[0] == n.value);
                        assert(self@[k] == n.value);
                        assert forall|j: int| 0 <= j < tail.len() implies tail[j] == self@.skip(
                            k + 1,
                        )[j] by {
                            assert(rest[j + 1] == tail[j]);
                            assert(rest[j + 1] == self@[k + j + 1]);
                        }
                        assert(tail =~= self@.skip(k + 1));
                        assert(self@.take(k + 1).drop_last() =~= self@.take(k));
                        assert(self@.take(k + 1).last() == self@[k]);
                    }
                    if !out.as_str().is_empty() {
                        out.append(" ");
                    }
                    out.append(n.value.as_str());
                    proof {
                        k = k + 1;
                        assert(out@ =~= join_of(self@.take(k)));
                    }
                    current = &n.next;
                },
            }
        }
        out
    }
}

/// A cell-by-cell copy of a chain: as long as the chain it copies, each value
/// a clone of its counterpart.
fn clone_chain<T: Clone>(o: &Option<Box<Node<T>>>) -> (r: Option<Box<Node<T>>>)
    ensures
        chain_of(r).len() == chain_of(*o).len(),
        forall|i: int|
            0 <= i < chain_of(*o).len() ==> cloned(chain_of(*o)[i], #[trigger] chain_of(r)[i]),
    decreases *o,
{
    match o {
        None => None,
        Some(n) => {
            let value = n.value.clone();
            let next = clone_chain(&n.next);
            let cell = Node { value, next };
            proof {
                let src = chain_of(*o);
                let dst = node_chain(cell);
                assert(dst =~= seq![cell.value].add(chain_of(cell.next)));
                assert(src =~= seq![n.value].add(chain_of(n.next)));
                assert forall|i: int| 0 <= i < src.len() implies cloned(
                    src[i],
                    #[trigger] dst[i],
                ) by {
                    if i > 0 {
                        assert(cloned(chain_of(n.next)[i - 1], chain_of(cell.next)[i - 1]));
                    }
                }
            }
            Some(Box::new(cell))
        },
    }
}

impl<T: Clone> Clone for Node<T> {
    /// A copy of this cell and everything after it, values cloned.
    fn clone(&self) -> (r: Node<T>) {
        Node { value: self.value.clone(), next: clone_chain(&self.next) }
    }
}

impl<T: Clone> Clone for LinkedList<T> {
    /// A copy of the list: as many values as the original, each a clone of
    /// its counterpart. What a clone of a value is is the value's own
    /// business; for values whose clone is themselves, the copy stores the
    /// same sequence.
    fn clone(&self) -> (r: LinkedList<T>)
        ensures
            self.wf() ==> r.wf(),
            r@.len() == self@.len(),
            forall|i: int| 0 <= i < self@.len() ==> cloned(self@[i], #[trigger] r@[i]),
    {
        LinkedList { head: clone_chain(&self.head), size: self.size }
    }
}

/// Sequences of the same length whose elements agree under `T`'s own notion
/// of equality.
pub open spec fn seq_eq_by<T: PartialEqSpec>(x: Seq<T>, y: Seq<T>) -> bool {
    x.len() == y.len() && forall|i: int| 0 <= i < x.len() ==> x[i].eq_spec(&#[trigger] y[i])
}

/// Element-wise comparison of two chains.
fn chains_eq<T: PartialEqSpec>(
    a: &Option<Box<Node<T>>>,
    b: &Option<Box<Node<T>>>,
) -> (r: bool)
    ensures
        T::obeys_eq_spec() ==> r == seq_eq_by(chain_of(*a), chain_of(*b)),
    decreases *a,
{
    match (a, b) {
        (Some(na), Some(nb)) => {
            let ghost x = chain_of(*a);
            let ghost y = chain_of(*b);
            let ghost xs = chain_of(na.next);
            let ghost ys = chain_of(nb.next);
            proof {
                assert(x.len() == 1 + xs.len());
                assert(y.len() == 1 + ys.len());
                assert(x[0] == na.value);
                assert(y[0] == nb.value);
                assert(forall|i: int| 0 <= i < xs.len() ==> x[i + 1] == #[trigger] xs[i]);
                assert(forall|i: int| 0 <= i < ys.len() ==> y[i + 1] == #[trigger] ys[i]);
            }
            if na.value != nb.value {
                false
            } else {
                let rest = chains_eq(&na.next, &nb.next);
                proof {
                    if T::obeys_eq_spec() && rest {
                        assert forall|i: int| 0 <= i < x.len() implies x[i].eq_spec(
                            &#[trigger] y[i],
                        ) by {
                            if i > 0 {
                                assert(xs[i - 1].eq_spec(&ys[i - 1]));
                            }
                        }
                    }
                    if T::obeys_eq_spec() && seq_eq_by(x, y) {
                        assert forall|i: int| 0 <= i < xs.len() implies xs[i].eq_spec(
                            &#[trigger] ys[i],
                        ) by {
                            assert(x[i + 1].eq_spec(&y[i + 1]));
                        }
                    }
                }
                rest
            }
        },
        (None, None) => true,
        (None, Some(_)) => {
            proof {
                assert(chain_of(*b).len() >= 1);
            }
            false
        },
        (Some(_), None) => {
            proof {
                assert(chain_of(*a).len() >= 1);
            }
            false
        },
    }
}

impl<T: PartialEqSpec> PartialEq for LinkedList<T> {
    /// Two lists are equal when they store the same values in the same order.
    fn eq(&self, other: &Self) -> (r: bool) {
        chains_eq(&self.head, &other.head)
    }

    fn ne(&self, other: &Self) -> (r: bool) {
        !chains_eq(&self.head, &other.head)
    }
}

impl<T: PartialEqSpec> PartialEqSpecImpl for LinkedList<T> {
    open spec fn obeys_eq_spec() -> bool {
        T::obeys_eq_spec()
    }

    open spec fn eq_spec(&self, other: &Self) -> bool {
        seq_eq_by(self@, other@)
    }
}

} // verus!
