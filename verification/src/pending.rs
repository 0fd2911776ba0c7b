//! Deduplicating LIFO work queue over integer ids.
//!
//! The fixed-point solver drives its iteration from two of these queues: one
//! for the items whose beliefs must be recomputed and one for the factors
//! whose messages must be refreshed. Membership testing and insertion are
//! constant time thanks to a presence bitmap; ids come back out in LIFO
//! order.

use vstd::prelude::*;

verus! {

/// A queue over `[0, n)` holding every id of its universe, oldest first:
/// the global solve starts with all items and all factors pending.
pub fn seed_all(n: usize) -> (s: FastUsizeSet)
    ensures
        s.wf(),
        s.capacity() == n,
        s.ids() == Seq::new(n as nat, |i: int| i as usize),
{
    let mut s = FastUsizeSet::new(n);
    let mut p: usize = 0;
    while p < n
        invariant
            p <= n,
            s.wf(),
            s.capacity() == n,
            s.ids() == Seq::new(p as nat, |i: int| i as usize),
        decreases n - p,
    {
        proof {
            if s.ids().contains(p) {
                let k = choose|k: int| 0 <= k < s.ids().len() && s.ids()[k] == p;
                assert(s.ids()[k] == k as usize);
                assert(false);
            }
        }
        s.add(p);
        proof {
            assert(s.ids() =~= Seq::new((p + 1) as nat, |i: int| i as usize));
        }
        p = p + 1;
    }
    s
}

/// A set of distinct ids drawn from `[0, capacity)`, with constant-time
/// membership test, idempotent insertion and LIFO removal.
pub struct FastUsizeSet {
    set: Vec<bool>,
    vec: Vec<usize>,
}

impl FastUsizeSet {
    /// The ids currently held, oldest first.
    pub closed spec fn ids(&self) -> Seq<usize> {
        self.vec@
    }

    /// The size of the id universe fixed at construction.
    pub closed spec fn capacity(&self) -> nat {
        self.set@.len()
    }

    /// The bitmap mirrors the stack: an id is marked present exactly when it
    /// is on the stack, every stacked id is in range, and no id is stacked
    /// twice.
    pub closed spec fn wf(&self) -> bool {
        &&& forall|k: int| 0 <= k < self.vec@.len() ==> (#[trigger] self.vec@[k]) < self.set@.len()
        &&& self.vec@.no_duplicates()
        &&& forall|i: usize|
            (i as int) < self.set@.len() ==> ((#[trigger] self.set@[i as int])
                <==> self.vec@.contains(i))
    }

    /// An empty queue over the universe `[0, n)`.
    pub fn new(n: usize) -> (s: Self)
        ensures
            s.wf(),
            s.capacity() == n,
            s.ids() == Seq::<usize>::empty(),
    {
        let s = FastUsizeSet { set: vec![false; n], vec: Vec::new() };
        proof {
            assert forall|i: usize| (i as int) < s.set@.len() implies ((#[trigger] s.set@[i as int])
                <==> s.vec@.contains(i)) by {
                assert(!s.set@[i as int]);
                assert(!s.vec@.contains(i));
            }
        }
        s
    }

    /// Insert `i`; a second insertion of an id already present changes
    /// nothing.
    pub fn add(&mut self, i: usize)
        requires
            old(self).wf(),
            i < old(self).capacity(),
        ensures
            final(self).wf(),
            final(self).capacity() == old(self).capacity(),
            old(self).ids().contains(i) ==> final(self).ids() == old(self).ids(),
            !old(self).ids().contains(i) ==> final(self).ids() == old(self).ids().push(i),
    {
        if self.set[i] {
            return ;
        }
        self.set[i] = true;
        self.vec.push(i);
        proof {
            let pre = old(self).vec@;
            let post = self.vec@;
            assert(post == pre.push(i));
            assert(!pre.contains(i));
            assert forall|j: usize| (j as int) < self.set@.len() implies ((
            #[trigger] self.set@[j as int]) <==> post.contains(j)) by {
                if j == i {
                    assert(self.set@[j as int]);
                    assert(post[post.len() - 1] == i);
                    assert(post.contains(j));
                } else {
                    assert(self.set@[j as int] == old(self).set@[j as int]);
                    assert(old(self).set@[j as int] <==> pre.contains(j));
                    if pre.contains(j) {
                        let k = choose|k: int| 0 <= k < pre.len() && pre[k] == j;
                        assert(post[k] == j);
                        assert(post.contains(j));
                    }
                    if post.contains(j) {
                        let k = choose|k: int| 0 <= k < post.len() && post[k] == j;
                        assert(post[post.len() - 1] == i);
                        assert(k != post.len() - 1);
                        assert(pre[k] == j);
                        assert(pre.contains(j));
                    }
                }
            }
            assert forall|p: int, q: int| 0 <= p < q < post.len() implies post[p] != post[q] by {
                if q == post.len() - 1 {
                    assert(post[p] == pre[p]);
                    assert(pre.contains(pre[p]));
                } else {
                    assert(post[p] == pre[p]);
                    assert(post[q] == pre[q]);
                }
            }
        }
    }

    /// Remove and return the most recently inserted id, if any.
    pub fn pop(&mut self) -> (r: Option<usize>)
        requires
            old(self).wf(),
        ensures
            final(self).wf(),
            final(self).capacity() == old(self).capacity(),
            match r {
                Some(i) => old(self).ids().len() > 0 && i == old(self).ids().last()
                    && final(self).ids() == old(self).ids().drop_last(),
                None => old(self).ids().len() == 0 && final(self).ids() == old(self).ids(),
            },
    {
        let i = self.vec.pop();
        if let Some(i) = i {
            self.set[i] = false;
            proof {
                let pre = old(self).vec@;
                let post = self.vec@;
                assert(post == pre.drop_last());
                assert(pre[pre.len() - 1] == i);
                assert forall|j: usize| (j as int) < self.set@.len() implies ((
                #[trigger] self.set@[j as int]) <==> post.contains(j)) by {
                    if j == i {
                        assert(!self.set@[j as int]);
                        if post.contains(i) {
                            let k = choose|k: int| 0 <= k < post.len() && post[k] == i;
                            assert(pre[k] == i);
                            assert(false);
                        }
                    } else {
                        assert(self.set@[j as int] == old(self).set@[j as int]);
                        assert(old(self).set@[j as int] <==> pre.contains(j));
                        if pre.contains(j) {
                            let k = choose|k: int| 0 <= k < pre.len() && pre[k] == j;
                            assert(k != pre.len() - 1);
                            assert(post[k] == j);
                            assert(post.contains(j));
                        }
                        if post.contains(j) {
                            let k = choose|k: int| 0 <= k < post.len() && post[k] == j;
                            assert(pre[k] == j);
                            assert(pre.contains(j));
                        }
                    }
                }
                assert forall|p: int, q: int| 0 <= p < q < post.len() implies post[p]
                    != post[q] by {
                    assert(post[p] == pre[p]);
                    assert(post[q] == pre[q]);
                }
            }
        }
        i
    }
}

} // verus!
