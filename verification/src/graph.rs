//! Bipartite incidence structure of the factor graph.
//!
//! Each observed comparison "`a` beat `b`" is a factor connecting the two
//! items. Factors live in one flat append-only list; two per-item lists of
//! factor indices record where each item appears as the winner (side 0) and
//! as the loser (side 1). The float-valued messages that ride on this
//! structure are owned by the solver that drives the message passing; the
//! structure itself, with its push/pop rollback, is verified here.

use vstd::prelude::*;

verus! {

/// Mathematical model of the incidence structure: the item count, the factor
/// list in insertion order, and the two per-item registries of factor
/// indices.
pub struct GraphModel {
    pub n: nat,
    pub factors: Seq<(usize, usize)>,
    pub side0: Seq<Seq<usize>>,
    pub side1: Seq<Seq<usize>>,
}

impl GraphModel {
    /// Registry consistency: one side-0 and one side-1 list per item; factor
    /// endpoints in range; every registered index points at a factor whose
    /// matching endpoint is that item; every factor is registered under both
    /// of its endpoints; and each registry list is strictly increasing, so a
    /// factor is registered once and the newest factor sits at the tail.
    pub open spec fn wf(self) -> bool {
        &&& self.factors.len() <= usize::MAX
        &&& self.side0.len() == self.n
        &&& self.side1.len() == self.n
        &&& forall|k: int|
            0 <= k < self.factors.len() ==> (#[trigger] self.factors[k]).0 < self.n
                && self.factors[k].1 < self.n
        &&& forall|p: int, t: int|
            0 <= p < self.side0.len() && 0 <= t < self.side0[p].len() ==> ((
            #[trigger] self.side0[p][t]) < self.factors.len() && (self.side0[p][t] < usize::MAX)
                && (self.factors[self.side0[p][t] as int].0 as int) == p)
        &&& forall|p: int, t: int|
            0 <= p < self.side1.len() && 0 <= t < self.side1[p].len() ==> ((
            #[trigger] self.side1[p][t]) < self.factors.len() && (self.side1[p][t] < usize::MAX)
                && (self.factors[self.side1[p][t] as int].1 as int) == p)
        &&& forall|id: usize|
            (id as int) < self.factors.len() ==> self.side0[(#[trigger] self.factors[id as int]).0
                as int].contains(id)
        &&& forall|id: usize|
            (id as int) < self.factors.len() ==> self.side1[(#[trigger] self.factors[id as int]).1
                as int].contains(id)
        &&& forall|p: int, t1: int, t2: int|
            #![trigger self.side0[p][t1], self.side0[p][t2]]
            0 <= p < self.side0.len() && 0 <= t1 < t2 < self.side0[p].len() ==> self.side0[p][t1]
                < self.side0[p][t2]
        &&& forall|p: int, t1: int, t2: int|
            #![trigger self.side1[p][t1], self.side1[p][t2]]
            0 <= p < self.side1.len() && 0 <= t1 < t2 < self.side1[p].len() ==> self.side1[p][t1]
                < self.side1[p][t2]
    }
}

/// The model of a freshly built graph over `n` items: no factors, and one
/// empty registry list per item on each side.
pub open spec fn empty_model(n: usize) -> GraphModel {
    GraphModel {
        n: n as nat,
        factors: Seq::empty(),
        side0: Seq::new(n as nat, |p: int| Seq::empty()),
        side1: Seq::new(n as nat, |p: int| Seq::empty()),
    }
}

/// The model after appending the factor "`i` beat `j`": the factor list
/// grows by one and the new factor's index is appended to `i`'s side-0 list
/// and `j`'s side-1 list.
pub open spec fn push_model(m: GraphModel, i: usize, j: usize) -> GraphModel {
    let id = m.factors.len() as usize;
    GraphModel {
        n: m.n,
        factors: m.factors.push((i, j)),
        side0: m.side0.update(i as int, m.side0[i as int].push(id)),
        side1: m.side1.update(j as int, m.side1[j as int].push(id)),
    }
}

/// The model after removing the most recently pushed factor: the factor list
/// shrinks by one and the removed index leaves the tail of both registry
/// lists it was appended to.
pub open spec fn pop_model(m: GraphModel) -> GraphModel {
    let a = m.factors.last().0;
    let b = m.factors.last().1;
    GraphModel {
        n: m.n,
        factors: m.factors.drop_last(),
        side0: m.side0.update(a as int, m.side0[a as int].drop_last()),
        side1: m.side1.update(b as int, m.side1[b as int].drop_last()),
    }
}

/// Removing the most recent factor is the exact inverse of appending it:
/// a probe that pushes one hypothetical observation and pops it afterwards
/// leaves the graph byte-for-byte as it found it.
pub proof fn lemma_probe_rollback(m: GraphModel, i: usize, j: usize)
    requires
        m.wf(),
        i < m.n,
        j < m.n,
    ensures
        pop_model(push_model(m, i, j)) == m,
{
    let mid = push_model(m, i, j);
    let post = pop_model(mid);
    assert(mid.factors.last() == (i, j));
    assert(post.factors =~= m.factors);
    assert(mid.side0[i as int].drop_last() =~= m.side0[i as int]);
    assert(post.side0 =~~= m.side0);
    assert(mid.side1[j as int].drop_last() =~= m.side1[j as int]);
    assert(post.side1 =~~= m.side1);
}

/// Two strictly increasing id lists with the same members are the same
/// list.
proof fn lemma_sorted_unique_same_members(s1: Seq<usize>, s2: Seq<usize>)
    requires
        forall|t1: int, t2: int|
            #![trigger s1[t1], s1[t2]]
            0 <= t1 < t2 < s1.len() ==> s1[t1] < s1[t2],
        forall|t1: int, t2: int|
            #![trigger s2[t1], s2[t2]]
            0 <= t1 < t2 < s2.len() ==> s2[t1] < s2[t2],
        forall|x: usize| s1.contains(x) <==> s2.contains(x),
    ensures
        s1 == s2,
    decreases s1.len(),
{
    if s1.len() == 0 {
        if s2.len() > 0 {
            assert(s2.contains(s2[0]));
            assert(s1.contains(s2[0]));
            assert(false);
        }
        assert(s1 =~= s2);
    } else {
        assert(s1.contains(s1[0]));
        assert(s2.contains(s1[0]));
        if s2.len() == 0 {
            assert(false);
        }
        let k1 = choose|k: int| 0 <= k < s2.len() && s2[k] == s1[0];
        assert(s2[0] <= s2[k1]);
        assert(s2.contains(s2[0]));
        assert(s1.contains(s2[0]));
        let k2 = choose|k: int| 0 <= k < s1.len() && s1[k] == s2[0];
        assert(s1[0] <= s1[k2]);
        assert(s1[0] == s2[0]);
        let t1 = s1.drop_first();
        let t2 = s2.drop_first();
        assert forall|x: usize| t1.contains(x) <==> t2.contains(x) by {
            if t1.contains(x) {
                let t = choose|t: int| 0 <= t < t1.len() && t1[t] == x;
                assert(s1[t + 1] == x);
                assert(s1[0] < x);
                assert(s1.contains(x));
                assert(s2.contains(x));
                let u = choose|u: int| 0 <= u < s2.len() && s2[u] == x;
                assert(u != 0);
                assert(t2[u - 1] == x);
                assert(t2.contains(x));
            }
            if t2.contains(x) {
                let t = choose|t: int| 0 <= t < t2.len() && t2[t] == x;
                assert(s2[t + 1] == x);
                assert(s2[0] < x);
                assert(s2.contains(x));
                assert(s1.contains(x));
                let u = choose|u: int| 0 <= u < s1.len() && s1[u] == x;
                assert(u != 0);
                assert(t1[u - 1] == x);
                assert(t1.contains(x));
            }
        }
        assert forall|u1: int, u2: int|
            #![trigger t1[u1], t1[u2]]
            0 <= u1 < u2 < t1.len() implies t1[u1] < t1[u2] by {
            assert(t1[u1] == s1[u1 + 1] && t1[u2] == s1[u2 + 1]);
        }
        assert forall|u1: int, u2: int|
            #![trigger t2[u1], t2[u2]]
            0 <= u1 < u2 < t2.len() implies t2[u1] < t2[u2] by {
            assert(t2[u1] == s2[u1 + 1] && t2[u2] == s2[u2 + 1]);
        }
        lemma_sorted_unique_same_members(t1, t2);
        assert(s1.len() == s2.len());
        assert forall|i: int| 0 <= i < s1.len() implies s1[i] == s2[i] by {
            if i > 0 {
                assert(t1[i - 1] == s1[i]);
                assert(t2[i - 1] == s2[i]);
            }
        }
        assert(s1 =~= s2);
    }
}

/// The registries carry no information of their own: two consistent graphs
/// over the same item universe and the same factor list have identical
/// side-0 and side-1 lists. What the solver reads off the graph is
/// determined by the observations alone.
pub proof fn lemma_registries_canonical(g1: GraphModel, g2: GraphModel)
    requires
        g1.wf(),
        g2.wf(),
        g1.n == g2.n,
        g1.factors == g2.factors,
    ensures
        g1.side0 == g2.side0,
        g1.side1 == g2.side1,
{
    assert forall|p: int| 0 <= p < g1.n implies g1.side0[p] == g2.side0[p] && g1.side1[p]
        == g2.side1[p] by {
        assert forall|x: usize| g1.side0[p].contains(x) <==> g2.side0[p].contains(x) by {
            if g1.side0[p].contains(x) {
                let t = choose|t: int| 0 <= t < g1.side0[p].len() && g1.side0[p][t] == x;
                assert(g1.side0[p][t] == x);
                assert((g1.factors[x as int].0 as int) == p);
                assert(g2.side0[(g2.factors[x as int].0) as int].contains(x));
            }
            if g2.side0[p].contains(x) {
                let t = choose|t: int| 0 <= t < g2.side0[p].len() && g2.side0[p][t] == x;
                assert(g2.side0[p][t] == x);
                assert((g2.factors[x as int].0 as int) == p);
                assert(g1.side0[(g1.factors[x as int].0) as int].contains(x));
            }
        }
        lemma_sorted_unique_same_members(g1.side0[p], g2.side0[p]);
        assert forall|x: usize| g1.side1[p].contains(x) <==> g2.side1[p].contains(x) by {
            if g1.side1[p].contains(x) {
                let t = choose|t: int| 0 <= t < g1.side1[p].len() && g1.side1[p][t] == x;
                assert(g1.side1[p][t] == x);
                assert((g1.factors[x as int].1 as int) == p);
                assert(g2.side1[(g2.factors[x as int].1) as int].contains(x));
            }
            if g2.side1[p].contains(x) {
                let t = choose|t: int| 0 <= t < g2.side1[p].len() && g2.side1[p][t] == x;
                assert(g2.side1[p][t] == x);
                assert((g2.factors[x as int].1 as int) == p);
                assert(g1.side1[(g1.factors[x as int].1) as int].contains(x));
            }
        }
        lemma_sorted_unique_same_members(g1.side1[p], g2.side1[p]);
    }
    assert(g1.side0 =~= g2.side0);
    assert(g1.side1 =~= g2.side1);
}

/// The incidence structure itself: factors in insertion order plus the two
/// per-item registries of factor indices.
pub struct FactorGraph {
    n: usize,
    g: Vec<(usize, usize)>,
    var_to_cmps0: Vec<Vec<usize>>,
    var_to_cmps1: Vec<Vec<usize>>,
}

impl View for FactorGraph {
    type V = GraphModel;

    closed spec fn view(&self) -> GraphModel {
        GraphModel {
            n: self.n as nat,
            factors: self.g@,
            side0: self.var_to_cmps0@.map_values(|v: Vec<usize>| v@),
            side1: self.var_to_cmps1@.map_values(|v: Vec<usize>| v@),
        }
    }
}

impl FactorGraph {
    /// Registry consistency of the concrete structure; see
    /// [`GraphModel::wf`].
    pub open spec fn wf(&self) -> bool {
        self@.wf()
    }

    /// An empty graph over a fixed universe of `n` items.
    pub fn new(n: usize) -> (g: Self)
        ensures
            g.wf(),
            g@ == empty_model(n),
    {
        let mut var_to_cmps0: Vec<Vec<usize>> = Vec::new();
        let mut var_to_cmps1: Vec<Vec<usize>> = Vec::new();
        let mut p: usize = 0;
        while p < n
            invariant
                p <= n,
                var_to_cmps0@.len() == p,
                var_to_cmps1@.len() == p,
                forall|q: int| 0 <= q < p ==> (#[trigger] var_to_cmps0@[q])@ == Seq::<usize>::empty(),
                forall|q: int| 0 <= q < p ==> (#[trigger] var_to_cmps1@[q])@ == Seq::<usize>::empty(),
            decreases n - p,
        {
            var_to_cmps0.push(Vec::new());
            var_to_cmps1.push(Vec::new());
            p = p + 1;
        }
        let g = FactorGraph { n, g: Vec::new(), var_to_cmps0, var_to_cmps1 };
        proof {
            assert(g@.side0 =~~= empty_model(n).side0);
            assert(g@.side1 =~~= empty_model(n).side1);
            assert(g@.factors =~= empty_model(n).factors);
        }
        g
    }

    /// Number of items in the universe.
    pub fn num_items(&self) -> (r: usize)
        ensures
            r == self@.n,
    {
        self.n
    }

    /// Number of factors currently in the graph.
    pub fn num_factors(&self) -> (r: usize)
        ensures
            r == self@.factors.len(),
    {
        self.g.len()
    }

    /// The `k`-th factor, as `(winner, loser)`.
    pub fn factor(&self, k: usize) -> (r: (usize, usize))
        requires
            k < self@.factors.len(),
        ensures
            r == self@.factors[k as int],
    {
        (self.g[k].0, self.g[k].1)
    }

    /// The factor indices in which item `p` appears as the winner.
    pub fn cmps0(&self, p: usize) -> (r: &Vec<usize>)
        requires
            p < self@.side0.len(),
        ensures
            r@ == self@.side0[p as int],
    {
        &self.var_to_cmps0[p]
    }

    /// The factor indices in which item `p` appears as the loser.
    pub fn cmps1(&self, p: usize) -> (r: &Vec<usize>)
        requires
            p < self@.side1.len(),
        ensures
            r@ == self@.side1[p as int],
    {
        &self.var_to_cmps1[p]
    }

    /// Append the factor "`i` beat `j`" and register its index under both
    /// endpoints.
    pub fn push_cmp(&mut self, i: usize, j: usize)
        requires
            old(self).wf(),
            i < old(self)@.n,
            j < old(self)@.n,
        ensures
            final(self).wf(),
            final(self)@ == push_model(old(self)@, i, j),
    {
        self.g.push((i, j));
        let id = self.g.len() - 1;
        self.var_to_cmps0[i].push(id);
        self.var_to_cmps1[j].push(id);
        proof {
            let pre = old(self)@;
            let post = self@;
            let idn = pre.factors.len() as usize;
            assert(id == idn);
            assert(post.factors =~= pre.factors.push((i, j)));
            assert(post.side0 =~~= pre.side0.update(
                i as int,
                pre.side0[i as int].push(idn),
            ));
            assert(post.side1 =~~= pre.side1.update(
                j as int,
                pre.side1[j as int].push(idn),
            ));
            assert(post == push_model(pre, i, j));
            self.lemma_push_preserves_wf(pre, i, j);
        }
    }

    /// The new registry entries point at the new factor, sit at each tail,
    /// and exceed every older index, so consistency survives a push.
    proof fn lemma_push_preserves_wf(&self, pre: GraphModel, i: usize, j: usize)
        requires
            pre.wf(),
            i < pre.n,
            j < pre.n,
            self@ == push_model(pre, i, j),
            pre.factors.len() < usize::MAX,
        ensures
            self@.wf(),
    {
        let post = self@;
        let id = pre.factors.len() as usize;
        assert forall|p: int, t: int|
            0 <= p < post.side0.len() && 0 <= t < post.side0[p].len() implies ((
        #[trigger] post.side0[p][t]) < post.factors.len() && (post.side0[p][t] < usize::MAX)
            && (post.factors[post.side0[p][t] as int].0 as int) == p) by {
            if p == i as int && t == post.side0[p].len() - 1 {
                assert(post.side0[p][t] == id);
                assert(post.factors[id as int] == (i, j));
            } else {
                assert(post.side0[p][t] == pre.side0[p][t]);
            }
        }
        assert forall|p: int, t: int|
            0 <= p < post.side1.len() && 0 <= t < post.side1[p].len() implies ((
        #[trigger] post.side1[p][t]) < post.factors.len() && (post.side1[p][t] < usize::MAX)
            && (post.factors[post.side1[p][t] as int].1 as int) == p) by {
            if p == j as int && t == post.side1[p].len() - 1 {
                assert(post.side1[p][t] == id);
                assert(post.factors[id as int] == (i, j));
            } else {
                assert(post.side1[p][t] == pre.side1[p][t]);
            }
        }
        assert forall|f: usize| (f as int) < post.factors.len() implies post.side0[(
        #[trigger] post.factors[f as int]).0 as int].contains(f) by {
            if f == id {
                let s = post.side0[i as int];
                assert(s[s.len() - 1] == id);
                assert(s.contains(f));
            } else {
                let a = pre.factors[f as int].0;
                assert(pre.side0[a as int].contains(f));
                let t = choose|t: int|
                    0 <= t < pre.side0[a as int].len() && pre.side0[a as int][t] == f;
                assert(post.side0[a as int][t] == f);
                assert(post.side0[a as int].contains(f));
            }
        }
        assert forall|f: usize| (f as int) < post.factors.len() implies post.side1[(
        #[trigger] post.factors[f as int]).1 as int].contains(f) by {
            if f == id {
                let s = post.side1[j as int];
                assert(s[s.len() - 1] == id);
                assert(s.contains(f));
            } else {
                let b = pre.factors[f as int].1;
                assert(pre.side1[b as int].contains(f));
                let t = choose|t: int|
                    0 <= t < pre.side1[b as int].len() && pre.side1[b as int][t] == f;
                assert(post.side1[b as int][t] == f);
                assert(post.side1[b as int].contains(f));
            }
        }
        assert forall|p: int, t1: int, t2: int|
            #![trigger post.side0[p][t1], post.side0[p][t2]]
            0 <= p < post.side0.len() && 0 <= t1 < t2 < post.side0[p].len() implies post.side0[p][t1]
            < post.side0[p][t2] by {
            if p == i as int && t2 == post.side0[p].len() - 1 {
                assert(post.side0[p][t1] == pre.side0[p][t1]);
                assert(pre.side0[p][t1] < pre.factors.len());
            } else {
                assert(post.side0[p][t1] == pre.side0[p][t1]);
                assert(post.side0[p][t2] == pre.side0[p][t2]);
            }
        }
        assert forall|p: int, t1: int, t2: int|
            #![trigger post.side1[p][t1], post.side1[p][t2]]
            0 <= p < post.side1.len() && 0 <= t1 < t2 < post.side1[p].len() implies post.side1[p][t1]
            < post.side1[p][t2] by {
            if p == j as int && t2 == post.side1[p].len() - 1 {
                assert(post.side1[p][t1] == pre.side1[p][t1]);
                assert(pre.side1[p][t1] < pre.factors.len());
            } else {
                assert(post.side1[p][t1] == pre.side1[p][t1]);
                assert(post.side1[p][t2] == pre.side1[p][t2]);
            }
        }
    }

    /// Append a whole observation list, in order: the facade unrolls the
    /// count matrix and feeds every `(winner, loser)` pair to the graph
    /// before the global solve.
    pub fn push_observations(&mut self, obs: &Vec<(usize, usize)>)
        requires
            old(self).wf(),
            forall|k: int|
                0 <= k < obs@.len() ==> (#[trigger] obs@[k]).0 < old(self)@.n && obs@[k].1 < old(
                    self,
                )@.n,
        ensures
            final(self).wf(),
            final(self)@.n == old(self)@.n,
            final(self)@.factors == old(self)@.factors + obs@,
    {
        let mut k: usize = 0;
        while k < obs.len()
            invariant
                k <= obs@.len(),
                self.wf(),
                self@.n == old(self)@.n,
                self@.factors == old(self)@.factors + obs@.subrange(0, k as int),
                forall|t: int|
                    0 <= t < obs@.len() ==> (#[trigger] obs@[t]).0 < old(self)@.n && obs@[t].1
                        < old(self)@.n,
            decreases obs@.len() - k,
        {
            let (a, b) = obs[k];
            self.push_cmp(a, b);
            proof {
                assert(obs@.subrange(0, k + 1) =~= obs@.subrange(0, k as int).push(obs@[k as int]));
                assert(self@.factors =~= old(self)@.factors + obs@.subrange(0, k + 1));
            }
            k = k + 1;
        }
        proof {
            assert(obs@.subrange(0, obs@.len() as int) =~= obs@);
        }
    }

    /// Remove the most recently pushed factor, whose endpoints the caller
    /// names, and drop its index from the tail of both registries.
    pub fn pop_cmp(&mut self, i: usize, j: usize)
        requires
            old(self).wf(),
            old(self)@.factors.len() > 0,
            old(self)@.factors.last() == (i, j),
        ensures
            final(self).wf(),
            final(self)@ == pop_model(old(self)@),
    {
        proof {
            self.lemma_tail_registered(i, j);
        }
        self.g.pop();
        self.var_to_cmps0[i].pop();
        self.var_to_cmps1[j].pop();
        proof {
            let pre = old(self)@;
            let post = self@;
            assert(post.factors =~= pre.factors.drop_last());
            assert(post.side0 =~~= pre.side0.update(
                i as int,
                pre.side0[i as int].drop_last(),
            ));
            assert(post.side1 =~~= pre.side1.update(
                j as int,
                pre.side1[j as int].drop_last(),
            ));
            assert(post == pop_model(pre));
            lemma_pop_preserves_wf(pre, post, i, j);
        }
    }

    /// In a consistent graph whose newest factor is "`i` beat `j`", that
    /// factor's index sits at the tail of both of its registry lists, and
    /// those lists are non-empty.
    proof fn lemma_tail_registered(&self, i: usize, j: usize)
        requires
            self.wf(),
            self@.factors.len() > 0,
            self@.factors.last() == (i, j),
        ensures
            i < self@.n,
            j < self@.n,
            self@.side0[i as int].len() > 0,
            self@.side1[j as int].len() > 0,
            self@.side0[i as int].last() == (self@.factors.len() - 1) as usize,
            self@.side1[j as int].last() == (self@.factors.len() - 1) as usize,
    {
        let m = self@;
        let id = (m.factors.len() - 1) as usize;
        assert(m.factors[id as int].0 == i && m.factors[id as int].1 == j);
        let s0 = m.side0[i as int];
        assert(s0.contains(id));
        let t = choose|t: int| 0 <= t < s0.len() && s0[t] == id;
        if t < s0.len() - 1 {
            assert(s0[t] < s0[s0.len() - 1]);
            assert(s0[s0.len() - 1] < m.factors.len());
            assert(false);
        }
        let s1 = m.side1[j as int];
        assert(s1.contains(id));
        let u = choose|u: int| 0 <= u < s1.len() && s1[u] == id;
        if u < s1.len() - 1 {
            assert(s1[u] < s1[s1.len() - 1]);
            assert(s1[s1.len() - 1] < m.factors.len());
            assert(false);
        }
    }
}

/// Only the removed factor's own index could have pointed at it, and it sat
/// at each tail, so consistency survives a pop.
proof fn lemma_pop_preserves_wf(pre: GraphModel, post: GraphModel, i: usize, j: usize)
    requires
        pre.wf(),
        pre.factors.len() > 0,
        pre.factors.last() == (i, j),
        pre.side0[i as int].len() > 0,
        pre.side1[j as int].len() > 0,
        pre.side0[i as int].last() == (pre.factors.len() - 1) as usize,
        pre.side1[j as int].last() == (pre.factors.len() - 1) as usize,
        post == pop_model(pre),
    ensures
        post.wf(),
{
    let id = (pre.factors.len() - 1) as usize;
    assert forall|p: int, t: int|
        0 <= p < post.side0.len() && 0 <= t < post.side0[p].len() implies ((
    #[trigger] post.side0[p][t]) < post.factors.len() && (post.side0[p][t] < usize::MAX)
        && (post.factors[post.side0[p][t] as int].0 as int) == p) by {
        assert(post.side0[p][t] == pre.side0[p][t]);
        let f = pre.side0[p][t];
        assert(f < pre.factors.len());
        if f == id {
            assert((pre.factors[id as int].0 as int) == p);
            assert(p == i as int);
            assert(t < pre.side0[i as int].len() - 1);
            assert(pre.side0[p][t] < pre.side0[p][pre.side0[p].len() - 1]);
            assert(false);
        }
        assert(post.factors[f as int] == pre.factors[f as int]);
    }
    assert forall|p: int, t: int|
        0 <= p < post.side1.len() && 0 <= t < post.side1[p].len() implies ((
    #[trigger] post.side1[p][t]) < post.factors.len() && (post.side1[p][t] < usize::MAX)
        && (post.factors[post.side1[p][t] as int].1 as int) == p) by {
        assert(post.side1[p][t] == pre.side1[p][t]);
        let f = pre.side1[p][t];
        assert(f < pre.factors.len());
        if f == id {
            assert((pre.factors[id as int].1 as int) == p);
            assert(p == j as int);
            assert(t < pre.side1[j as int].len() - 1);
            assert(pre.side1[p][t] < pre.side1[p][pre.side1[p].len() - 1]);
            assert(false);
        }
        assert(post.factors[f as int] == pre.factors[f as int]);
    }
    assert forall|f: usize| (f as int) < post.factors.len() implies post.side0[(
    #[trigger] post.factors[f as int]).0 as int].contains(f) by {
        assert(post.factors[f as int] == pre.factors[f as int]);
        let a = pre.factors[f as int].0;
        assert(pre.side0[a as int].contains(f));
        let t = choose|t: int| 0 <= t < pre.side0[a as int].len() && pre.side0[a as int][t] == f;
        if a == i && t == pre.side0[a as int].len() - 1 {
            assert(pre.side0[a as int][t] == id);
            assert(false);
        }
        if a == i {
            assert(post.side0[a as int][t] == f);
        } else {
            assert(post.side0[a as int][t] == f);
        }
        assert(post.side0[a as int].contains(f));
    }
    assert forall|f: usize| (f as int) < post.factors.len() implies post.side1[(
    #[trigger] post.factors[f as int]).1 as int].contains(f) by {
        assert(post.factors[f as int] == pre.factors[f as int]);
        let b = pre.factors[f as int].1;
        assert(pre.side1[b as int].contains(f));
        let t = choose|t: int| 0 <= t < pre.side1[b as int].len() && pre.side1[b as int][t] == f;
        if b == j && t == pre.side1[b as int].len() - 1 {
            assert(pre.side1[b as int][t] == id);
            assert(false);
        }
        assert(post.side1[b as int][t] == f);
        assert(post.side1[b as int].contains(f));
    }
    assert forall|p: int, t1: int, t2: int|
        #![trigger post.side0[p][t1], post.side0[p][t2]]
        0 <= p < post.side0.len() && 0 <= t1 < t2 < post.side0[p].len() implies post.side0[p][t1]
        < post.side0[p][t2] by {
        assert(post.side0[p][t1] == pre.side0[p][t1]);
        assert(post.side0[p][t2] == pre.side0[p][t2]);
    }
    assert forall|p: int, t1: int, t2: int|
        #![trigger post.side1[p][t1], post.side1[p][t2]]
        0 <= p < post.side1.len() && 0 <= t1 < t2 < post.side1[p].len() implies post.side1[p][t1]
        < post.side1[p][t2] by {
        assert(post.side1[p][t1] == pre.side1[p][t1]);
        assert(post.side1[p][t2] == pre.side1[p][t2]);
    }
}

} // verus!
