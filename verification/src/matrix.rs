//! Validation and unrolling of dense observation-count matrices.
//!
//! The facade accepts an `N x N` matrix whose entry `(i, j)` counts how many
//! times item `i` was observed beating item `j`. Before anything reaches the
//! solver the matrix is checked — it must be square and its diagonal must be
//! zero, since a self-comparison would corrupt the factor graph — and then
//! unrolled, row-major, into the flat list of `(winner, loser)` observations
//! that are pushed into the graph. What the solver sees depends only on the
//! multiset of those observations, so the unrolling also comes with lemmas
//! pinning exactly how many copies of each pair it produces.

use vstd::prelude::*;
use vstd::multiset::Multiset;
use vstd::seq_lib::lemma_multiset_commutative;

verus! {

/// Rejection of an observation set before it reaches the solver.
#[derive(Clone, Copy, Debug, PartialEq, Eq, Structural)]
pub enum InputError {
    /// The matrix is not `N x N`.
    Shape,
    /// Item `index` was compared against itself.
    SelfComparison { index: usize },
    /// Item `index` does not exist in the universe `[0, N)`.
    OutOfRange { index: usize },
}

/// The count matrix as a sequence of rows.
pub open spec fn matrix_view(m: &Vec<Vec<usize>>) -> Seq<Seq<usize>> {
    m@.map_values(|r: Vec<usize>| r@)
}

/// The matrix has exactly `n` rows of `n` entries each.
pub open spec fn is_square(mm: Seq<Seq<usize>>, n: usize) -> bool {
    &&& mm.len() == n
    &&& forall|r: int| 0 <= r < mm.len() ==> (#[trigger] mm[r]).len() == n
}

/// Some diagonal entry is non-zero: an item was compared against itself.
pub open spec fn has_self_loop(mm: Seq<Seq<usize>>) -> bool {
    exists|i: int| 0 <= i < mm.len() && i < mm[i].len() && #[trigger] mm[i][i] > 0
}

/// `c` copies of the observation "`i` beat `j`".
pub open spec fn repeat_pair(i: usize, j: usize, c: nat) -> Seq<(usize, usize)>
    decreases c,
{
    if c == 0 {
        Seq::empty()
    } else {
        repeat_pair(i, j, (c - 1) as nat).push((i, j))
    }
}

/// Row `i` unrolled over its first `k` columns.
pub open spec fn row_unrolled(mm: Seq<Seq<usize>>, i: usize, k: int) -> Seq<(usize, usize)>
    decreases k,
{
    if k <= 0 {
        Seq::empty()
    } else {
        row_unrolled(mm, i, k - 1) + repeat_pair(i, (k - 1) as usize, mm[i as int][k - 1] as nat)
    }
}

/// The first `r` rows unrolled, row-major.
pub open spec fn unrolled_upto(mm: Seq<Seq<usize>>, r: int) -> Seq<(usize, usize)>
    decreases r,
{
    if r <= 0 {
        Seq::empty()
    } else {
        unrolled_upto(mm, r - 1) + row_unrolled(mm, (r - 1) as usize, mm[r - 1].len() as int)
    }
}

/// The whole matrix unrolled, row-major, entry `(i, j)` contributing
/// `mm[i][j]` copies of `(i, j)`.
pub open spec fn unrolled(mm: Seq<Seq<usize>>) -> Seq<(usize, usize)> {
    unrolled_upto(mm, mm.len() as int)
}

/// How many copies of the observation "`a` beat `b`" a list holds.
pub open spec fn obs_count(s: Seq<(usize, usize)>, a: usize, b: usize) -> nat {
    s.to_multiset().count((a, b))
}

/// Check that the matrix is `n x n` with an all-zero diagonal. On failure
/// the error names the first offence: a shape mismatch, or else the lowest
/// self-compared item.
pub fn validate_matrix(m: &Vec<Vec<usize>>, n: usize) -> (r: Result<(), InputError>)
    ensures
        r is Ok <==> (is_square(matrix_view(m), n) && !has_self_loop(matrix_view(m))),
        r == Err::<(), InputError>(InputError::Shape) <==> !is_square(matrix_view(m), n),
        forall|i: usize|
            (is_square(matrix_view(m), n) && i < n && #[trigger] matrix_view(m)[i as int][i as int]
                > 0 && (forall|k: int|
                0 <= k < i ==> matrix_view(m)[k][k] == 0)) ==> r == Err::<(), InputError>(
                InputError::SelfComparison { index: i },
            ),
{
    let ghost mm = matrix_view(m);
    if m.len() != n {
        return Err(InputError::Shape);
    }
    let mut row: usize = 0;
    while row < n
        invariant
            row <= n,
            mm == matrix_view(m),
            mm.len() == n,
            forall|q: int| 0 <= q < row ==> (#[trigger] mm[q]).len() == n,
        decreases n - row,
    {
        if m[row].len() != n {
            assert(mm[row as int].len() != n);
            return Err(InputError::Shape);
        }
        assert(mm[row as int].len() == n);
        row = row + 1;
    }
    assert(is_square(mm, n));
    let mut i: usize = 0;
    while i < n
        invariant
            i <= n,
            mm == matrix_view(m),
            is_square(mm, n),
            forall|k: int| 0 <= k < i ==> mm[k][k] == 0,
        decreases n - i,
    {
        assert(m@.len() == n && m@[i as int]@ == mm[i as int]);
        if m[i][i] > 0 {
            assert(mm[i as int][i as int] > 0);
            return Err(InputError::SelfComparison { index: i });
        }
        assert(mm[i as int][i as int] == 0);
        i = i + 1;
    }
    assert(!has_self_loop(mm));
    Ok(())
}

/// Check one streamed observation "`winner` beat `loser`" against a universe
/// of `n` items: both indices must exist and must differ.
pub fn validate_observation(n: usize, winner: usize, loser: usize) -> (r: Result<(), InputError>)
    ensures
        r is Ok <==> (winner < n && loser < n && winner != loser),
        winner >= n ==> r == Err::<(), InputError>(InputError::OutOfRange { index: winner }),
        winner < n && loser >= n ==> r == Err::<(), InputError>(InputError::OutOfRange { index: loser }),
        winner < n && loser < n && winner == loser ==> r == Err::<(), InputError>(
            InputError::SelfComparison { index: winner },
        ),
{
    if winner >= n {
        Err(InputError::OutOfRange { index: winner })
    } else if loser >= n {
        Err(InputError::OutOfRange { index: loser })
    } else if winner == loser {
        Err(InputError::SelfComparison { index: winner })
    } else {
        Ok(())
    }
}

/// Unroll a square count matrix into the row-major observation list the
/// facade pushes into the factor graph.
pub fn unroll_observations(m: &Vec<Vec<usize>>, n: usize) -> (obs: Vec<(usize, usize)>)
    requires
        is_square(matrix_view(m), n),
    ensures
        obs@ == unrolled(matrix_view(m)),
{
    let ghost mm = matrix_view(m);
    let mut obs: Vec<(usize, usize)> = Vec::new();
    let mut i: usize = 0;
    while i < n
        invariant
            i <= n,
            mm == matrix_view(m),
            is_square(mm, n),
            obs@ == unrolled_upto(mm, i as int),
        decreases n - i,
    {
        let mut j: usize = 0;
        while j < n
            invariant
                i < n,
                j <= n,
                mm == matrix_view(m),
                is_square(mm, n),
                obs@ == unrolled_upto(mm, i as int) + row_unrolled(mm, i, j as int),
            decreases n - j,
        {
            let cnt = m[i][j];
            assert(cnt == mm[i as int][j as int]);
            let mut c: usize = 0;
            while c < cnt
                invariant
                    i < n,
                    j < n,
                    c <= cnt,
                    mm == matrix_view(m),
                    is_square(mm, n),
                    cnt == mm[i as int][j as int],
                    obs@ == unrolled_upto(mm, i as int) + row_unrolled(mm, i, j as int)
                        + repeat_pair(i, j, c as nat),
                decreases cnt - c,
            {
                obs.push((i, j));
                proof {
                    assert(repeat_pair(i, j, (c + 1) as nat) == repeat_pair(i, j, c as nat).push(
                        (i, j),
                    ));
                    assert(obs@ == unrolled_upto(mm, i as int) + row_unrolled(mm, i, j as int)
                        + repeat_pair(i, j, (c + 1) as nat));
                }
                c = c + 1;
            }
            proof {
                assert(row_unrolled(mm, i, j + 1) == row_unrolled(mm, i, j as int) + repeat_pair(
                    i,
                    j,
                    mm[i as int][j as int] as nat,
                ));
                assert(obs@ == unrolled_upto(mm, i as int) + row_unrolled(mm, i, j + 1)) by {
                    assert(unrolled_upto(mm, i as int) + (row_unrolled(mm, i, j as int)
                        + repeat_pair(i, j, mm[i as int][j as int] as nat)) =~= unrolled_upto(
                        mm,
                        i as int,
                    ) + row_unrolled(mm, i, j as int) + repeat_pair(
                        i,
                        j,
                        mm[i as int][j as int] as nat,
                    ));
                }
            }
            j = j + 1;
        }
        proof {
            assert(mm[i as int].len() == n);
            assert(unrolled_upto(mm, i + 1) == unrolled_upto(mm, i as int) + row_unrolled(
                mm,
                i,
                n as int,
            ));
        }
        i = i + 1;
    }
    assert(obs@ == unrolled(mm));
    obs
}

/// Tally a stream of in-range observations into the count matrix the facade
/// accepts: entry `(a, b)` ends up holding exactly the number of times
/// "`a` beat `b`" appears in the stream.
pub fn count_matrix(obs: &Vec<(usize, usize)>, n: usize) -> (m: Vec<Vec<usize>>)
    requires
        forall|k: int| 0 <= k < obs@.len() ==> (#[trigger] obs@[k]).0 < n && obs@[k].1 < n,
    ensures
        is_square(matrix_view(&m), n),
        forall|a: usize, b: usize|
            a < n && b < n ==> #[trigger] matrix_view(&m)[a as int][b as int] == obs_count(
                obs@,
                a,
                b,
            ),
{
    broadcast use vstd::seq_lib::group_to_multiset_ensures;
    broadcast use vstd::multiset::group_multiset_axioms;

    let mut m: Vec<Vec<usize>> = Vec::new();
    let mut r: usize = 0;
    while r < n
        invariant
            r <= n,
            m@.len() == r,
            forall|q: int| 0 <= q < r ==> (#[trigger] m@[q]@).len() == n,
            forall|q: int, c: int| 0 <= q < r && 0 <= c < n ==> #[trigger] m@[q]@[c] == 0,
        decreases n - r,
    {
        let row = vec![0usize; n];
        proof {
            assert forall|c: int| 0 <= c < n implies row@[c] == 0 by {
                assert(cloned(0usize, row@[c]));
            }
        }
        m.push(row);
        r = r + 1;
    }
    proof {
        assert(is_square(matrix_view(&m), n));
        assert forall|a: usize, b: usize| a < n && b < n implies #[trigger] matrix_view(
            &m,
        )[a as int][b as int] == obs_count(obs@.subrange(0, 0), a, b) by {
            assert(obs@.subrange(0, 0) =~= Seq::<(usize, usize)>::empty());
            assert(Seq::<(usize, usize)>::empty().to_multiset() =~= Multiset::empty());
        }
    }
    let mut k: usize = 0;
    while k < obs.len()
        invariant
            k <= obs@.len(),
            forall|t: int| 0 <= t < obs@.len() ==> (#[trigger] obs@[t]).0 < n && obs@[t].1 < n,
            is_square(matrix_view(&m), n),
            forall|a: usize, b: usize|
                a < n && b < n ==> #[trigger] matrix_view(&m)[a as int][b as int] == obs_count(
                    obs@.subrange(0, k as int),
                    a,
                    b,
                ),
        decreases obs@.len() - k,
    {
        let ghost pre = matrix_view(&m);
        let ghost sub = obs@.subrange(0, k as int);
        let (a, b) = obs[k];
        proof {
            assert(a < n && b < n);
            assert(m@.len() == n);
            assert(m@[a as int]@ == matrix_view(&m)[a as int]);
        }
        let cur = m[a][b];
        proof {
            broadcast use vstd::seq_lib::group_to_multiset_ensures;
            broadcast use vstd::multiset::group_multiset_axioms;

            assert(cur == matrix_view(&m)[a as int][b as int]);
            assert(cur == obs_count(sub, a, b));
            assert(sub.to_multiset().count((a, b)) <= sub.to_multiset().len());
            assert(sub.to_multiset().len() == sub.len());
        }
        m[a][b] = cur + 1;
        proof {
            broadcast use vstd::seq_lib::group_to_multiset_ensures;
            broadcast use vstd::multiset::group_multiset_axioms;

            let post = matrix_view(&m);
            assert(post.len() == n);
            assert forall|q: int| 0 <= q < n implies #[trigger] post[q].len() == n by {
                assert(post[q] == m@[q]@);
                if q == a as int {
                    assert(m@[q]@ == pre[q].update(b as int, (cur + 1) as usize));
                } else {
                    assert(m@[q]@ == pre[q]);
                }
            }
            assert(is_square(post, n));
            let sub1 = obs@.subrange(0, k + 1);
            assert(sub1 =~= sub.push((a, b)));
            assert(sub.push((a, b)).to_multiset() =~= sub.to_multiset().insert((a, b)));
            assert(sub1.to_multiset() =~= sub.to_multiset().insert((a, b)));
            assert forall|x: usize, y: usize| x < n && y < n implies #[trigger] post[x as int][y
                as int] == obs_count(sub1, x, y) by {
                vstd::multiset::lemma_insert_increases_count_by_1(sub.to_multiset(), (a, b));
                vstd::multiset::lemma_insert_other_elements_unchanged(
                    sub.to_multiset(),
                    (a, b),
                    (x, y),
                );
                if x == a && y == b {
                    assert(post[x as int][y as int] == cur + 1);
                } else {
                    assert(post[x as int][y as int] == pre[x as int][y as int]);
                }
            }
        }
        k = k + 1;
    }
    proof {
        assert(obs@.subrange(0, obs@.len() as int) =~= obs@);
    }
    m
}

/// Unrolling the matrix tallied from an observation stream hands the solver
/// exactly that stream's multiset of observations back: counting and
/// unrolling are inverse up to order, and order is irrelevant to the fixed
/// point.
pub proof fn lemma_count_unroll_round_trip(s: Seq<(usize, usize)>, mm: Seq<Seq<usize>>, n: usize)
    requires
        is_square(mm, n),
        forall|k: int| 0 <= k < s.len() ==> (#[trigger] s[k]).0 < n && s[k].1 < n,
        forall|a: usize, b: usize|
            a < n && b < n ==> #[trigger] mm[a as int][b as int] == obs_count(s, a, b),
    ensures
        unrolled(mm).to_multiset() == s.to_multiset(),
{
    broadcast use vstd::seq_lib::group_to_multiset_ensures;
    broadcast use vstd::multiset::group_multiset_axioms;

    assert forall|v: (usize, usize)| unrolled(mm).to_multiset().count(v) == s.to_multiset().count(
        v,
    ) by {
        let (a, b) = v;
        lemma_unrolled_count(mm, n, a, b);
        if a < n && b < n {
        } else {
            if s.contains(v) {
                let t = choose|t: int| 0 <= t < s.len() && s[t] == v;
                assert(s[t].0 < n && s[t].1 < n);
                assert(false);
            }
            assert(s.to_multiset().count(v) == 0);
        }
    }
    assert(unrolled(mm).to_multiset() =~= s.to_multiset());
}

/// A run of `c` copies of `(i, j)` holds `c` observations of `(i, j)` and
/// none of any other pair.
proof fn lemma_repeat_pair_count(i: usize, j: usize, c: nat, a: usize, b: usize)
    ensures
        obs_count(repeat_pair(i, j, c), a, b) == if (a, b) == (i, j) {
            c
        } else {
            0nat
        },
    decreases c,
{
    broadcast use vstd::seq_lib::group_to_multiset_ensures;

    if c == 0 {
        assert(repeat_pair(i, j, c) == Seq::<(usize, usize)>::empty());
        assert(Seq::<(usize, usize)>::empty().to_multiset() =~= Multiset::empty());
    } else {
        lemma_repeat_pair_count(i, j, (c - 1) as nat, a, b);
    }
}

/// Concatenating observation lists adds their counts.
proof fn lemma_obs_count_concat(s1: Seq<(usize, usize)>, s2: Seq<(usize, usize)>, a: usize, b: usize)
    ensures
        obs_count(s1 + s2, a, b) == obs_count(s1, a, b) + obs_count(s2, a, b),
{
    lemma_multiset_commutative(s1, s2);
}

/// Row `i` over its first `k` columns contributes `mm[i][b]` copies of
/// `(i, b)` for each column `b < k`, and nothing else.
proof fn lemma_row_unrolled_count(mm: Seq<Seq<usize>>, n: usize, i: usize, k: int, a: usize, b: usize)
    requires
        is_square(mm, n),
        i < n,
        0 <= k <= n,
    ensures
        obs_count(row_unrolled(mm, i, k), a, b) == if a == i && (b as int) < k {
            mm[i as int][b as int] as nat
        } else {
            0nat
        },
    decreases k,
{
    if k <= 0 {
        broadcast use vstd::seq_lib::group_to_multiset_ensures;

        assert(Seq::<(usize, usize)>::empty().to_multiset() =~= Multiset::empty());
    } else {
        lemma_row_unrolled_count(mm, n, i, k - 1, a, b);
        lemma_repeat_pair_count(i, (k - 1) as usize, mm[i as int][k - 1] as nat, a, b);
        lemma_obs_count_concat(
            row_unrolled(mm, i, k - 1),
            repeat_pair(i, (k - 1) as usize, mm[i as int][k - 1] as nat),
            a,
            b,
        );
    }
}

/// The first `r` rows contribute `mm[a][b]` copies of `(a, b)` for each
/// `a < r`, `b < n`, and nothing else.
proof fn lemma_unrolled_upto_count(mm: Seq<Seq<usize>>, n: usize, r: int, a: usize, b: usize)
    requires
        is_square(mm, n),
        0 <= r <= n,
    ensures
        obs_count(unrolled_upto(mm, r), a, b) == if (a as int) < r && b < n {
            mm[a as int][b as int] as nat
        } else {
            0nat
        },
    decreases r,
{
    if r <= 0 {
        broadcast use vstd::seq_lib::group_to_multiset_ensures;

        assert(Seq::<(usize, usize)>::empty().to_multiset() =~= Multiset::empty());
    } else {
        lemma_unrolled_upto_count(mm, n, r - 1, a, b);
        assert(mm[r - 1].len() == n);
        lemma_row_unrolled_count(mm, n, (r - 1) as usize, n as int, a, b);
        lemma_obs_count_concat(
            unrolled_upto(mm, r - 1),
            row_unrolled(mm, (r - 1) as usize, n as int),
            a,
            b,
        );
    }
}

/// The unrolled list holds exactly `mm[a][b]` copies of the observation
/// "`a` beat `b`" for every pair of items, and no out-of-range pair.
pub proof fn lemma_unrolled_count(mm: Seq<Seq<usize>>, n: usize, a: usize, b: usize)
    requires
        is_square(mm, n),
    ensures
        obs_count(unrolled(mm), a, b) == if a < n && b < n {
            mm[a as int][b as int] as nat
        } else {
            0nat
        },
{
    lemma_unrolled_upto_count(mm, n, n as int, a, b);
}

/// Merging two observation matrices entry by entry merges the multisets of
/// observations they unroll to: solving a combined matrix in one shot feeds
/// the solver the same observations as streaming both parts.
pub proof fn lemma_observation_merge(
    m1: Seq<Seq<usize>>,
    m2: Seq<Seq<usize>>,
    msum: Seq<Seq<usize>>,
    n: usize,
)
    requires
        is_square(m1, n),
        is_square(m2, n),
        is_square(msum, n),
        forall|i: int, j: int|
            0 <= i < n && 0 <= j < n ==> (#[trigger] msum[i][j]) == m1[i][j] + m2[i][j],
    ensures
        unrolled(msum).to_multiset() == unrolled(m1).to_multiset().add(unrolled(m2).to_multiset()),
{
    broadcast use vstd::multiset::group_multiset_axioms;

    let lhs = unrolled(msum).to_multiset();
    let rhs = unrolled(m1).to_multiset().add(unrolled(m2).to_multiset());
    assert forall|v: (usize, usize)| lhs.count(v) == rhs.count(v) by {
        let (a, b) = v;
        lemma_unrolled_count(msum, n, a, b);
        lemma_unrolled_count(m1, n, a, b);
        lemma_unrolled_count(m2, n, a, b);
    }
    assert(lhs =~= rhs);
}

/// An all-zero matrix unrolls to no observations at all, so the solver's
/// posterior over it is exactly the prior.
pub proof fn lemma_empty_matrix_unrolls_empty(mm: Seq<Seq<usize>>, n: usize)
    requires
        is_square(mm, n),
        forall|i: int, j: int| 0 <= i < n && 0 <= j < n ==> (#[trigger] mm[i][j]) == 0,
    ensures
        unrolled(mm) == Seq::<(usize, usize)>::empty(),
{
    broadcast use vstd::seq_lib::group_to_multiset_ensures;

    assert forall|r: int| 0 <= r <= n implies unrolled_upto(mm, r) =~= Seq::<(
        usize,
        usize,
    )>::empty() by {
        lemma_unrolled_upto_empty(mm, n, r);
    }
}

/// Helper induction for [`lemma_empty_matrix_unrolls_empty`].
proof fn lemma_unrolled_upto_empty(mm: Seq<Seq<usize>>, n: usize, r: int)
    requires
        is_square(mm, n),
        forall|i: int, j: int| 0 <= i < n && 0 <= j < n ==> (#[trigger] mm[i][j]) == 0,
        0 <= r <= n,
    ensures
        unrolled_upto(mm, r) == Seq::<(usize, usize)>::empty(),
    decreases r,
{
    if r > 0 {
        lemma_unrolled_upto_empty(mm, n, r - 1);
        lemma_row_unrolled_empty(mm, n, (r - 1) as usize, n as int);
        assert(unrolled_upto(mm, r) =~= Seq::<(usize, usize)>::empty());
    }
}

/// A zero row unrolls to nothing.
proof fn lemma_row_unrolled_empty(mm: Seq<Seq<usize>>, n: usize, i: usize, k: int)
    requires
        is_square(mm, n),
        forall|p: int, j: int| 0 <= p < n && 0 <= j < n ==> (#[trigger] mm[p][j]) == 0,
        i < n,
        0 <= k <= n,
    ensures
        row_unrolled(mm, i, k) == Seq::<(usize, usize)>::empty(),
    decreases k,
{
    if k > 0 {
        lemma_row_unrolled_empty(mm, n, i, k - 1);
        assert(mm[i as int][k - 1] == 0);
        assert(repeat_pair(i, (k - 1) as usize, 0nat) == Seq::<(usize, usize)>::empty());
        assert(row_unrolled(mm, i, k) =~= Seq::<(usize, usize)>::empty());
    }
}

} // verus!
