//! Deterministic argmax selection of the recommended pair.
//!
//! The expected-information-gain sweep walks the lower triangle of the pair
//! matrix in a fixed row-major order, scores every candidate pair, and the
//! recommended next comparison is the pair with the greatest score. Scores
//! reach this module as order-preserving integer keys; the selection itself
//! is a pure argmax whose ties fall to the first-seen candidate, so repeated
//! runs over the same input always pick the same pair.

use vstd::prelude::*;

verus! {

/// `k` is the index of the greatest key, and of its first occurrence.
pub open spec fn is_first_argmax(keys: Seq<u64>, k: int) -> bool {
    &&& 0 <= k < keys.len()
    &&& forall|t: int| 0 <= t < keys.len() ==> #[trigger] keys[t] <= keys[k]
    &&& forall|t: int| 0 <= t < k ==> #[trigger] keys[t] < keys[k]
}

/// At most one index is the first argmax: the selection is a function of
/// the key list, so repeated calls agree.
pub proof fn lemma_argmax_unique(keys: Seq<u64>, k1: int, k2: int)
    requires
        is_first_argmax(keys, k1),
        is_first_argmax(keys, k2),
    ensures
        k1 == k2,
{
    if k1 < k2 {
        assert(keys[k1] < keys[k2]);
        assert(keys[k2] <= keys[k1]);
        assert(false);
    }
    if k2 < k1 {
        assert(keys[k2] < keys[k1]);
        assert(keys[k1] <= keys[k2]);
        assert(false);
    }
}

/// Index of the greatest key, first occurrence winning ties; `None` only on
/// an empty list.
pub fn argmax_first(keys: &Vec<u64>) -> (r: Option<usize>)
    ensures
        match r {
            Some(k) => is_first_argmax(keys@, k as int),
            None => keys@.len() == 0,
        },
{
    if keys.len() == 0 {
        return None;
    }
    let mut best: usize = 0;
    let mut t: usize = 1;
    while t < keys.len()
        invariant
            best < t <= keys@.len(),
            forall|s: int| 0 <= s < t ==> #[trigger] keys@[s] <= keys@[best as int],
            forall|s: int| 0 <= s < best ==> #[trigger] keys@[s] < keys@[best as int],
        decreases keys@.len() - t,
    {
        if keys[t] > keys[best] {
            best = t;
        }
        t = t + 1;
    }
    Some(best)
}

/// The pairs `(i, j)` with `j < i`, for `i` up to (excluding) column `j`
/// bound `j_bound`: one row of the lower triangle.
pub open spec fn row_pairs(i: usize, j_bound: int) -> Seq<(usize, usize)>
    decreases j_bound,
{
    if j_bound <= 0 {
        Seq::empty()
    } else {
        row_pairs(i, j_bound - 1).push((i, (j_bound - 1) as usize))
    }
}

/// The lower-triangle sweep order over the first `i_bound` rows: row-major,
/// row `i` holding the pairs `(i, 0) .. (i, i - 1)`.
pub open spec fn lower_pairs_spec(i_bound: int) -> Seq<(usize, usize)>
    decreases i_bound,
{
    if i_bound <= 0 {
        Seq::empty()
    } else {
        lower_pairs_spec(i_bound - 1) + row_pairs((i_bound - 1) as usize, i_bound - 1)
    }
}

/// A row holds exactly the pairs `(i, b)` with `b < j_bound`.
proof fn lemma_row_pairs_contains(i: usize, j_bound: int, a: usize, b: usize)
    requires
        0 <= j_bound <= usize::MAX,
    ensures
        row_pairs(i, j_bound).contains((a, b)) <==> (a == i && (b as int) < j_bound),
    decreases j_bound,
{
    if j_bound <= 0 {
    } else {
        lemma_row_pairs_contains(i, j_bound - 1, a, b);
        let s = row_pairs(i, j_bound);
        let prev = row_pairs(i, j_bound - 1);
        assert(s == prev.push((i, (j_bound - 1) as usize)));
        if a == i && (b as int) < j_bound {
            if (b as int) < j_bound - 1 {
                let t = choose|t: int| 0 <= t < prev.len() && prev[t] == (a, b);
                assert(s[t] == (a, b));
            } else {
                assert(s[s.len() - 1] == (a, b));
            }
            assert(s.contains((a, b)));
        }
        if s.contains((a, b)) {
            let t = choose|t: int| 0 <= t < s.len() && s[t] == (a, b);
            if t < s.len() - 1 {
                assert(prev[t] == (a, b));
            }
        }
    }
}

/// The sweep visits exactly the pairs `(a, b)` with `b < a < i_bound`:
/// every unordered pair of distinct items is a candidate, in one fixed
/// orientation.
pub proof fn lemma_lower_pairs_contains(i_bound: int, a: usize, b: usize)
    requires
        0 <= i_bound <= usize::MAX,
    ensures
        lower_pairs_spec(i_bound).contains((a, b)) <==> ((b as int) < a && (a as int) < i_bound),
    decreases i_bound,
{
    if i_bound <= 0 {
    } else {
        lemma_lower_pairs_contains(i_bound - 1, a, b);
        lemma_row_pairs_contains((i_bound - 1) as usize, i_bound - 1, a, b);
        let s = lower_pairs_spec(i_bound);
        let prev = lower_pairs_spec(i_bound - 1);
        let row = row_pairs((i_bound - 1) as usize, i_bound - 1);
        assert(s == prev + row);
        if (b as int) < a && (a as int) < i_bound {
            if (a as int) < i_bound - 1 {
                let t = choose|t: int| 0 <= t < prev.len() && prev[t] == (a, b);
                assert(s[t] == (a, b));
            } else {
                let t = choose|t: int| 0 <= t < row.len() && row[t] == (a, b);
                assert(s[prev.len() + t] == (a, b));
            }
            assert(s.contains((a, b)));
        }
        if s.contains((a, b)) {
            let t = choose|t: int| 0 <= t < s.len() && s[t] == (a, b);
            if t < prev.len() {
                assert(prev[t] == (a, b));
            } else {
                assert(row[t - prev.len()] == (a, b));
            }
        }
    }
}

/// The sweep order over a universe of `n` items, as the solver enumerates
/// it: `(1, 0), (2, 0), (2, 1), (3, 0), ...`.
pub fn lower_pairs(n: usize) -> (r: Vec<(usize, usize)>)
    ensures
        r@ == lower_pairs_spec(n as int),
{
    let mut r: Vec<(usize, usize)> = Vec::new();
    let mut i: usize = 0;
    while i < n
        invariant
            i <= n,
            r@ == lower_pairs_spec(i as int),
        decreases n - i,
    {
        let mut j: usize = 0;
        while j < i
            invariant
                j <= i < n,
                r@ == lower_pairs_spec(i as int) + row_pairs(i, j as int),
            decreases i - j,
        {
            r.push((i, j));
            assert(r@ =~= lower_pairs_spec(i as int) + row_pairs(i, j + 1));
            j = j + 1;
        }
        assert(r@ =~= lower_pairs_spec(i + 1));
        i = i + 1;
    }
    r
}

} // verus!
