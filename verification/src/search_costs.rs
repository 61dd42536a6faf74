use vstd::prelude::*;

use crate::grid::NUM_TILES;

verus! {

/// 1 when `v` is a known cost below `c`, else 0.
pub open spec fn below(v: i32, c: int) -> int {
    if 0 <= v < c {
        1
    } else {
        0
    }
}

/// Number of entries of the cost table that are known costs below `c`.
pub open spec fn count_below(s: Seq<i32>, c: int) -> int
    decreases s.len(),
{
    if s.len() == 0 {
        0
    } else {
        count_below(s.drop_last(), c) + below(s.last(), c)
    }
}

/// What one entry of the cost table contributes to the search's progress measure:
/// an unknown cost (-1) weighs more than any cost that the search can assign.
pub open spec fn cell_potential(v: i32) -> int {
    if v < 0 {
        NUM_TILES as int
    } else {
        v as int
    }
}

/// The progress measure of a cost table: it drops whenever a cost is lowered or first set.
pub open spec fn potential(s: Seq<i32>) -> int
    decreases s.len(),
{
    if s.len() == 0 {
        0
    } else {
        potential(s.drop_last()) + cell_potential(s.last())
    }
}

/// The invariant of the cost table during the search: costs are -1 (unknown) or a cost
/// `c` such that at least `c` other tiles have known costs below `c`.
pub open spec fn cost_table_inv(s: Seq<i32>) -> bool {
    &&& s.len() == NUM_TILES
    &&& forall|t: int| 0 <= t < s.len() ==> #[trigger] s[t] >= -1
    &&& forall|t: int| 0 <= t < s.len() && s[t] >= 0 ==> #[trigger] s[t] <= count_below(s, s[t] as int)
}

/// A count of entries lies between zero and the table's length.
pub proof fn lemma_count_bounds(s: Seq<i32>, c: int)
    ensures
        0 <= count_below(s, c) <= s.len(),
    decreases s.len(),
{
    if s.len() > 0 {
        lemma_count_bounds(s.drop_last(), c);
    }
}

/// The potential of a table is never negative.
pub proof fn lemma_potential_nonneg(s: Seq<i32>)
    ensures
        potential(s) >= 0,
    decreases s.len(),
{
    if s.len() > 0 {
        lemma_potential_nonneg(s.drop_last());
    }
}

/// How one changed entry changes a count.
pub proof fn lemma_count_update(s: Seq<i32>, i: int, v: i32, c: int)
    requires
        0 <= i < s.len(),
    ensures
        count_below(s.update(i, v), c) == count_below(s, c) - below(s[i], c) + below(v, c),
    decreases s.len(),
{
    let u = s.update(i, v);
    if i == s.len() - 1 {
        assert(u.drop_last() =~= s.drop_last());
    } else {
        assert(u.drop_last() =~= s.drop_last().update(i, v));
        lemma_count_update(s.drop_last(), i, v, c);
    }
}

/// How one changed entry changes the potential.
pub proof fn lemma_potential_update(s: Seq<i32>, i: int, v: i32)
    requires
        0 <= i < s.len(),
    ensures
        potential(s.update(i, v)) == potential(s) - cell_potential(s[i]) + cell_potential(v),
    decreases s.len(),
{
    let u = s.update(i, v);
    if i == s.len() - 1 {
        assert(u.drop_last() =~= s.drop_last());
    } else {
        assert(u.drop_last() =~= s.drop_last().update(i, v));
        lemma_potential_update(s.drop_last(), i, v);
    }
}

/// An entry that is not below `c` keeps the count under the table's length.
pub proof fn lemma_count_excludes(s: Seq<i32>, c: int, j: int)
    requires
        0 <= j < s.len(),
        below(s[j], c) == 0,
    ensures
        count_below(s, c) <= s.len() - 1,
    decreases s.len(),
{
    if j == s.len() - 1 {
        lemma_count_bounds(s.drop_last(), c);
    } else {
        lemma_count_excludes(s.drop_last(), c, j);
    }
}

/// Raising the bound by one past an entry equal to the old bound raises the count.
pub proof fn lemma_count_step(s: Seq<i32>, c: int, j: int)
    requires
        0 <= j < s.len(),
        s[j] == c,
        c >= 0,
    ensures
        count_below(s, c + 1) >= count_below(s, c) + 1,
    decreases s.len(),
{
    if j == s.len() - 1 {
        lemma_count_mono(s.drop_last(), c);
    } else {
        lemma_count_step(s.drop_last(), c, j);
    }
}

/// Raising the bound never lowers a count.
pub proof fn lemma_count_mono(s: Seq<i32>, c: int)
    ensures
        count_below(s, c + 1) >= count_below(s, c),
    decreases s.len(),
{
    if s.len() > 0 {
        lemma_count_mono(s.drop_last(), c);
    }
}

/// Under the invariant, every known cost is below the number of tiles.
pub proof fn lemma_cost_bound(s: Seq<i32>, t: int)
    requires
        cost_table_inv(s),
        0 <= t < s.len(),
    ensures
        -1 <= s[t] <= NUM_TILES - 1,
{
    if s[t] >= 0 {
        lemma_count_excludes(s, s[t] as int, t);
    }
}

/// Setting the cost of tile `n` to one more than the cost `k` of tile `cur` (or to 0 when
/// `k` is -1, the unknown cost of the start), where `n` had no cost or a larger one, keeps
/// the invariant and lowers the progress measure.
pub proof fn lemma_relax_cost(s: Seq<i32>, n: int, cur: int, k: int)
    requires
        cost_table_inv(s),
        0 <= n < s.len(),
        0 <= cur < s.len(),
        s[cur] == k,
        -1 <= k,
        s[n] == -1 || k + 1 < s[n],
    ensures
        cost_table_inv(s.update(n, (k + 1) as i32)),
        potential(s.update(n, (k + 1) as i32)) < potential(s),
        0 <= k + 1 <= NUM_TILES - 1,
{
    lemma_cost_bound(s, cur);
    let newc = (k + 1) as i32;
    let u = s.update(n, newc);
    // the new entry meets the invariant
    lemma_count_update(s, n, newc, k + 1);
    if k >= 0 {
        lemma_count_step(s, k, cur);
        assert(s[cur] <= count_below(s, s[cur] as int));
    }
    lemma_count_bounds(u, k + 1);
    assert(u[n] <= count_below(u, u[n] as int));
    // the other entries keep it
    assert forall|t: int| 0 <= t < u.len() && u[t] >= 0 implies #[trigger] u[t] <= count_below(
        u,
        u[t] as int,
    ) by {
        if t != n {
            lemma_count_update(s, n, newc, s[t] as int);
            assert(s[t] <= count_below(s, s[t] as int));
        }
    }
    assert forall|t: int| 0 <= t < u.len() implies #[trigger] u[t] >= -1 by {
        if t != n {
            assert(s[t] >= -1);
        }
    }
    lemma_count_excludes(u, newc as int, n);
    lemma_potential_update(s, n, newc);
}

} // verus!
