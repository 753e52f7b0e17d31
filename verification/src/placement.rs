//! Choosing the mined cells: draws without replacement from a pool of all
//! cells, steered by numbers that the caller supplies.

use vstd::prelude::*;
use vstd::math::min;

verus! {

/// A source of random numbers that the caller hands in.
pub trait RandomSource {
    /// Asks for a number drawn uniformly from `0..bound`; `bound` is never
    /// zero. Whatever comes back is reduced into that range before it is
    /// used as an index, so the outcome of a draw is a valid cell for every
    /// answer.
    fn below(&mut self, bound: usize) -> usize
        requires
            bound > 0,
    ;
}

/// The pool before any draw: the cells `0..total`, numbered row by row.
pub open spec fn full_pool(total: nat) -> Seq<usize> {
    Seq::new(total, |cell: int| cell as usize)
}

/// Index into `pool` that the number `pick` selects.
pub open spec fn pick_index(pool: Seq<usize>, pick: usize) -> int {
    pick as int % pool.len() as int
}

/// The pool after the first `count` draws: each draw takes the number
/// `picks[i]`, reduces it modulo the size of the pool as it then is, and
/// removes the entry at that index. A draw without a number, or from an
/// empty pool, removes nothing.
pub open spec fn pool_after(total: nat, picks: Seq<usize>, count: nat) -> Seq<usize>
    decreases count,
{
    if count == 0 {
        full_pool(total)
    } else {
        let pool = pool_after(total, picks, (count - 1) as nat);
        if count > picks.len() || pool.len() == 0 {
            pool
        } else {
            pool.remove(pick_index(pool, picks[count - 1]))
        }
    }
}

/// The cells that the first `count` draws removed from the pool, in the
/// order in which they were drawn.
pub open spec fn drawn(total: nat, picks: Seq<usize>, count: nat) -> Seq<usize>
    decreases count,
{
    if count == 0 {
        Seq::empty()
    } else {
        let pool = pool_after(total, picks, (count - 1) as nat);
        let earlier = drawn(total, picks, (count - 1) as nat);
        if count > picks.len() || pool.len() == 0 {
            earlier
        } else {
            earlier.push(pool[pick_index(pool, picks[count - 1])])
        }
    }
}

/// Draws up to `count` distinct cells out of `0..total`, one for each of the
/// first `count` numbers in `picks`.
pub fn draw_cells(total: usize, count: usize, picks: &Vec<usize>) -> (chosen: Vec<usize>)
    ensures
        chosen@ == drawn(total as nat, picks@, count as nat),
{
    let mut pool: Vec<usize> = Vec::new();
    let mut cell: usize = 0;
    while cell < total
        invariant
            cell <= total,
            pool@ == full_pool(cell as nat),
        decreases total - cell,
    {
        pool.push(cell);
        cell += 1;
    }
    let mut chosen: Vec<usize> = Vec::new();
    let mut i: usize = 0;
    while i < count
        invariant
            i <= count,
            pool@ == pool_after(total as nat, picks@, i as nat),
            chosen@ == drawn(total as nat, picks@, i as nat),
        decreases count - i,
    {
        if i < picks.len() && pool.len() > 0 {
            let at: usize = picks[i] % pool.len();
            let cell: usize = pool.remove(at);
            chosen.push(cell);
        }
        i += 1;
    }
    chosen
}

/// Removing one entry of a list without repetitions leaves the other
/// entries, still without repetitions.
proof fn lemma_remove_members(s: Seq<usize>, i: int)
    requires
        s.no_duplicates(),
        0 <= i < s.len(),
    ensures
        s.remove(i).no_duplicates(),
        s.remove(i).len() == s.len() - 1,
        forall|v: usize| #[trigger] s.remove(i).contains(v) <==> s.contains(v) && v != s[i],
{
    s.remove_ensures(i);
    let r = s.remove(i);
    assert forall|v: usize| #[trigger] r.contains(v) <==> s.contains(v) && v != s[i] by {
        if r.contains(v) {
            let j = choose|j: int| 0 <= j < r.len() && r[j] == v;
            if j < i {
                assert(s[j] == v);
            } else {
                assert(s[j + 1] == v);
            }
        }
        if s.contains(v) && v != s[i] {
            let j = choose|j: int| 0 <= j < s.len() && s[j] == v;
            if j < i {
                assert(r[j] == v);
            } else {
                assert(r[j - 1] == v);
            }
        }
    }
}

/// The draws split the cells: every cell below `total` is either still in
/// the pool or among the drawn, never both, and neither list repeats a cell.
/// As long as numbers and cells last, every draw takes one cell.
pub proof fn lemma_draws_split(total: nat, picks: Seq<usize>, count: nat)
    requires
        total <= usize::MAX,
    ensures
        pool_after(total, picks, count).no_duplicates(),
        drawn(total, picks, count).no_duplicates(),
        forall|cell: usize| #[trigger]
            pool_after(total, picks, count).contains(cell) ==> cell < total && !drawn(
                total,
                picks,
                count,
            ).contains(cell),
        forall|cell: usize| #[trigger] drawn(total, picks, count).contains(cell) ==> cell < total,
        forall|cell: usize|
            #![trigger pool_after(total, picks, count).contains(cell)]
            #![trigger drawn(total, picks, count).contains(cell)]
            cell < total ==> pool_after(total, picks, count).contains(cell) || drawn(
                total,
                picks,
                count,
            ).contains(cell),
        pool_after(total, picks, count).len() + drawn(total, picks, count).len() == total,
        drawn(total, picks, count).len() == min(min(count as int, picks.len() as int), total as int),
    decreases count,
{
    let pool = pool_after(total, picks, count);
    let chosen = drawn(total, picks, count);
    if count == 0 {
        assert forall|cell: usize| cell < total implies #[trigger] pool.contains(cell) by {
            assert(pool[cell as int] == cell);
        }
        assert forall|cell: usize| !(#[trigger] chosen.contains(cell)) by {}
    } else {
        let pool_before = pool_after(total, picks, (count - 1) as nat);
        let chosen_before = drawn(total, picks, (count - 1) as nat);
        lemma_draws_split(total, picks, (count - 1) as nat);
        if count > picks.len() || pool_before.len() == 0 {
        } else {
            let at = pick_index(pool_before, picks[count - 1]);
            let cell = pool_before[at];
            lemma_remove_members(pool_before, at);
            assert(pool_before.contains(cell));
            assert forall|v: usize| #[trigger]
                chosen.contains(v) <==> chosen_before.contains(v) || v == cell by {
                vstd::seq_lib::lemma_seq_contains_after_push(chosen_before, cell, v);
            }
            assert(!chosen_before.contains(cell));
        }
    }
}

/// Where there are at least `count` numbers and at least `count` cells, the
/// draws give exactly `count` distinct cells, all below `total`.
pub proof fn lemma_drawn_count(total: nat, picks: Seq<usize>, count: nat)
    requires
        total <= usize::MAX,
        count <= picks.len(),
        count <= total,
    ensures
        drawn(total, picks, count).len() == count,
        drawn(total, picks, count).no_duplicates(),
        forall|i: int|
            0 <= i < count ==> (#[trigger] drawn(total, picks, count)[i]) < total,
{
    lemma_draws_split(total, picks, count);
    let chosen = drawn(total, picks, count);
    assert forall|i: int| 0 <= i < count implies (#[trigger] chosen[i]) < total by {
        assert(chosen.contains(chosen[i]));
    }
}

/// The outcome of the draws depends on the first `count` numbers only.
pub proof fn lemma_drawn_reads_prefix(total: nat, a: Seq<usize>, b: Seq<usize>, count: nat)
    requires
        count <= a.len(),
        count <= b.len(),
        forall|i: int| 0 <= i < count ==> a[i] == b[i],
    ensures
        pool_after(total, a, count) == pool_after(total, b, count),
        drawn(total, a, count) == drawn(total, b, count),
    decreases count,
{
    if count > 0 {
        lemma_drawn_reads_prefix(total, a, b, (count - 1) as nat);
    }
}

} // verus!
