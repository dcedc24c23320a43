//! What holds of every pruning table over transitions that can be undone:
//! its entries are lower bounds on the number of moves to the goal.

use vstd::prelude::*;
use crate::cube::Move;
use crate::solver::search_laws::generator_of;
use crate::solver::pruning::{is_prune_table, lemma_turned_closed, one_move, reach, turned};
use crate::solver::transition::closed;

verus! {

/// Whether four quarter turns of each generator lead back to where they
/// began, so that each move has one that undoes it.
pub open spec fn invertible(t: Seq<[u32; 7]>) -> bool {
    &&& closed(t)
    &&& forall|x: int, g: int| 0 <= x < t.len() && 0 <= g < 7 ==> #[trigger] turned(t, x, g, 4) == x
}

/// A move of the search over a table: a generator, and one to three quarter
/// turns of it.
pub open spec fn table_move(m: (int, nat)) -> bool {
    0 <= m.0 < 7 && 1 <= m.1 <= 3
}

/// The coordinate after the moves `ms` from `x`.
pub open spec fn walk(t: Seq<[u32; 7]>, x: int, ms: Seq<(int, nat)>) -> int
    decreases ms.len(),
{
    if ms.len() == 0 {
        x
    } else {
        turned(t, walk(t, x, ms.drop_last()), ms.last().0, ms.last().1)
    }
}

/// Quarter turns add up.
pub proof fn lemma_turned_add(t: Seq<[u32; 7]>, x: int, g: int, a: nat, b: nat)
    ensures
        turned(t, turned(t, x, g, a), g, b) == turned(t, x, g, a + b),
    decreases b,
{
    if b > 0 {
        lemma_turned_add(t, x, g, a, (b - 1) as nat);
    }
}

/// Where moves can be undone, a move back leads from where a move led to.
pub proof fn lemma_move_back(t: Seq<[u32; 7]>, x: int, y: int)
    requires
        invertible(t),
        0 <= x < t.len(),
        one_move(t, x, y),
    ensures
        0 <= y < t.len(),
        one_move(t, y, x),
{
    let (g, a) = choose|g: int, a: nat| 0 <= g < 7 && 1 <= a <= 3 && #[trigger] turned(t, x, g, a) == y;
    lemma_turned_closed(t, x, g, a);
    lemma_turned_add(t, x, g, a, (4 - a) as nat);
    assert(turned(t, x, g, 4) == x);
    assert(turned(t, y, g, (4 - a) as nat) == x);
}

/// A move and then `k` moves are `k + 1` moves.
pub proof fn lemma_reach_first(t: Seq<[u32; 7]>, a: int, b: int, c: int, k: nat)
    requires
        closed(t),
        0 <= a < t.len(),
        0 <= b < t.len(),
        one_move(t, a, b),
        reach(t, b, c, k),
    ensures
        reach(t, a, c, k + 1),
    decreases k,
{
    if k == 0 {
        assert(reach(t, a, a, 0));
        assert(one_move(t, a, c));
    } else {
        let m = choose|m: int|
            0 <= m < t.len() && reach(t, b, m, (k - 1) as nat) && #[trigger] one_move(t, m, c);
        lemma_reach_first(t, a, b, m, (k - 1) as nat);
        assert(reach(t, a, m, ((k + 1) - 1) as nat));
    }
}

/// Where moves can be undone, as many moves lead back as led there.
pub proof fn lemma_reach_back(t: Seq<[u32; 7]>, a: int, b: int, k: nat)
    requires
        invertible(t),
        0 <= a < t.len(),
        reach(t, a, b, k),
    ensures
        0 <= b < t.len(),
        reach(t, b, a, k),
    decreases k,
{
    if k > 0 {
        let m = choose|m: int|
            0 <= m < t.len() && reach(t, a, m, (k - 1) as nat) && #[trigger] one_move(t, m, b);
        lemma_reach_back(t, a, m, (k - 1) as nat);
        lemma_move_back(t, m, b);
        lemma_reach_first(t, b, m, a, (k - 1) as nat);
    }
}

/// A walk of moves leads to where it ends in as many moves as it has.
pub proof fn lemma_walk_reach(t: Seq<[u32; 7]>, x: int, ms: Seq<(int, nat)>)
    requires
        closed(t),
        0 <= x < t.len(),
        forall|i: int| 0 <= i < ms.len() ==> table_move(#[trigger] ms[i]),
    ensures
        0 <= walk(t, x, ms) < t.len(),
        reach(t, x, walk(t, x, ms), ms.len()),
    decreases ms.len(),
{
    if ms.len() > 0 {
        let front = ms.drop_last();
        lemma_walk_reach(t, x, front);
        let m = walk(t, x, front);
        lemma_turned_closed(t, m, ms.last().0, ms.last().1);
        assert(table_move(ms.last()));
        assert(one_move(t, m, walk(t, x, ms)));
        assert(reach(t, x, m, (ms.len() - 1) as nat));
    }
}

/// Pruning lower-bound soundness: where moves can be undone, the entry of a
/// coordinate in the pruning table for a goal is at most the number of
/// moves of any walk from the coordinate to the goal.
pub proof fn lemma_prune_lower_bound(
    t: Seq<[u32; 7]>,
    goal: int,
    max_depth: int,
    table: Seq<u8>,
    s: int,
    ms: Seq<(int, nat)>,
)
    requires
        invertible(t),
        is_prune_table(t, goal, max_depth, table),
        0 <= goal < t.len(),
        0 <= s < t.len(),
        forall|i: int| 0 <= i < ms.len() ==> table_move(#[trigger] ms[i]),
        walk(t, s, ms) == goal,
    ensures
        table[s] <= ms.len(),
{
    lemma_walk_reach(t, s, ms);
    lemma_reach_back(t, s, goal, ms.len());
    if table[s] > ms.len() {
        assert(!reach(t, goal, s, ms.len()));
    }
}

/// The moves of a search as moves over a table: for each its generator
/// and its amount.
pub open spec fn table_moves(ms: Seq<Move>) -> Seq<(int, nat)> {
    Seq::new(ms.len(), |i: int| (generator_of(ms[i]), ms[i].spec_amount() as nat))
}

/// A walk goes on from where its first move leads.
pub proof fn lemma_walk_first(t: Seq<[u32; 7]>, x: int, ms: Seq<(int, nat)>)
    requires
        ms.len() > 0,
    ensures
        walk(t, x, ms) == walk(t, turned(t, x, ms[0].0, ms[0].1), ms.skip(1)),
    decreases ms.len(),
{
    reveal_with_fuel(walk, 2);
    if ms.len() == 1 {
        assert(ms.drop_last() =~= Seq::<(int, nat)>::empty());
        assert(ms.skip(1) =~= Seq::<(int, nat)>::empty());
        assert(ms.last() == ms[0]);
    } else {
        lemma_walk_first(t, x, ms.drop_last());
        assert(ms.drop_last()[0] == ms[0]);
        assert(ms.drop_last().skip(1) =~= ms.skip(1).drop_last());
        assert(ms.skip(1).last() == ms.last());
    }
}

} // verus!
