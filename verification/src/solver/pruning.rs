//! Pruning tables: for each coordinate, the least number of moves that
//! lead to it from a chosen coordinate, clipped to a limit.

use vstd::prelude::*;
use crate::solver::into_boxed;
use crate::solver::transition::closed;

verus! {

/// What an entry holds while a table is being built and no way to its
/// coordinate is known yet. No finished table holds it.
pub const UNREACHED: u8 = 255;

/// The coordinate after `a` quarter turns of generator `g` from `x`.
pub open spec fn turned(t: Seq<[u32; 7]>, x: int, g: int, a: nat) -> int
    decreases a,
{
    if a == 0 {
        x
    } else {
        t[turned(t, x, g, (a - 1) as nat)][g] as int
    }
}

/// Whether one move, one to three quarter turns of one generator, leads
/// from `x` to `y`.
pub open spec fn one_move(t: Seq<[u32; 7]>, x: int, y: int) -> bool {
    exists|g: int, a: nat| 0 <= g < 7 && 1 <= a <= 3 && #[trigger] turned(t, x, g, a) == y
}

/// Whether `k` moves lead from `from` to `to`.
pub open spec fn reach(t: Seq<[u32; 7]>, from: int, to: int, k: nat) -> bool
    decreases k,
{
    if k == 0 {
        from == to
    } else {
        exists|m: int|
            0 <= m < t.len() && reach(t, from, m, (k - 1) as nat) && #[trigger] one_move(
                t,
                m,
                to,
            )
    }
}

/// Whether `table` holds, for each coordinate, the least number of moves
/// that lead to it from `init`, clipped to `max_depth`: the least number
/// where that is at most `max_depth`, and `max_depth` where more moves are
/// needed or none lead there.
pub open spec fn is_prune_table(
    t: Seq<[u32; 7]>,
    init: int,
    max_depth: int,
    table: Seq<u8>,
) -> bool {
    &&& table.len() == t.len()
    &&& forall|n: int|
        0 <= n < t.len() ==> {
            &&& #[trigger] table[n] <= max_depth
            &&& table[n] < max_depth ==> reach(t, init, n, table[n] as nat)
            &&& forall|k: nat| k < table[n] ==> !reach(t, init, n, k)
        }
}

/// Whether `table` holds what the search from `init` leaves: for each
/// coordinate the least number of moves that lead to it, and `UNREACHED`
/// where more than `max_depth` are needed.
pub open spec fn is_searched(t: Seq<[u32; 7]>, init: int, max_depth: int, table: Seq<u8>) -> bool {
    &&& table.len() == t.len()
    &&& forall|n: int|
        0 <= n < t.len() ==> if #[trigger] table[n] == UNREACHED {
            forall|k: nat| k <= max_depth ==> !reach(t, init, n, k)
        } else {
            &&& table[n] <= max_depth
            &&& reach(t, init, n, table[n] as nat)
            &&& forall|k: nat| k < table[n] ==> !reach(t, init, n, k)
        }
}

/// Each entry that is set is the length of a way from `init`, below
/// `limit`.
pub open spec fn sound(t: Seq<[u32; 7]>, init: int, limit: int, table: Seq<u8>) -> bool {
    forall|m: int|
        0 <= m < table.len() && #[trigger] table[m] != UNREACHED ==> table[m] < limit && reach(
            t,
            init,
            m,
            table[m] as nat,
        )
}

/// Each coordinate whose entry is at least `depth` has passed its entry on:
/// whatever one move leads to from it has an entry at most one higher,
/// unless that would reach `limit`.
pub open spec fn relaxed(t: Seq<[u32; 7]>, limit: int, table: Seq<u8>, depth: int) -> bool {
    forall|m: int, g: int, a: nat|
        0 <= m < table.len() && depth <= table[m] && table[m] + 1 < limit && 0 <= g < 7 && 1
            <= a <= 3 ==> table[#[trigger] turned(t, m, g, a)] <= table[m] + 1
}

/// In a closed table every number of quarter turns leads to a coordinate.
pub proof fn lemma_turned_closed(t: Seq<[u32; 7]>, x: int, g: int, a: nat)
    requires
        closed(t),
        0 <= x < t.len(),
        0 <= g < 7,
    ensures
        0 <= turned(t, x, g, a) < t.len(),
    decreases a,
{
    if a > 0 {
        lemma_turned_closed(t, x, g, (a - 1) as nat);
    }
}

/// Where every entry has been passed on and `init` has entry 0, no way from
/// `init` is shorter than the entry of its end.
pub proof fn lemma_relaxed_reach(
    t: Seq<[u32; 7]>,
    init: int,
    limit: int,
    table: Seq<u8>,
    n: int,
    k: nat,
)
    requires
        closed(t),
        table.len() == t.len(),
        0 <= init < t.len(),
        0 <= n < t.len(),
        table[init] == 0,
        relaxed(t, limit, table, 0),
        reach(t, init, n, k),
        k < limit,
    ensures
        table[n] <= k,
    decreases k,
{
    if k > 0 {
        let m = choose|m: int|
            0 <= m < t.len() && reach(t, init, m, (k - 1) as nat) && #[trigger] one_move(t, m, n);
        lemma_relaxed_reach(t, init, limit, table, m, (k - 1) as nat);
        let (g, a) = choose|g: int, a: nat|
            0 <= g < 7 && 1 <= a <= 3 && #[trigger] turned(t, m, g, a) == n;
        assert(table[turned(t, m, g, a)] <= table[m] + 1);
    }
}

/// Generate a pruning table for the `Index` represented by `trans_table`:
/// for each coordinate the least number of moves from `init_index` to it,
/// clipped to `max_depth`. Every entry is at most `max_depth`.
pub fn gen_prune_table(trans_table: &[[u32; 7]], max_depth: u32, init_index: u32) -> (table: Box<
    [u8],
>)
    requires
        closed(trans_table@),
        init_index < trans_table@.len(),
        max_depth <= 254,
    ensures
        is_prune_table(trans_table@, init_index as int, max_depth as int, table@),
{
    let mut table: Vec<u8> = vec![UNREACHED; trans_table.len()];
    let ghost t = trans_table@;
    let ghost init = init_index as int;
    gen_prune_table_inner(
        init_index,
        &mut table,
        trans_table,
        max_depth + 1,
        0,
        Ghost(init_index as int),
    );
    proof {
        assert forall|n: int| 0 <= n < t.len() implies if #[trigger] table@[n] == UNREACHED {
            forall|k: nat| k <= max_depth ==> !reach(t, init, n, k)
        } else {
            &&& table@[n] <= max_depth
            &&& reach(t, init, n, table@[n] as nat)
            &&& forall|k: nat| k < table@[n] ==> !reach(t, init, n, k)
        } by {
            assert forall|k: nat| k <= max_depth && reach(t, init, n, k) implies table@[n]
                <= k by {
                lemma_relaxed_reach(t, init, max_depth + 1, table@, n, k);
            }
        }
    }
    // Clip what the search did not reach to the limit.
    let ghost searched = table@;
    let mut n: usize = 0;
    while n < table.len()
        invariant
            n <= table@.len(),
            table@.len() == t.len(),
            searched.len() == t.len(),
            max_depth <= 254,
            is_searched(t, init, max_depth as int, searched),
            forall|i: int| n <= i < t.len() ==> table@[i] == searched[i],
            forall|i: int|
                0 <= i < n ==> {
                    &&& #[trigger] table@[i] <= max_depth
                    &&& table@[i] < max_depth ==> reach(t, init, i, table@[i] as nat)
                    &&& forall|k: nat| k < table@[i] ==> !reach(t, init, i, k)
                },
        decreases table@.len() - n,
    {
        assert(table@[n as int] == searched[n as int]);
        if table[n] == UNREACHED {
            table.set(n, max_depth as u8);
        }
        n = n + 1;
    }
    into_boxed(table)
}

fn gen_prune_table_inner(
    index: u32,
    prune_table: &mut Vec<u8>,
    trans_table: &[[u32; 7]],
    max_depth: u32,
    depth: u32,
    Ghost(init): Ghost<int>,
)
    requires
        closed(trans_table@),
        old(prune_table)@.len() == trans_table@.len(),
        index < trans_table@.len(),
        0 <= init < trans_table@.len(),
        depth <= max_depth <= 255,
        reach(trans_table@, init, index as int, depth as nat),
        sound(trans_table@, init, max_depth as int, old(prune_table)@),
        relaxed(trans_table@, max_depth as int, old(prune_table)@, depth as int),
    ensures
        final(prune_table)@.len() == trans_table@.len(),
        sound(trans_table@, init, max_depth as int, final(prune_table)@),
        relaxed(trans_table@, max_depth as int, final(prune_table)@, depth as int),
        forall|m: int|
            0 <= m < trans_table@.len() ==> (#[trigger] final(prune_table)@[m]) <= old(
                prune_table,
            )@[m],
        forall|m: int|
            0 <= m < trans_table@.len() && (#[trigger] final(prune_table)@[m]) != old(
                prune_table,
            )@[m] ==> final(prune_table)@[m] >= depth,
        depth < max_depth ==> final(prune_table)@[index as int] <= depth,
    decreases max_depth - depth,
{
    // End the current search branch if max_depth is reached or the current
    // index was already reached at a lower depth.
    if depth == max_depth || prune_table[index as usize] as u32 <= depth {
        return;
    }
    let ghost t = trans_table@;
    let ghost before = prune_table@;
    // Save the current depth for this index.
    prune_table.set(index as usize, depth as u8);
    proof {
        assert forall|m: int, g: int, a: nat|
            0 <= m < t.len() && depth + 1 <= prune_table@[m] && prune_table@[m] + 1 < max_depth
                && 0 <= g < 7 && 1 <= a <= 3 implies prune_table@[#[trigger] turned(t, m, g, a)]
            <= prune_table@[m] + 1 by {
            lemma_turned_closed(t, m, g, a);
            let x = turned(t, m, g, a);
            assert(before[x] <= before[m] + 1);
        }
    }
    let mut i: usize = 0;
    while i < 7
        invariant
            closed(t),
            t == trans_table@,
            prune_table@.len() == t.len(),
            before.len() == t.len(),
            index < t.len(),
            0 <= init < t.len(),
            depth < max_depth <= 255,
            i <= 7,
            reach(t, init, index as int, depth as nat),
            sound(t, init, max_depth as int, prune_table@),
            relaxed(t, max_depth as int, prune_table@, depth + 1),
            prune_table@[index as int] == depth,
            before[index as int] > depth,
            forall|m: int| 0 <= m < t.len() ==> (#[trigger] prune_table@[m]) <= before[m],
            forall|m: int|
                0 <= m < t.len() && m != index && (#[trigger] prune_table@[m]) != before[m]
                    ==> prune_table@[m] >= depth + 1,
            forall|g: int, a: nat|
                0 <= g < i && 1 <= a <= 3 && depth + 1 < max_depth ==> prune_table@[#[trigger] turned(t, index as int, g, a)] <= depth + 1,
        decreases 7 - i,
    {
        let mut new_index = index;
        let mut n: u8 = 0;
        while n < 3
            invariant
                closed(t),
                t == trans_table@,
                prune_table@.len() == t.len(),
                before.len() == t.len(),
                index < t.len(),
                new_index < t.len(),
                0 <= init < t.len(),
                depth < max_depth <= 255,
                i < 7,
                n <= 3,
                new_index == turned(t, index as int, i as int, n as nat),
                reach(t, init, index as int, depth as nat),
                sound(t, init, max_depth as int, prune_table@),
                relaxed(t, max_depth as int, prune_table@, depth + 1),
                prune_table@[index as int] == depth,
                before[index as int] > depth,
                forall|m: int| 0 <= m < t.len() ==> (#[trigger] prune_table@[m]) <= before[m],
                forall|m: int|
                    0 <= m < t.len() && m != index && (#[trigger] prune_table@[m]) != before[m]
                        ==> prune_table@[m] >= depth + 1,
                forall|g: int, a: nat|
                    (0 <= g < i && 1 <= a <= 3 || g == i && 1 <= a <= n) && depth + 1
                        < max_depth ==> prune_table@[#[trigger] turned(t, index as int, g, a)] <= depth + 1,
            decreases 3 - n,
        {
            let ghost mid = prune_table@;
            new_index = trans_table[new_index as usize][i];
            proof {
                assert(new_index == turned(t, index as int, i as int, (n + 1) as nat));
                assert(one_move(t, index as int, new_index as int));
                assert(reach(t, init, index as int, ((depth + 1) as nat - 1) as nat));
                assert(reach(t, init, new_index as int, (depth + 1) as nat));
            }
            gen_prune_table_inner(
                new_index,
                prune_table,
                trans_table,
                max_depth,
                depth + 1,
                Ghost(init),
            );
            proof {
                assert forall|g: int, a: nat|
                    (0 <= g < i && 1 <= a <= 3 || g == i && 1 <= a <= n + 1) && depth + 1
                        < max_depth implies prune_table@[#[trigger] turned(t, index as int, g, a)] <= depth + 1 by {
                    lemma_turned_closed(t, index as int, g, a as nat);
                    let x = turned(t, index as int, g, a);
                    assert(prune_table@[x] <= mid[x]);
                }
            }
            n = n + 1;
        }
        i = i + 1;
    }
    proof {
        assert forall|m: int, g: int, a: nat|
            0 <= m < t.len() && depth <= prune_table@[m] && prune_table@[m] + 1 < max_depth && 0
                <= g < 7 && 1 <= a <= 3 implies prune_table@[#[trigger] turned(t, m, g, a)]
            <= prune_table@[m] + 1 by {
            lemma_turned_closed(t, m, g, a as nat);
            let x = turned(t, m, g, a);
            if prune_table@[m] == depth && m != index {
                assert(before[m] == depth);
                assert(before[x] <= before[m] + 1);
                assert(prune_table@[x] <= before[x]);
            }
        }
    }
}

} // verus!
