//! Transition tables: for each coordinate of an index and each generator of
//! the search, the coordinate after one quarter turn.

use vstd::prelude::*;
use crate::cube::{Face, Move, Slice};
use crate::solver::index::Index;
use crate::solver::into_boxed;

verus! {

/// The generators of the search in their order: the quarter turns of U, D,
/// F, B, R, L and of the M slice.
pub open spec fn generator(g: int) -> Move {
    if g == 0 {
        Move::Face(Face::U, 1)
    } else if g == 1 {
        Move::Face(Face::D, 1)
    } else if g == 2 {
        Move::Face(Face::F, 1)
    } else if g == 3 {
        Move::Face(Face::B, 1)
    } else if g == 4 {
        Move::Face(Face::R, 1)
    } else if g == 5 {
        Move::Face(Face::L, 1)
    } else {
        Move::Slice(Slice::M, 1)
    }
}

/// The generators of the search in their order.
pub fn generators() -> (moves: [Move; 7])
    ensures
        forall|g: int| 0 <= g < 7 ==> #[trigger] moves@[g] == generator(g),
{
    [
        Move::Face(Face::U, 1),
        Move::Face(Face::D, 1),
        Move::Face(Face::F, 1),
        Move::Face(Face::B, 1),
        Move::Face(Face::R, 1),
        Move::Face(Face::L, 1),
        Move::Slice(Slice::M, 1),
    ]
}

/// A table is closed when each of its entries is a row of it.
pub open spec fn closed(table: Seq<[u32; 7]>) -> bool {
    forall|n: int, g: int|
        0 <= n < table.len() && 0 <= g < 7 ==> (#[trigger] table[n][g]) < table.len()
}

/// Whether `table` is the transition table of `index`: row `n` holds, for
/// each generator, the coordinate of the cube decoded from `n` after a
/// quarter turn of it.
pub open spec fn is_transition_table<I: Index>(index: &I, table: Seq<[u32; 7]>) -> bool {
    &&& table.len() == I::NUM_ELEMS
    &&& forall|n: int, g: int|
        0 <= n < table.len() && 0 <= g < 7 ==> #[trigger] table[n][g] == index.coord(
            index.decoded(n).apply(generator(g)),
        )
}

/// Generate a transition table for the `Index` `index`.
pub fn gen_transition_table<I: Index>(index: &I) -> (table: Box<[[u32; 7]]>)
    requires
        index.wf(),
    ensures
        is_transition_table(index, table@),
        closed(table@),
{
    let mut res: Vec<[u32; 7]> = Vec::with_capacity(I::NUM_ELEMS as usize);
    let moves = generators();
    let mut n: u32 = 0;
    while n < I::NUM_ELEMS
        invariant
            index.wf(),
            n <= I::NUM_ELEMS,
            res@.len() == n,
            forall|g: int| 0 <= g < 7 ==> #[trigger] moves@[g] == generator(g),
            forall|k: int, g: int|
                0 <= k < n && 0 <= g < 7 ==> #[trigger] res@[k][g] == index.coord(
                    index.decoded(k).apply(generator(g)),
                ) && res@[k][g] < I::NUM_ELEMS,
        decreases I::NUM_ELEMS - n,
    {
        let mut row: [u32; 7] = [0, 0, 0, 0, 0, 0, 0];
        let c = index.from_index(n);
        let mut i: usize = 0;
        while i < 7
            invariant
                index.wf(),
                i <= 7,
                n < I::NUM_ELEMS,
                c@ == index.decoded(n as int),
                forall|g: int| 0 <= g < 7 ==> #[trigger] moves@[g] == generator(g),
                forall|g: int|
                    0 <= g < i ==> #[trigger] row[g] == index.coord(
                        index.decoded(n as int).apply(generator(g)),
                    ) && row[g] < I::NUM_ELEMS,
            decreases 7 - i,
        {
            let f = moves[i];
            let mut c2 = c;
            c2.do_move(f);
            proof {
                reveal_with_fuel(crate::cube::sticker_cube::Stickers::quarters, 2);
                index.lemma_round_trip(n as int);
                index.lemma_quarter_tracks(c@, f);
            }
            let n2 = index.from_cube(&c2);
            row[i] = n2;
            i = i + 1;
        }
        res.push(row);
        n = n + 1;
    }
    into_boxed(res)
}

} // verus!
