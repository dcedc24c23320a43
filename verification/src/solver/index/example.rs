//! The smallest index: the place of the one edge UF.

use vstd::prelude::*;
use crate::cube::{Face, Move};
use crate::cube::sticker_cube::{Cube, Stickers};
use crate::solver::index::{
    coordinate, decoded_positions, edge_decoded, edge_positions, place_edges, Index,
};
use crate::cube::Slice;
use crate::cube::laws::{
    lemma_apply_all_first, lemma_flipped_edge_home, lemma_quarters_same_movement,
};
use crate::solver::iddfs::{search, turned_state, IDDFSInfo};
use crate::solver::pruning::turned;
use crate::solver::pruning_laws::{
    lemma_prune_lower_bound, lemma_walk_first, table_move, table_moves, walk,
};
use crate::solver::search_laws::{
    admissible, generator_of, lemma_search_complete, lemma_search_sound, moved, passes, run,
    search_move, search_moves, solves,
};
use crate::solver::table_laws::{lemma_edge_table_steps, lemma_steps_invertible, step, steps_by};
use crate::solver::tracking::edge_to;
use crate::solver::transition::generator;
use crate::solver::pruning::{gen_prune_table, is_prune_table};
use crate::solver::round_trip::{distinct_edges, edges_tracked, lemma_edge_round_trip};
use crate::solver::tracking::lemma_quarter_keeps_edges;
use crate::solver::transition::{closed, gen_transition_table, is_transition_table};

verus! {

/// Simple Index that tracks UF only.
pub struct UF;

impl UF {
    /// The number of coordinates: the 24 places of one edge.
    pub proof fn lemma_num_elems()
        ensures
            UF::NUM_ELEMS == 24,
            UF::NUM_ELEMS == crate::solver::index::num_elems(2, 1),
    {
        crate::solver::index::lemma_num_elems_values(2);
    }

    /// The one edge of the index.
    pub open spec fn pieces() -> Seq<(Face, Face)> {
        seq![(Face::U, Face::F)]
    }
}

impl Index for UF {
    const NUM_ELEMS: u32 = 24;

    open spec fn wf(&self) -> bool {
        true
    }

    open spec fn tracks(&self, c: Stickers) -> bool {
        edges_tracked(c, UF::pieces())
    }

    open spec fn coord(&self, c: Stickers) -> int {
        c.edge_pos(Face::U, Face::F)
    }

    open spec fn decoded(&self, i: int) -> Stickers {
        Stickers {
            edges: Stickers::invalid().edges.update(i, Face::U).update(
                crate::cube::sticker_cube::edge_sister(i),
                Face::F,
            ),
            ..Stickers::invalid()
        }
    }

    fn from_cube(&self, c: &Cube) -> (i: u32) {
        proof {
            assert(0 <= edge_positions(c@, UF::pieces())[0] < 24);
            c@.lemma_edge_pos_from(Face::U, Face::F, 0);
        }
        c.find_edge(Face::U, Face::F).index() as u32
    }

    fn from_index(&self, i: u32) -> (c: Cube) {
        let mut c = Cube::invalid();
        proof {
            assert(i ^ 1 == (if i % 2 == 0 {
                (i + 1) as u32
            } else {
                (i - 1) as u32
            })) by (bit_vector)
                requires
                    i < 24,
            ;
        }
        c.edges[i as usize] = Face::U;
        c.edges[(i ^ 1) as usize] = Face::F;
        c
    }

    proof fn lemma_round_trip(&self, i: int) {
        let faces = UF::pieces();
        assert(faces.reverse() =~= faces);
        assert(distinct_edges(faces));
        reveal_with_fuel(crate::solver::index::num_elems, 2);
        lemma_edge_round_trip(i, faces);
        reveal_with_fuel(crate::solver::index::remainder, 2);
        reveal_with_fuel(crate::solver::index::raised, 2);
        reveal_with_fuel(place_edges, 2);
        reveal_with_fuel(crate::solver::index::combine, 2);
        reveal_with_fuel(crate::solver::index::lowered, 2);
        let pos = decoded_positions(2, 1, i);
        assert(pos[0] == i);
        let c = edge_decoded(Stickers::invalid(), i, faces);
        assert(c.edges =~= self.decoded(i).edges);
        assert(c == self.decoded(i));
        assert(edge_positions(c, faces)[0] == c.edge_pos(Face::U, Face::F));
        assert(coordinate(2, edge_positions(c, faces)) == c.edge_pos(Face::U, Face::F));
    }

    proof fn lemma_quarter_tracks(&self, c: Stickers, m: Move) {
        lemma_quarter_keeps_edges(c, m, UF::pieces());
    }
}

/// IDDFS Info for the edge UF alone: its transition table, and its
/// distances from the place UF, clipped to 2 moves.
pub struct UFInfo(Box<[[u32; 7]]>, Box<[u8]>);

impl UFInfo {
    /// The transition table.
    pub closed spec fn table(&self) -> Seq<[u32; 7]> {
        self.0@
    }

    /// The pruning table.
    pub closed spec fn distances(&self) -> Seq<u8> {
        self.1@
    }

    /// Builds the two tables.
    pub fn new() -> (info: UFInfo)
        ensures
            info.wf(),
    {
        let table = gen_transition_table(&UF);
        let ptable = gen_prune_table(&table, 2, 0);
        UFInfo(table, ptable)
    }
}

impl IDDFSInfo for UFInfo {
    type State = u32;

    open spec fn wf(&self) -> bool {
        &&& is_transition_table(&UF, self.table())
        &&& closed(self.table())
        &&& is_prune_table(self.table(), 0, 2, self.distances())
    }

    open spec fn valid(&self, state: Self::State) -> bool {
        state < UF::NUM_ELEMS
    }

    open spec fn solved(&self, state: Self::State) -> bool {
        state == 0
    }

    open spec fn next(&self, state: Self::State, m: int) -> Self::State {
        self.table()[state as int][m]
    }

    open spec fn pruned(&self, state: Self::State, depth_remaining: nat) -> bool {
        depth_remaining < self.distances()[state as int]
    }

    fn is_solved(&self, state: &Self::State) -> (b: bool) {
        *state == 0
    }

    fn transition(&self, state: &Self::State, m: usize) -> (n: Self::State) {
        self.0[*state as usize][m]
    }

    fn prune(&self, state: &Self::State, depth_remaining: usize) -> (b: bool) {
        depth_remaining < self.1[*state as usize] as usize
    }

    proof fn lemma_next_valid(&self, state: Self::State, m: int) {
    }
}

/// A coordinate of one edge stands for the position of that number.
proof fn lemma_single_position(x: int)
    requires
        0 <= x < 24,
    ensures
        decoded_positions(2, 1, x).len() == 1,
        decoded_positions(2, 1, x)[0] == x,
{
    reveal_with_fuel(crate::solver::index::remainder, 2);
    reveal_with_fuel(crate::solver::index::raised, 2);
    assert(crate::solver::index::taken(2, 1, x, 0) == x);
    assert(crate::solver::index::taken_digits(2, 1, x)[0] == x);
}

/// The table of the edge UF takes each place to the place to which the
/// quarter turn takes its facelet.
pub proof fn lemma_table_follows_edge(info: &UFInfo, x: int, g: int)
    requires
        info.wf(),
        0 <= x < 24,
        0 <= g < 7,
    ensures
        info.table().len() == 24,
        steps_by(info.table(), 2, 1),
        info.table()[x][g] == edge_to(generator(g), x),
{
    let faces = UF::pieces();
    let t = info.table();
    UF::lemma_num_elems();
    assert(faces.reverse() =~= faces);
    assert(distinct_edges(faces));
    reveal_with_fuel(place_edges, 2);
    reveal_with_fuel(crate::solver::index::combine, 2);
    reveal_with_fuel(crate::solver::index::lowered, 2);
    assert forall|n: int, h: int| 0 <= n < t.len() && 0 <= h < 7 implies #[trigger] t[n][h]
        == coordinate(
        2,
        edge_positions(
            edge_decoded(Stickers::invalid(), n, faces.reverse()).apply(generator(h)),
            faces,
        ),
    ) by {
        let d = edge_decoded(Stickers::invalid(), n, faces);
        lemma_single_position(n);
        assert(d.edges =~= UF.decoded(n).edges);
        assert(d == UF.decoded(n));
        let after = d.apply(generator(h));
        assert(edge_positions(after, faces)[0] == after.edge_pos(Face::U, Face::F));
    }
    lemma_edge_table_steps(t, faces);
    let p = decoded_positions(2, 1, x).reverse();
    lemma_single_position(x);
    assert(p[0] == x);
    let q = crate::solver::table_laws::turn_positions(2, generator(g), p);
    assert(q[0] == edge_to(generator(g), x));
    assert(step(2, 1, x, g) == edge_to(generator(g), x));
}

/// Turns of a generator lead the state along the table.
pub proof fn lemma_turned_along(info: &UFInfo, state: u32, g: int, a: nat)
    requires
        info.wf(),
        info.valid(state),
        0 <= g < 7,
    ensures
        info.valid(turned_state(info, state, g, a)),
        turned_state(info, state, g, a) == turned(info.table(), state as int, g, a),
    decreases a,
{
    if a > 0 {
        lemma_turned_along(info, state, g, (a - 1) as nat);
    }
}

/// The moves of a search lead the state along the table.
pub proof fn lemma_run_along(info: &UFInfo, state: u32, ms: Seq<Move>)
    requires
        info.wf(),
        info.valid(state),
        search_moves(ms),
    ensures
        run(info, state, ms) == walk(info.table(), state as int, table_moves(ms)),
    decreases ms.len(),
{
    if ms.len() > 0 {
        let m = ms[0];
        assert(search_move(m));
        lemma_turned_along(info, state, generator_of(m), m.spec_amount() as nat);
        assert forall|i: int| 0 <= i < ms.skip(1).len() implies search_move(
            #[trigger] ms.skip(1)[i],
        ) by {
            assert(ms.skip(1)[i] == ms[i + 1]);
        }
        lemma_run_along(info, moved(info, state, m), ms.skip(1));
        assert(table_moves(ms).skip(1) =~= table_moves(ms.skip(1)));
        lemma_walk_first(info.table(), state as int, table_moves(ms));
    }
}

/// The cut-off of the search for the edge UF is admissible: it gives no
/// state up that as many moves as are left solve.
pub proof fn lemma_admissible(info: &UFInfo)
    requires
        info.wf(),
    ensures
        admissible(info),
{
    lemma_table_follows_edge(info, 0, 0);
    lemma_steps_invertible(info.table(), 2, 1);
    assert forall|state: u32, ms: Seq<Move>|
        info.valid(state) && search_moves(ms) && info.solved(
            #[trigger] run(info, state, ms),
        ) implies !info.pruned(state, ms.len()) by {
        UF::lemma_num_elems();
        lemma_run_along(info, state, ms);
        let tm = table_moves(ms);
        assert forall|i: int| 0 <= i < tm.len() implies table_move(#[trigger] tm[i]) by {
            assert(search_move(ms[i]));
        }
        lemma_prune_lower_bound(info.table(), 0, 2, info.distances(), state as int, tm);
    }
}

/// The minimal solve of the edge UF: from the edge flipped in place, the
/// search with depth 2 finds two moves of the search that lead to the
/// edge in its place, unflipped.
pub proof fn lemma_flipped_edge_solved(info: &UFInfo)
    requires
        info.wf(),
    ensures
        search(info, 1, 2, Seq::empty()) matches Some(p) && solves(
            info,
            1,
            2,
            Seq::empty(),
            p,
        ),
{
    let u2 = Move::Face(Face::U, 2);
    let m1 = Move::Slice(Slice::M, 1);
    let ms = seq![u2, m1];
    let none = Seq::<Move>::empty();
    UF::lemma_num_elems();
    lemma_flipped_edge_home();
    lemma_table_follows_edge(info, 1, 0);
    lemma_table_follows_edge(info, 3, 0);
    lemma_table_follows_edge(info, 5, 6);
    lemma_turned_along(info, 1, 0, 2);
    reveal_with_fuel(turned, 3);
    assert(turned_state(info, 1, 0, 2) == 5);
    lemma_turned_along(info, 5, 6, 1);
    assert(turned_state(info, 5, 6, 1) == 0);
    assert(ms.skip(1) =~= seq![m1]);
    assert(seq![m1].skip(1) =~= none);
    reveal_with_fuel(run, 3);
    assert(run(info, 1, ms) == 0);
    assert(search_moves(ms));
    assert(passes(none, ms)) by {
        assert(none + ms.take(0) =~= none);
        assert(none + ms.take(1) =~= seq![u2]);
    }
    lemma_admissible(info);
    lemma_search_complete(info, 1, none, ms);
    lemma_search_sound(info, 1, 2, none);
}

/// The state follows the cube: turns of a generator lead the state of a
/// cube to the state of the turned cube.
pub proof fn lemma_turned_follows_cube(info: &UFInfo, c: Stickers, g: int, a: nat)
    requires
        info.wf(),
        c.wf(),
        UF.tracks(c),
        0 <= g < 7,
    ensures
        c.quarters(generator(g), a).wf(),
        UF.tracks(c.quarters(generator(g), a)),
        0 <= UF.coord(c) < 24,
        turned_state(info, UF.coord(c) as u32, g, a) == UF.coord(c.quarters(generator(g), a)),
    decreases a,
{
    let faces = UF::pieces();
    assert(0 <= edge_positions(c, faces)[0] < 24);
    UF::lemma_num_elems();
    if a > 0 {
        let before = c.quarters(generator(g), (a - 1) as nat);
        lemma_turned_follows_cube(info, c, g, (a - 1) as nat);
        assert(0 <= edge_positions(before, faces)[0] < 24);
        lemma_table_follows_edge(info, UF.coord(before), g);
        lemma_quarter_keeps_edges(before, generator(g), faces);
        assert(edge_positions(before.quarter(generator(g)), faces)[0] == edge_to(
            generator(g),
            edge_positions(before, faces)[0],
        ));
    }
}

/// The state follows the cube: the moves of a search lead the state of a
/// cube to the state of the cube after the moves.
pub proof fn lemma_run_follows_cube(info: &UFInfo, c: Stickers, ms: Seq<Move>)
    requires
        info.wf(),
        c.wf(),
        UF.tracks(c),
        search_moves(ms),
    ensures
        c.apply_all(ms).wf(),
        UF.tracks(c.apply_all(ms)),
        0 <= UF.coord(c) < 24,
        run(info, UF.coord(c) as u32, ms) == UF.coord(c.apply_all(ms)),
    decreases ms.len(),
{
    assert(0 <= edge_positions(c, UF::pieces())[0] < 24);
    if ms.len() > 0 {
        let m = ms[0];
        assert(search_move(m));
        let g = generator_of(m);
        lemma_turned_follows_cube(info, c, g, m.spec_amount() as nat);
        lemma_quarters_same_movement(c, m, generator(g), m.spec_amount() as nat);
        let next = c.apply(m);
        assert forall|i: int| 0 <= i < ms.skip(1).len() implies search_move(
            #[trigger] ms.skip(1)[i],
        ) by {
            assert(ms.skip(1)[i] == ms[i + 1]);
        }
        lemma_run_follows_cube(info, next, ms.skip(1));
        lemma_apply_all_first(c, ms);
    }
}

/// The minimal solve of the edge UF on the cube: where a cube shows the
/// edge UF flipped in place, the search with depth 2 finds two moves, each
/// of one to three quarter turns, and after them the cube shows U at UF
/// and F at FU.
pub proof fn lemma_flipped_edge_restored(info: &UFInfo, c: Stickers)
    requires
        info.wf(),
        c.wf(),
        UF.tracks(c),
        c.edge_pos(Face::U, Face::F) == 1,
    ensures
        search(info, 1, 2, Seq::empty()) matches Some(p) && {
            &&& p.len() == 2
            &&& forall|i: int| 0 <= i < 2 ==> 1 <= (#[trigger] p[i]).spec_amount() <= 3
            &&& c.apply_all(p).edges[0] == Face::U
            &&& c.apply_all(p).edges[1] == Face::F
        },
{
    lemma_flipped_edge_solved(info);
    let p = search(info, 1, 2, Seq::empty())->0;
    assert(p.skip(0) =~= p);
    assert(search_moves(p)) by {
        assert forall|i: int| 0 <= i < p.len() implies search_move(#[trigger] p[i]) by {}
    }
    lemma_run_follows_cube(info, c, p);
    let d = c.apply_all(p);
    assert(d.edge_pos(Face::U, Face::F) == 0);
    d.lemma_edge_pos_from(Face::U, Face::F, 0);
}

} // verus!
