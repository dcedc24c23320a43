//! The step after the first block: the corners of the last layer, searched
//! with the first block kept and the second block solved.

use vstd::prelude::*;
use crate::cube::{Face, Move};
use crate::cube::sticker_cube::{Cube, Stickers};
use crate::first_block::{lemma_bound_admissible, FBInfo};
use crate::solver::iddfs::{turned_state, IDDFSInfo};
use crate::solver::index::{
    coordinate, corner_decoded, corner_positions, edge_positions, generic_corner_index,
    generic_corner_index_decode, generic_edge_index, lemma_num_elems_values, Index,
};
use crate::solver::pruning::{gen_prune_table, is_prune_table, turned};
use crate::solver::pruning_laws::{
    invertible, lemma_prune_lower_bound, lemma_walk_first, table_move, table_moves, walk,
};
use crate::solver::search_laws::{
    admissible, generator_of, moved, run, search_move, search_moves,
};
use crate::solver::table_laws::{lemma_corner_table_steps, lemma_steps_invertible, steps_by};
use crate::solver::round_trip::{
    corners_tracked, distinct_corners, edges_tracked, lemma_corner_decoded_wf,
    lemma_corner_round_trip,
};
use crate::solver::tracking::{
    lemma_quarter_keeps_corners, lemma_quarters_keep_tracked, lemma_solved_tracks_corners,
    lemma_solved_tracks_edges,
};
use crate::solver::transition::{
    closed, gen_transition_table, generator, generators, is_transition_table,
};

verus! {

/// The four corners of the U face.
pub struct CMLL;

impl CMLL {
    /// The number of coordinates: 24 * 21 * 18 * 15 placements of four
    /// corners.
    pub proof fn lemma_num_elems()
        ensures
            CMLL::NUM_ELEMS == 136080,
            CMLL::NUM_ELEMS == crate::solver::index::num_elems(3, 4),
    {
        lemma_num_elems_values(3);
    }

    /// The corners of the U face, in the order of their digits.
    pub open spec fn pieces() -> Seq<(Face, Face, Face)> {
        seq![
            (Face::U, Face::R, Face::F),
            (Face::U, Face::F, Face::L),
            (Face::U, Face::L, Face::B),
            (Face::U, Face::B, Face::R),
        ]
    }
}

impl Index for CMLL {
    const NUM_ELEMS: u32 = 24 * 21 * 18 * 15;

    open spec fn wf(&self) -> bool {
        true
    }

    open spec fn tracks(&self, c: Stickers) -> bool {
        corners_tracked(c, CMLL::pieces())
    }

    open spec fn coord(&self, c: Stickers) -> int {
        coordinate(3, corner_positions(c, CMLL::pieces()))
    }

    open spec fn decoded(&self, i: int) -> Stickers {
        corner_decoded(Stickers::invalid(), i, CMLL::pieces().reverse())
    }

    fn from_cube(&self, c: &Cube) -> (i: u32) {
        let faces = [
            (Face::U, Face::R, Face::F),
            (Face::U, Face::F, Face::L),
            (Face::U, Face::L, Face::B),
            (Face::U, Face::B, Face::R),
        ];
        proof {
            assert(faces@ =~= CMLL::pieces());
            lemma_num_elems_values(3);
        }
        generic_corner_index(c, faces.as_slice())
    }

    fn from_index(&self, i: u32) -> (c: Cube) {
        let mut c = Cube::invalid();
        let faces = [
            (Face::U, Face::B, Face::R),
            (Face::U, Face::L, Face::B),
            (Face::U, Face::F, Face::L),
            (Face::U, Face::R, Face::F),
        ];
        proof {
            assert(faces@ =~= CMLL::pieces().reverse());
        }
        generic_corner_index_decode(&mut c, i, faces.as_slice());
        c
    }

    proof fn lemma_round_trip(&self, i: int) {
        lemma_num_elems_values(3);
        assert(distinct_corners(CMLL::pieces()));
        lemma_corner_round_trip(i, CMLL::pieces());
        lemma_corner_decoded_wf(i, CMLL::pieces().reverse());
    }

    proof fn lemma_quarter_tracks(&self, c: Stickers, m: Move) {
        lemma_quarter_keeps_corners(c, m, CMLL::pieces());
    }
}

/// The edges of the second block (DR, FR, BR).
pub open spec fn sb_edges() -> Seq<(Face, Face)> {
    seq![(Face::D, Face::R), (Face::F, Face::R), (Face::B, Face::R)]
}

/// The corners of the second block (DFR, DRB).
pub open spec fn sb_corners() -> Seq<(Face, Face, Face)> {
    seq![(Face::D, Face::F, Face::R), (Face::D, Face::R, Face::B)]
}

/// Whether the cube shows the second block where the solved cube has it.
pub open spec fn sb_is_solved(c: Stickers) -> bool {
    &&& coordinate(2, edge_positions(c, sb_edges())) == coordinate(
        2,
        edge_positions(Stickers::solved(), sb_edges()),
    )
    &&& coordinate(3, corner_positions(c, sb_corners())) == coordinate(
        3,
        corner_positions(Stickers::solved(), sb_corners()),
    )
}

/// The solved cube shows the corners of the U face and the pieces of the
/// second block once each.
pub proof fn lemma_solved_tracks_cmll()
    ensures
        CMLL.tracks(Stickers::solved()),
        edges_tracked(Stickers::solved(), sb_edges()),
        corners_tracked(Stickers::solved(), sb_corners()),
{
    lemma_solved_tracks_corners(CMLL::pieces(), seq![0int, 3, 6, 9]);
    lemma_solved_tracks_edges(sb_edges(), seq![14int, 16, 22]);
    lemma_solved_tracks_corners(sb_corners(), seq![12int, 21]);
}

/// The coordinate of the edges of the second block.
pub fn sb_edge_index(c: &Cube) -> (i: u32)
    requires
        edges_tracked(c@, sb_edges()),
    ensures
        i == coordinate(2, edge_positions(c@, sb_edges())),
{
    let faces = [(Face::D, Face::R), (Face::F, Face::R), (Face::B, Face::R)];
    proof {
        assert(faces@ =~= sb_edges());
    }
    generic_edge_index(c, faces.as_slice())
}

/// The coordinate of the corners of the second block.
pub fn sb_corner_index(c: &Cube) -> (i: u32)
    requires
        corners_tracked(c@, sb_corners()),
    ensures
        i == coordinate(3, corner_positions(c@, sb_corners())),
{
    let faces = [(Face::D, Face::F, Face::R), (Face::D, Face::R, Face::B)];
    proof {
        assert(faces@ =~= sb_corners());
    }
    generic_corner_index(c, faces.as_slice())
}

/// Whether the second block is where the solved cube has it.
pub fn sb_solved(c: &Cube) -> (b: bool)
    requires
        edges_tracked(c@, sb_edges()),
        corners_tracked(c@, sb_corners()),
    ensures
        b == sb_is_solved(c@),
{
    proof {
        lemma_solved_tracks_cmll();
    }
    sb_edge_index(c) == sb_edge_index(&Cube::solved()) && sb_corner_index(c) == sb_corner_index(
        &Cube::solved(),
    )
}

/// IDDFS Info for the corners of the last layer.
pub struct CMLLInfo(FBInfo, Box<[[u32; 7]]>, Box<[u8]>);

impl CMLLInfo {
    /// The tables of the first block.
    pub closed spec fn first_block(&self) -> FBInfo {
        self.0
    }

    /// The transition table of the corners of the U face.
    pub closed spec fn table(&self) -> Seq<[u32; 7]> {
        self.1@
    }

    /// The pruning table of the corners of the U face.
    pub closed spec fn distances(&self) -> Seq<u8> {
        self.2@
    }

    /// Builds the tables of the first block, and of the corners of the U
    /// face with their distances from the solved cube, clipped to 7 moves.
    pub fn new() -> (info: CMLLInfo)
        ensures
            info.wf(),
    {
        proof {
            lemma_solved_tracks_cmll();
        }
        let c = Cube::solved();
        let table = gen_transition_table(&CMLL);
        let ptable = gen_prune_table(&table, 7, CMLL.from_cube(&c));
        CMLLInfo(FBInfo::new(), table, ptable)
    }

    /// The state of the search on the cube `c`: the cube, the coordinate of
    /// the corners of the U face, and the state of the first block.
    pub fn get_state(&self, c: &Cube) -> (state: (Cube, u32, (u32, u32)))
        requires
            CMLL.tracks(c@),
            FBInfo::indexes_of(c@).0.tracks(c@),
            FBInfo::indexes_of(c@).1.tracks(c@),
            edges_tracked(c@, sb_edges()),
            corners_tracked(c@, sb_corners()),
        ensures
            state.0 == *c,
            state.1 == CMLL.coord(c@),
            state.2.0 == FBInfo::indexes_of(c@).0.coord(c@),
            state.2.1 == FBInfo::indexes_of(c@).1.coord(c@),
            self.valid(state),
    {
        (*c, CMLL.from_cube(c), self.0.get_state(c))
    }
}

impl IDDFSInfo for CMLLInfo {
    type State = (Cube, u32, (u32, u32));

    open spec fn wf(&self) -> bool {
        &&& self.first_block().wf()
        &&& is_transition_table(&CMLL, self.table())
        &&& closed(self.table())
        &&& is_prune_table(self.table(), CMLL.coord(Stickers::solved()), 7, self.distances())
    }

    open spec fn valid(&self, state: Self::State) -> bool {
        &&& state.1 < CMLL::NUM_ELEMS
        &&& self.first_block().valid(state.2)
        &&& edges_tracked(state.0@, sb_edges())
        &&& corners_tracked(state.0@, sb_corners())
    }

    open spec fn solved(&self, state: Self::State) -> bool {
        &&& self.first_block().solved(state.2)
        &&& state.1 == CMLL.coord(Stickers::solved())
        &&& sb_is_solved(state.0@)
    }

    open spec fn next(&self, state: Self::State, m: int) -> Self::State {
        (
            state.0@.apply(generator(m)).cube(),
            self.table()[state.1 as int][m],
            self.first_block().next(state.2, m),
        )
    }

    open spec fn pruned(&self, state: Self::State, depth_remaining: nat) -> bool {
        self.first_block().pruned(state.2, depth_remaining) || depth_remaining
            < self.distances()[state.1 as int]
    }

    fn is_solved(&self, state: &Self::State) -> (b: bool) {
        proof {
            lemma_solved_tracks_cmll();
        }
        self.0.is_solved(&state.2) && state.1 == CMLL.from_cube(&Cube::solved()) && sb_solved(
            &state.0,
        )
    }

    fn transition(&self, state: &Self::State, m: usize) -> (n: Self::State) {
        let mut c = state.0;
        // note: this matches the order of the search
        let moves = generators();
        c.do_move(moves[m]);
        proof {
            crate::cube::laws::lemma_quarters_wf(state.0@, generator(m as int), 1);
            c@.lemma_cube();
            c.lemma_same(c@.cube());
            self.lemma_next_valid(*state, m as int);
        }
        (c, self.1[state.1 as usize][m], self.0.transition(&state.2, m))
    }

    fn prune(&self, state: &Self::State, depth_remaining: usize) -> (b: bool) {
        self.0.prune(&state.2, depth_remaining) || depth_remaining < self.2[state.1
            as usize] as usize
    }

    proof fn lemma_next_valid(&self, state: Self::State, m: int) {
        let c = state.0@;
        let d = c.apply(generator(m));
        lemma_quarters_keep_tracked(c, generator(m), 1, sb_edges(), sb_corners());
        d.lemma_cube();
        self.first_block().lemma_next_valid(state.2, m);
    }
}

/// The table of the corners of the U face turns coordinates as the cube
/// turns the corners: four quarter turns lead back in it.
pub proof fn lemma_table_invertible(info: &CMLLInfo)
    requires
        info.wf(),
    ensures
        steps_by(info.table(), 3, 4),
        invertible(info.table()),
{
    lemma_num_elems_values(3);
    assert(distinct_corners(CMLL::pieces()));
    lemma_corner_table_steps(info.table(), CMLL::pieces());
    lemma_steps_invertible(info.table(), 3, 4);
}

/// Turns of a generator turn the corners of the U face by their table, and
/// the first block as its own search does.
pub proof fn lemma_turned_parts(info: &CMLLInfo, state: (Cube, u32, (u32, u32)), g: int, a: nat)
    requires
        info.wf(),
        info.valid(state),
        0 <= g < 7,
    ensures
        info.valid(turned_state(info, state, g, a)),
        turned_state(info, state, g, a).1 == turned(info.table(), state.1 as int, g, a),
        turned_state(info, state, g, a).2 == turned_state(&info.first_block(), state.2, g, a),
    decreases a,
{
    if a > 0 {
        lemma_turned_parts(info, state, g, (a - 1) as nat);
        info.lemma_next_valid(turned_state(info, state, g, (a - 1) as nat), g);
    }
}

/// The moves of a search lead the corners of the U face along their table,
/// and the first block as its own search does.
pub proof fn lemma_run_parts(info: &CMLLInfo, state: (Cube, u32, (u32, u32)), ms: Seq<Move>)
    requires
        info.wf(),
        info.valid(state),
        search_moves(ms),
    ensures
        run(info, state, ms).1 == walk(info.table(), state.1 as int, table_moves(ms)),
        run(info, state, ms).2 == run(&info.first_block(), state.2, ms),
    decreases ms.len(),
{
    if ms.len() > 0 {
        let m = ms[0];
        assert(search_move(m));
        lemma_turned_parts(info, state, generator_of(m), m.spec_amount() as nat);
        assert forall|i: int| 0 <= i < ms.skip(1).len() implies search_move(
            #[trigger] ms.skip(1)[i],
        ) by {
            assert(ms.skip(1)[i] == ms[i + 1]);
        }
        lemma_run_parts(info, moved(info, state, m), ms.skip(1));
        assert(table_moves(ms).skip(1) =~= table_moves(ms.skip(1)));
        lemma_walk_first(info.table(), state.1 as int, table_moves(ms));
    }
}

/// Composite prune admissibility for the corners of the last layer: the
/// search gives no state up that as many moves as are left solve.
pub proof fn lemma_prune_admissible(
    info: &CMLLInfo,
    state: (Cube, u32, (u32, u32)),
    ms: Seq<Move>,
)
    requires
        info.wf(),
        info.valid(state),
        search_moves(ms),
        info.solved(run(info, state, ms)),
    ensures
        !info.pruned(state, ms.len()),
{
    lemma_solved_tracks_cmll();
    lemma_table_invertible(info);
    lemma_run_parts(info, state, ms);
    lemma_bound_admissible(&info.first_block(), state.2, ms);
    let tm = table_moves(ms);
    assert forall|i: int| 0 <= i < tm.len() implies table_move(#[trigger] tm[i]) by {
        assert(search_move(ms[i]));
    }
    let goal = CMLL.coord(Stickers::solved());
    assert(0 <= goal < 136080) by {
        crate::solver::index::lemma_combine_bound(
            3,
            corner_positions(Stickers::solved(), CMLL::pieces()),
            4,
        );
        lemma_num_elems_values(3);
    }
    assert(info.table().len() == 136080);
    lemma_prune_lower_bound(info.table(), goal, 7, info.distances(), state.1 as int, tm);
}

/// The cut-off of the search for the corners of the last layer is
/// admissible: it gives no state up that as many moves as are left solve.
pub proof fn lemma_admissible(info: &CMLLInfo)
    requires
        info.wf(),
    ensures
        admissible(info),
{
    assert forall|state: (Cube, u32, (u32, u32)), ms: Seq<Move>|
        info.valid(state) && search_moves(ms) && info.solved(
            #[trigger] run(info, state, ms),
        ) implies !info.pruned(state, ms.len()) by {
        lemma_prune_admissible(info, state, ms);
    }
}

} // verus!
