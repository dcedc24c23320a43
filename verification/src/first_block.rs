//! The first block of the Roux method: the edges DL, FL, BL and the corners
//! DLF, DBL, as two coordinates, and the search for them.

use vstd::prelude::*;
use crate::cube::{Face, Move};
use crate::cube::sticker_cube::{CentrePos, Cube, Stickers};
use crate::solver::iddfs::{deepen, turned_state, IDDFSInfo};
use crate::solver::index::{
    coordinate, corner_decoded, corner_positions, edge_decoded, edge_positions,
    generic_corner_index, generic_corner_index_decode, generic_edge_index,
    generic_edge_index_decode, lemma_num_elems_values, Index,
};
use crate::proper::{
    is_corner, lemma_is_corner, lemma_proper_centres, lemma_proper_tracks_corners,
    lemma_proper_tracks_edges, proper,
};
use crate::solver::pruning::{gen_prune_table, is_prune_table, turned};
use crate::solver::pruning_laws::{
    invertible, lemma_prune_lower_bound, lemma_walk_first, table_moves, walk,
};
use crate::solver::search_laws::{
    admissible, cube_like, generator_of, lemma_filter_admissible, moved, opposite_generators, run,
    search_move, search_moves,
};
use crate::solver::table_laws::{
    lemma_corner_table_steps, lemma_edge_table_steps, lemma_steps_commute,
    lemma_steps_invertible, steps_by,
};
use crate::solver::round_trip::{
    corners_tracked, distinct_corners, distinct_edges, edges_tracked, lemma_corner_round_trip,
    lemma_edge_round_trip,
};
use crate::solver::tracking::{
    lemma_quarter_keeps_corners, lemma_quarter_keeps_edges, lemma_solved_tracks_corners,
    lemma_solved_tracks_edges,
};
use crate::solver::transition::{closed, gen_transition_table, is_transition_table};

verus! {

/// Edges of the first block (DL, FL, BL).
pub struct FBEdges(Face, Face, Face);

/// Corners of the first block (DLF, DBL).
pub struct FBCorners(Face, Face, Face);

impl FBEdges {
    /// The colours of the faces D, L and F, by which the block is known.
    pub closed spec fn faces(self) -> (Face, Face, Face) {
        (self.0, self.1, self.2)
    }

    /// The edges of the block that is known by the colours `d`, `l`, `f`.
    pub closed spec fn with_faces(d: Face, l: Face, f: Face) -> FBEdges {
        FBEdges(d, l, f)
    }

    /// The edges of the block on a cube that is held upright.
    pub open spec fn standard() -> FBEdges {
        Self::with_faces(Face::D, Face::L, Face::F)
    }

    /// `with_faces` gives the index that is known by those colours.
    pub proof fn lemma_with_faces(d: Face, l: Face, f: Face)
        ensures
            Self::with_faces(d, l, f).faces() == (d, l, f),
    {
    }

    /// The number of coordinates: 24 * 22 * 20 placements of three edges.
    pub proof fn lemma_num_elems()
        ensures
            FBEdges::NUM_ELEMS == 10560,
            FBEdges::NUM_ELEMS == crate::solver::index::num_elems(2, 3),
    {
        lemma_num_elems_values(2);
    }

    /// The three edges of the block, in the order of their digits.
    pub open spec fn pieces(self) -> Seq<(Face, Face)> {
        let (d, l, f) = self.faces();
        seq![(d, l), (f, l), (f.spec_opposite(), l)]
    }
}

impl FBCorners {
    /// The colours of the faces D, L and F, by which the block is known.
    pub closed spec fn faces(self) -> (Face, Face, Face) {
        (self.0, self.1, self.2)
    }

    /// The corners of the block that is known by the colours `d`, `l`, `f`.
    pub closed spec fn with_faces(d: Face, l: Face, f: Face) -> FBCorners {
        FBCorners(d, l, f)
    }

    /// The corners of the block on a cube that is held upright.
    pub open spec fn standard() -> FBCorners {
        Self::with_faces(Face::D, Face::L, Face::F)
    }

    /// `with_faces` gives the index that is known by those colours.
    pub proof fn lemma_with_faces(d: Face, l: Face, f: Face)
        ensures
            Self::with_faces(d, l, f).faces() == (d, l, f),
    {
    }

    /// The number of coordinates: 24 * 21 placements of two corners.
    pub proof fn lemma_num_elems()
        ensures
            FBCorners::NUM_ELEMS == 504,
            FBCorners::NUM_ELEMS == crate::solver::index::num_elems(3, 2),
    {
        lemma_num_elems_values(3);
    }

    /// The two corners of the block, in the order of their digits.
    pub open spec fn pieces(self) -> Seq<(Face, Face, Face)> {
        let (d, l, f) = self.faces();
        seq![(d, l, f), (d, f.spec_opposite(), l)]
    }
}

impl Default for FBEdges {
    fn default() -> (r: Self)
        ensures
            r == FBEdges::standard(),
    {
        proof {
            FBEdges::lemma_with_faces(Face::D, Face::L, Face::F);
        }
        FBEdges(Face::D, Face::L, Face::F)
    }
}

impl Default for FBCorners {
    fn default() -> (r: Self)
        ensures
            r == FBCorners::standard(),
    {
        proof {
            FBCorners::lemma_with_faces(Face::D, Face::L, Face::F);
        }
        FBCorners(Face::D, Face::L, Face::F)
    }
}

impl Index for FBEdges {
    const NUM_ELEMS: u32 = 24 * 22 * 20;

    open spec fn wf(&self) -> bool {
        distinct_edges(self.pieces())
    }

    open spec fn tracks(&self, c: Stickers) -> bool {
        edges_tracked(c, self.pieces())
    }

    open spec fn coord(&self, c: Stickers) -> int {
        coordinate(2, edge_positions(c, self.pieces()))
    }

    open spec fn decoded(&self, i: int) -> Stickers {
        edge_decoded(Stickers::invalid(), i, self.pieces().reverse())
    }

    fn from_cube(&self, c: &Cube) -> (i: u32) {
        let faces = [(self.0, self.1), (self.2, self.1), (self.2.opposite(), self.1)];
        proof {
            assert(faces@ =~= self.pieces());
            lemma_num_elems_values(2);
        }
        generic_edge_index(c, faces.as_slice())
    }

    fn from_index(&self, i: u32) -> (c: Cube) {
        let mut c = Cube::invalid();
        let faces = [(self.2.opposite(), self.1), (self.2, self.1), (self.0, self.1)];
        proof {
            assert(faces@ =~= self.pieces().reverse());
        }
        generic_edge_index_decode(&mut c, i, faces.as_slice());
        c
    }

    proof fn lemma_round_trip(&self, i: int) {
        lemma_num_elems_values(2);
        lemma_edge_round_trip(i, self.pieces());
        crate::solver::round_trip::lemma_edge_decoded_wf(i, self.pieces().reverse());
    }

    proof fn lemma_quarter_tracks(&self, c: Stickers, m: Move) {
        lemma_quarter_keeps_edges(c, m, self.pieces());
    }
}

impl Index for FBCorners {
    const NUM_ELEMS: u32 = 24 * 21;

    open spec fn wf(&self) -> bool {
        distinct_corners(self.pieces())
    }

    open spec fn tracks(&self, c: Stickers) -> bool {
        corners_tracked(c, self.pieces())
    }

    open spec fn coord(&self, c: Stickers) -> int {
        coordinate(3, corner_positions(c, self.pieces()))
    }

    open spec fn decoded(&self, i: int) -> Stickers {
        corner_decoded(Stickers::invalid(), i, self.pieces().reverse())
    }

    fn from_cube(&self, c: &Cube) -> (i: u32) {
        let faces = [(self.0, self.1, self.2), (self.0, self.2.opposite(), self.1)];
        proof {
            assert(faces@ =~= self.pieces());
            lemma_num_elems_values(3);
        }
        generic_corner_index(c, faces.as_slice())
    }

    fn from_index(&self, i: u32) -> (c: Cube) {
        let mut c = Cube::invalid();
        let faces = [(self.0, self.2.opposite(), self.1), (self.0, self.1, self.2)];
        proof {
            assert(faces@ =~= self.pieces().reverse());
        }
        generic_corner_index_decode(&mut c, i, faces.as_slice());
        c
    }

    proof fn lemma_round_trip(&self, i: int) {
        lemma_num_elems_values(3);
        lemma_corner_round_trip(i, self.pieces());
        crate::solver::round_trip::lemma_corner_decoded_wf(i, self.pieces().reverse());
    }

    proof fn lemma_quarter_tracks(&self, c: Stickers, m: Move) {
        lemma_quarter_keeps_corners(c, m, self.pieces());
    }
}

/// The solved cube shows the edges and the corners of the first block, as
/// an upright cube knows them, once each.
pub proof fn lemma_solved_tracks_first_block()
    ensures
        FBEdges::standard().wf(),
        FBCorners::standard().wf(),
        FBEdges::standard().tracks(Stickers::solved()),
        FBCorners::standard().tracks(Stickers::solved()),
{
    FBEdges::lemma_with_faces(Face::D, Face::L, Face::F);
    FBCorners::lemma_with_faces(Face::D, Face::L, Face::F);
    lemma_solved_tracks_edges(FBEdges::standard().pieces(), seq![10int, 18, 20]);
    lemma_solved_tracks_corners(FBCorners::standard().pieces(), seq![15int, 18]);
}

/// IDDFS Info for the first block.
pub struct FBInfo(Box<[[u32; 7]]>, Box<[[u32; 7]]>, Box<[u8]>, Box<[u8]>);

impl FBInfo {
    /// The transition table of the edges.
    pub closed spec fn edge_table(&self) -> Seq<[u32; 7]> {
        self.0@
    }

    /// The transition table of the corners.
    pub closed spec fn corner_table(&self) -> Seq<[u32; 7]> {
        self.1@
    }

    /// The pruning table of the edges.
    pub closed spec fn edge_distances(&self) -> Seq<u8> {
        self.2@
    }

    /// The pruning table of the corners.
    pub closed spec fn corner_distances(&self) -> Seq<u8> {
        self.3@
    }

    /// The state of the solved first block.
    pub open spec fn goal() -> (u32, u32) {
        (
            FBEdges::standard().coord(Stickers::solved()) as u32,
            FBCorners::standard().coord(Stickers::solved()) as u32,
        )
    }

    /// The larger of the two distances of a state: a lower bound on the
    /// number of moves that solve it.
    pub open spec fn bound(&self, state: (u32, u32)) -> int {
        let e = self.edge_distances()[state.0 as int];
        let c = self.corner_distances()[state.1 as int];
        if e >= c {
            e as int
        } else {
            c as int
        }
    }

    /// Builds the tables of the first block: the transition tables of its
    /// edges and corners, and their distances from the solved cube, clipped
    /// to 7 and 4 moves.
    pub fn new() -> (info: FBInfo)
        ensures
            info.wf(),
    {
        proof {
            lemma_solved_tracks_first_block();
        }
        let c = Cube::solved();
        let fbe = FBEdges::default();
        let e_table = gen_transition_table(&fbe);
        let e_ptable = gen_prune_table(&e_table, 7, fbe.from_cube(&c));
        let fbc = FBCorners::default();
        let c_table = gen_transition_table(&fbc);
        let c_ptable = gen_prune_table(&c_table, 4, fbc.from_cube(&c));
        FBInfo(e_table, c_table, e_ptable, c_ptable)
    }

    /// The indexes of the first block as a cube with the stickers `c` is
    /// held: by the colours of its D, L and F centres.
    pub open spec fn indexes_of(c: Stickers) -> (FBEdges, FBCorners) {
        let d = c.centres[CentrePos::D.spec_index()];
        let l = c.centres[CentrePos::L.spec_index()];
        let f = c.centres[CentrePos::F.spec_index()];
        (FBEdges::with_faces(d, l, f), FBCorners::with_faces(d, l, f))
    }

    /// The indexes of the first block as the cube `c` is held: by the
    /// colours of its D, L and F centres.
    pub fn get_indexes(&self, c: &Cube) -> (indexes: (FBEdges, FBCorners))
        ensures
            indexes == Self::indexes_of(c@),
    {
        let fbe = FBEdges(
            c.centres[CentrePos::D.index()],
            c.centres[CentrePos::L.index()],
            c.centres[CentrePos::F.index()],
        );
        let fbc = FBCorners(
            c.centres[CentrePos::D.index()],
            c.centres[CentrePos::L.index()],
            c.centres[CentrePos::F.index()],
        );
        (fbe, fbc)
    }

    /// The state of the first block on the cube `c`, as the cube is held.
    /// The cube must show the pieces of that block once each; a proper cube
    /// does.
    pub fn get_state(&self, c: &Cube) -> (state: (u32, u32))
        requires
            Self::indexes_of(c@).0.tracks(c@),
            Self::indexes_of(c@).1.tracks(c@),
        ensures
            state.0 == Self::indexes_of(c@).0.coord(c@),
            state.1 == Self::indexes_of(c@).1.coord(c@),
            state.0 < FBEdges::NUM_ELEMS,
            state.1 < FBCorners::NUM_ELEMS,
    {
        let (fbe, fbc) = self.get_indexes(c);
        (fbe.from_cube(c), fbc.from_cube(c))
    }
}

/// The pieces of the first block, as a proper cube is held, are edges and
/// corners that can be told apart, and every proper cube shows them once
/// each.
pub proof fn lemma_first_block_tracked(held: Stickers, c: Stickers)
    requires
        proper(held),
        proper(c),
    ensures
        FBInfo::indexes_of(held).0.wf(),
        FBInfo::indexes_of(held).1.wf(),
        FBInfo::indexes_of(held).0.tracks(c),
        FBInfo::indexes_of(held).1.tracks(c),
{
    lemma_proper_centres(held);
    let z = held.centres;
    let u = z[CentrePos::U.spec_index()];
    let r = z[CentrePos::R.spec_index()];
    let f = z[CentrePos::F.spec_index()];
    let d = z[CentrePos::D.spec_index()];
    let l = z[CentrePos::L.spec_index()];
    let b = f.spec_opposite();
    FBEdges::lemma_with_faces(d, l, f);
    FBCorners::lemma_with_faces(d, l, f);
    lemma_is_corner(u, r, f);
    assert(is_corner(d, l, f));
    lemma_is_corner(d, l, f);
    lemma_is_corner(l, f, d);
    lemma_is_corner(f, d, l);
    lemma_is_corner(b, l, d);
    lemma_is_corner(l, d, b);
    let e = FBInfo::indexes_of(held).0.pieces();
    let k = FBInfo::indexes_of(held).1.pieces();
    assert(e[0] == (d, l) && e[1] == (f, l) && e[2] == (b, l));
    assert(k[0] == (d, l, f) && k[1] == (d, b, l));
    assert(is_corner(d, b, l));
    lemma_is_corner(d, b, l);
    lemma_proper_tracks_edges(c, e);
    lemma_proper_tracks_corners(c, k);
}

impl IDDFSInfo for FBInfo {
    type State = (u32, u32);

    open spec fn wf(&self) -> bool {
        &&& is_transition_table(&FBEdges::standard(), self.edge_table())
        &&& closed(self.edge_table())
        &&& is_transition_table(&FBCorners::standard(), self.corner_table())
        &&& closed(self.corner_table())
        &&& is_prune_table(self.edge_table(), Self::goal().0 as int, 7, self.edge_distances())
        &&& is_prune_table(
            self.corner_table(),
            Self::goal().1 as int,
            4,
            self.corner_distances(),
        )
    }

    open spec fn valid(&self, state: Self::State) -> bool {
        state.0 < FBEdges::NUM_ELEMS && state.1 < FBCorners::NUM_ELEMS
    }

    open spec fn solved(&self, state: Self::State) -> bool {
        state == Self::goal()
    }

    open spec fn next(&self, state: Self::State, m: int) -> Self::State {
        (self.edge_table()[state.0 as int][m], self.corner_table()[state.1 as int][m])
    }

    open spec fn pruned(&self, state: Self::State, depth_remaining: nat) -> bool {
        depth_remaining < self.bound(state)
    }

    fn is_solved(&self, state: &Self::State) -> (b: bool) {
        proof {
            lemma_solved_tracks_first_block();
        }
        let c = Cube::solved();
        let fbe = FBEdges::default();
        let fbc = FBCorners::default();
        state.0 == fbe.from_cube(&c) && state.1 == fbc.from_cube(&c)
    }

    fn transition(&self, state: &Self::State, m: usize) -> (n: Self::State) {
        (self.0[state.0 as usize][m], self.1[state.1 as usize][m])
    }

    fn prune(&self, state: &Self::State, depth_remaining: usize) -> (b: bool) {
        let e = self.2[state.0 as usize];
        let c = self.3[state.1 as usize];
        let bound = if e >= c {
            e
        } else {
            c
        };
        depth_remaining < bound as usize
    }

    proof fn lemma_next_valid(&self, state: Self::State, m: int) {
    }
}

/// Turns of a generator turn the edges and the corners of a state each by
/// its own table.
pub proof fn lemma_turned_parts(info: &FBInfo, state: (u32, u32), g: int, a: nat)
    requires
        info.wf(),
        info.valid(state),
        0 <= g < 7,
    ensures
        info.valid(turned_state(info, state, g, a)),
        turned_state(info, state, g, a).0 == turned(info.edge_table(), state.0 as int, g, a),
        turned_state(info, state, g, a).1 == turned(info.corner_table(), state.1 as int, g, a),
    decreases a,
{
    if a > 0 {
        lemma_turned_parts(info, state, g, (a - 1) as nat);
    }
}

/// The moves of a search lead the edges and the corners of a state each
/// along its own table.
pub proof fn lemma_run_parts(info: &FBInfo, state: (u32, u32), ms: Seq<Move>)
    requires
        info.wf(),
        info.valid(state),
        search_moves(ms),
    ensures
        run(info, state, ms).0 == walk(info.edge_table(), state.0 as int, table_moves(ms)),
        run(info, state, ms).1 == walk(info.corner_table(), state.1 as int, table_moves(ms)),
    decreases ms.len(),
{
    if ms.len() > 0 {
        let m = ms[0];
        assert(search_move(m));
        lemma_turned_parts(info, state, generator_of(m), m.spec_amount() as nat);
        assert forall|i: int| 0 <= i < ms.skip(1).len() implies search_move(
            #[trigger] ms.skip(1)[i],
        ) by {
            assert(ms.skip(1)[i] == ms[i + 1]);
        }
        lemma_run_parts(info, moved(info, state, m), ms.skip(1));
        assert(table_moves(ms).skip(1) =~= table_moves(ms.skip(1)));
        lemma_walk_first(info.edge_table(), state.0 as int, table_moves(ms));
        lemma_walk_first(info.corner_table(), state.1 as int, table_moves(ms));
    }
}

/// The tables of the first block turn coordinates as the cube turns the
/// pieces: four quarter turns lead back in them.
pub proof fn lemma_tables_invertible(info: &FBInfo)
    requires
        info.wf(),
    ensures
        steps_by(info.edge_table(), 2, 3),
        steps_by(info.corner_table(), 3, 2),
        invertible(info.edge_table()),
        invertible(info.corner_table()),
{
    lemma_solved_tracks_first_block();
    lemma_num_elems_values(2);
    lemma_num_elems_values(3);
    lemma_edge_table_steps(info.edge_table(), FBEdges::standard().pieces());
    lemma_corner_table_steps(info.corner_table(), FBCorners::standard().pieces());
    lemma_steps_invertible(info.edge_table(), 2, 3);
    lemma_steps_invertible(info.corner_table(), 3, 2);
}

/// The states of the first block turn as a cube does: four quarter turns
/// of a generator lead back, and quarter turns of opposite faces can change
/// places.
pub proof fn lemma_cube_like(info: &FBInfo)
    requires
        info.wf(),
    ensures
        cube_like(info),
{
    lemma_tables_invertible(info);
    assert forall|state: (u32, u32), g: int| info.valid(state) && 0 <= g < 7 implies #[trigger] turned_state(
        info,
        state,
        g,
        4,
    ) == state by {
        lemma_turned_parts(info, state, g, 4);
    }
    assert forall|state: (u32, u32), g: int, h: int|
        info.valid(state) && opposite_generators(g, h) implies #[trigger] info.next(
        info.next(state, g),
        h,
    ) == info.next(info.next(state, h), g) by {
        lemma_steps_commute(info.edge_table(), 2, 3, state.0 as int, g, h);
        lemma_steps_commute(info.corner_table(), 3, 2, state.1 as int, g, h);
    }
}

/// Composite prune admissibility: the larger of the two distances of a
/// state is at most the number of moves of any solution of the state.
pub proof fn lemma_bound_admissible(info: &FBInfo, state: (u32, u32), ms: Seq<Move>)
    requires
        info.wf(),
        info.valid(state),
        search_moves(ms),
        info.solved(run(info, state, ms)),
    ensures
        info.bound(state) <= ms.len(),
{
    lemma_solved_tracks_first_block();
    lemma_tables_invertible(info);
    lemma_run_parts(info, state, ms);
    let tm = table_moves(ms);
    assert forall|i: int| 0 <= i < tm.len() implies crate::solver::pruning_laws::table_move(
        #[trigger] tm[i],
    ) by {
        assert(search_move(ms[i]));
    }
    let goal = FBInfo::goal();
    assert(0 <= FBEdges::standard().coord(Stickers::solved()) < 10560) by {
        crate::solver::index::lemma_combine_bound(
            2,
            edge_positions(Stickers::solved(), FBEdges::standard().pieces()),
            3,
        );
        lemma_num_elems_values(2);
    }
    assert(0 <= FBCorners::standard().coord(Stickers::solved()) < 504) by {
        crate::solver::index::lemma_combine_bound(
            3,
            corner_positions(Stickers::solved(), FBCorners::standard().pieces()),
            2,
        );
        lemma_num_elems_values(3);
    }
    let e0 = FBEdges::standard().coord(Stickers::solved());
    let c0 = FBCorners::standard().coord(Stickers::solved());
    assert(0 <= e0 < 10560 && 0 <= c0 < 504);
    assert(goal.0 as int == e0 && goal.1 as int == c0);
    assert(info.edge_table().len() == 10560 && info.corner_table().len() == 504);
    lemma_prune_lower_bound(
        info.edge_table(),
        goal.0 as int,
        7,
        info.edge_distances(),
        state.0 as int,
        tm,
    );
    lemma_prune_lower_bound(
        info.corner_table(),
        goal.1 as int,
        4,
        info.corner_distances(),
        state.1 as int,
        tm,
    );
}

/// The cut-off of the first block is admissible: it gives no state up
/// that as many moves as are left solve.
pub proof fn lemma_admissible(info: &FBInfo)
    requires
        info.wf(),
    ensures
        admissible(info),
{
    assert forall|state: (u32, u32), ms: Seq<Move>|
        info.valid(state) && search_moves(ms) && info.solved(
            #[trigger] run(info, state, ms),
        ) implies !info.pruned(state, ms.len()) by {
        assert(info.edge_table().len() == 10560 && info.corner_table().len() == 504);
        lemma_bound_admissible(info, state, ms);
    }
}

/// The search for the first block finds a solution of no more moves than
/// any moves that solve it.
pub proof fn lemma_search_finds(info: &FBInfo, state: (u32, u32), ms: Seq<Move>)
    requires
        info.wf(),
        info.valid(state),
        search_moves(ms),
        info.solved(run(info, state, ms)),
    ensures
        deepen(info, state, 0, ms.len() + 1) is Some,
{
    lemma_cube_like(info);
    lemma_admissible(info);
    lemma_filter_admissible(info, state, ms);
}

} // verus!
