//! What holds of the transition tables of lists of edges and of corners:
//! they turn coordinates as the cube turns the positions that the
//! coordinates stand for.

use vstd::prelude::*;
use crate::cube::{Face, Move};
use crate::cube::laws::{lemma_from_cubies, lemma_opposite_faces_from, turns_layer};
use crate::cube::sticker_cube::Stickers;
use crate::solver::index::{
    apart, coordinate, corner_decoded, corner_positions, cubie, decoded_positions, edge_decoded,
    edge_positions, num_elems,
};
use crate::solver::pruning::turned;
use crate::solver::pruning_laws::invertible;
use crate::solver::round_trip::{
    distinct_corners, distinct_edges, lemma_coordinate_round_trip, lemma_corner_decoded_wf,
    lemma_corner_round_trip, lemma_edge_decoded_wf, lemma_edge_round_trip,
    lemma_positions_round_trip,
};
use crate::solver::search_laws::opposite_generators;
use crate::solver::tracking::{
    corner_to, edge_to, lemma_corners_stay_apart, lemma_edges_stay_apart,
    lemma_quarter_keeps_corners, lemma_quarter_keeps_edges, lemma_to_from,
};
use crate::solver::transition::generator;

verus! {

/// The position to which a quarter turn of `m` brings the facelet at `i`:
/// of an edge where `w` is 2, of a corner where it is 3.
pub open spec fn facelet_to(w: int, m: Move, i: int) -> int {
    if w == 2 {
        edge_to(m, i)
    } else {
        corner_to(m, i)
    }
}

/// The positions `p` after a quarter turn of `m`.
pub open spec fn turn_positions(w: int, m: Move, p: Seq<int>) -> Seq<int> {
    Seq::new(p.len(), |i: int| facelet_to(w, m, p[i]))
}

/// The positions that the coordinate `x` of `n` pieces stands for, in the
/// order of the pieces.
pub open spec fn positions_of(w: int, n: nat, x: int) -> Seq<int> {
    decoded_positions(w, n, x).reverse()
}

/// The coordinate of `n` pieces after a quarter turn of generator `g` from
/// the coordinate `x`.
pub open spec fn step(w: int, n: nat, x: int, g: int) -> int {
    coordinate(w, turn_positions(w, generator(g), positions_of(w, n, x)))
}

/// Whether `t` is the table of `step` for `n` pieces.
pub open spec fn steps_by(t: Seq<[u32; 7]>, w: int, n: nat) -> bool {
    &&& t.len() == num_elems(w, n)
    &&& forall|x: int, g: int|
        0 <= x < t.len() && 0 <= g < 7 ==> #[trigger] t[x][g] == step(w, n, x, g)
}

/// A quarter turn of a layer keeps positions on different cubies so.
pub proof fn lemma_turn_positions_apart(w: int, m: Move, p: Seq<int>)
    requires
        w == 2 || w == 3,
        turns_layer(m),
        apart(w, p),
    ensures
        apart(w, turn_positions(w, m, p)),
{
    let q = turn_positions(w, m, p);
    assert forall|i: int| 0 <= i < q.len() implies 0 <= #[trigger] q[i] < 24 by {
        assert(0 <= p[i] < 24);
        lemma_to_from(m, p[i]);
    }
    assert forall|i: int, j: int| 0 <= i < q.len() && 0 <= j < q.len() && i != j implies cubie(
        w,
        #[trigger] q[i],
    ) != cubie(w, #[trigger] q[j]) by {
        assert(0 <= p[i] < 24 && 0 <= p[j] < 24);
        assert(cubie(w, p[i]) != cubie(w, p[j]));
        if w == 2 {
            lemma_edges_stay_apart(m, p[i], p[j]);
        } else {
            lemma_corners_stay_apart(m, p[i], p[j]);
        }
    }
}

/// The generators turn layers.
pub proof fn lemma_generator_turns_layer(g: int)
    ensures
        turns_layer(generator(g)),
        generator(g).spec_amount() == 1,
{
}

/// The positions of a coordinate lie on different cubies, and the
/// coordinate after a quarter turn stands for the turned positions.
pub proof fn lemma_step_positions(w: int, n: nat, x: int, g: int)
    requires
        w == 2 && n <= 12 || w == 3 && n <= 8,
        0 <= x < num_elems(w, n),
    ensures
        apart(w, positions_of(w, n, x)),
        coordinate(w, positions_of(w, n, x)) == x,
        0 <= step(w, n, x, g) < num_elems(w, n),
        positions_of(w, n, step(w, n, x, g)) == turn_positions(
            w,
            generator(g),
            positions_of(w, n, x),
        ),
{
    lemma_positions_round_trip(w, n, x);
    lemma_generator_turns_layer(g);
    let q = turn_positions(w, generator(g), positions_of(w, n, x));
    lemma_turn_positions_apart(w, generator(g), positions_of(w, n, x));
    lemma_coordinate_round_trip(w, q);
}

/// The positions of the coordinate after `k` quarter turns of one
/// generator are the positions turned `k` times.
pub open spec fn turned_positions(w: int, m: Move, p: Seq<int>, k: nat) -> Seq<int>
    decreases k,
{
    if k == 0 {
        p
    } else {
        turn_positions(w, m, turned_positions(w, m, p, (k - 1) as nat))
    }
}

/// A table of `step` leads from coordinate to coordinate, and what it
/// leads to stands for the turned positions.
pub proof fn lemma_turned_positions(t: Seq<[u32; 7]>, w: int, n: nat, x: int, g: int, k: nat)
    requires
        w == 2 && n <= 12 || w == 3 && n <= 8,
        steps_by(t, w, n),
        0 <= x < t.len(),
        0 <= g < 7,
    ensures
        0 <= turned(t, x, g, k) < t.len(),
        positions_of(w, n, turned(t, x, g, k)) == turned_positions(
            w,
            generator(g),
            positions_of(w, n, x),
            k,
        ),
    decreases k,
{
    if k > 0 {
        lemma_turned_positions(t, w, n, x, g, (k - 1) as nat);
        lemma_step_positions(w, n, turned(t, x, g, (k - 1) as nat), g);
    }
}

/// A table of `step` is closed, and four quarter turns of a generator lead
/// back in it.
pub proof fn lemma_steps_invertible(t: Seq<[u32; 7]>, w: int, n: nat)
    requires
        w == 2 && n <= 12 || w == 3 && n <= 8,
        steps_by(t, w, n),
    ensures
        invertible(t),
{
    assert forall|x: int, g: int| 0 <= x < t.len() && 0 <= g < 7 implies (#[trigger] t[x][g])
        < t.len() by {
        lemma_step_positions(w, n, x, g);
    }
    assert forall|x: int, g: int| 0 <= x < t.len() && 0 <= g < 7 implies #[trigger] turned(
        t,
        x,
        g,
        4,
    ) == x by {
        let m = generator(g);
        let p = positions_of(w, n, x);
        lemma_turned_positions(t, w, n, x, g, 4);
        lemma_step_positions(w, n, x, g);
        lemma_step_positions(w, n, turned(t, x, g, 4), g);
        lemma_generator_turns_layer(g);
        let q = turned_positions(w, m, p, 4);
        reveal_with_fuel(turned_positions, 5);
        assert forall|i: int| 0 <= i < p.len() implies q[i] == p[i] by {
            assert(0 <= p[i] < 24);
            lemma_four_turns(w, m, p[i]);
        }
        assert(q =~= p);
    }
}

/// Four quarter turns of a layer bring each facelet back.
pub proof fn lemma_four_turns(w: int, m: Move, i: int)
    requires
        w == 2 || w == 3,
        turns_layer(m),
        0 <= i < 24,
    ensures
        facelet_to(w, m, facelet_to(w, m, facelet_to(w, m, facelet_to(w, m, i)))) == i,
{
    lemma_to_from(m, i);
    let a = facelet_to(w, m, i);
    lemma_to_from(m, a);
    let b = facelet_to(w, m, a);
    lemma_to_from(m, b);
    let c = facelet_to(w, m, b);
    lemma_to_from(m, c);
    let d = facelet_to(w, m, c);
    lemma_from_cubies(m, d);
}

/// The faces that the generators `g` and `h` turn are opposite.
pub proof fn lemma_opposite_generators(g: int, h: int) -> (f: Face)
    requires
        opposite_generators(g, h),
    ensures
        generator(g) == Move::Face(f, 1),
        generator(h) == Move::Face(f.spec_opposite(), 1),
{
    match generator(g) {
        Move::Face(f, _) => f,
        _ => Face::U,
    }
}

/// Quarter turns of opposite faces take a facelet to the same place in
/// either order.
pub proof fn lemma_opposite_turns(w: int, g: int, h: int, i: int)
    requires
        w == 2 || w == 3,
        opposite_generators(g, h),
        0 <= i < 24,
    ensures
        facelet_to(w, generator(h), facelet_to(w, generator(g), i)) == facelet_to(
            w,
            generator(g),
            facelet_to(w, generator(h), i),
        ),
{
    let f = lemma_opposite_generators(g, h);
    let a = generator(g);
    let b = generator(h);
    let x = facelet_to(w, b, facelet_to(w, a, i));
    let y = facelet_to(w, a, facelet_to(w, b, i));
    lemma_to_from(a, i);
    lemma_to_from(b, i);
    lemma_to_from(b, facelet_to(w, a, i));
    lemma_to_from(a, facelet_to(w, b, i));
    // Both orders are undone by the same two steps back.
    lemma_to_from(a, x);
    lemma_to_from(b, x);
    lemma_opposite_faces_from(f, x);
    lemma_opposite_faces_from(f, y);
    lemma_from_cubies(a, x);
    lemma_from_cubies(b, x);
    lemma_from_cubies(a, y);
    lemma_from_cubies(b, y);
    if w == 2 {
        let fx = crate::cube::laws::edge_from(a, crate::cube::laws::edge_from(b, x));
        let fy = crate::cube::laws::edge_from(b, crate::cube::laws::edge_from(a, y));
        assert(crate::cube::laws::edge_from(b, x) == facelet_to(w, a, i));
        assert(fx == i);
        assert(crate::cube::laws::edge_from(a, y) == facelet_to(w, b, i));
        assert(fy == i);
        assert(crate::cube::laws::edge_from(a, crate::cube::laws::edge_from(b, y)) == i);
        lemma_from_cubies(b, crate::cube::laws::edge_from(b, y));
        lemma_to_from(a, crate::cube::laws::edge_from(b, x));
        lemma_to_from(a, crate::cube::laws::edge_from(b, y));
        lemma_to_from(b, y);
    } else {
        let fx = crate::cube::laws::corner_from(a, crate::cube::laws::corner_from(b, x));
        let fy = crate::cube::laws::corner_from(b, crate::cube::laws::corner_from(a, y));
        assert(crate::cube::laws::corner_from(b, x) == facelet_to(w, a, i));
        assert(fx == i);
        assert(crate::cube::laws::corner_from(a, y) == facelet_to(w, b, i));
        assert(fy == i);
        assert(crate::cube::laws::corner_from(a, crate::cube::laws::corner_from(b, y)) == i);
        lemma_from_cubies(b, crate::cube::laws::corner_from(b, y));
        lemma_to_from(a, crate::cube::laws::corner_from(b, x));
        lemma_to_from(a, crate::cube::laws::corner_from(b, y));
        lemma_to_from(b, y);
    }
}

/// In a table of `step`, quarter turns of opposite faces lead to the same
/// coordinate in either order.
pub proof fn lemma_steps_commute(t: Seq<[u32; 7]>, w: int, n: nat, x: int, g: int, h: int)
    requires
        w == 2 && n <= 12 || w == 3 && n <= 8,
        steps_by(t, w, n),
        0 <= x < t.len(),
        opposite_generators(g, h),
    ensures
        t[t[x][g] as int][h] == t[t[x][h] as int][g],
{
    let p = positions_of(w, n, x);
    lemma_step_positions(w, n, x, g);
    lemma_step_positions(w, n, x, h);
    lemma_step_positions(w, n, t[x][g] as int, h);
    lemma_step_positions(w, n, t[x][h] as int, g);
    let a = positions_of(w, n, t[t[x][g] as int][h] as int);
    let b = positions_of(w, n, t[t[x][h] as int][g] as int);
    assert forall|i: int| 0 <= i < p.len() implies a[i] == b[i] by {
        assert(0 <= p[i] < 24);
        lemma_opposite_turns(w, g, h, p[i]);
    }
    assert(a =~= b);
}

/// The transition table of a list of distinct edges is the table of
/// `step`.
pub proof fn lemma_edge_table_steps(t: Seq<[u32; 7]>, faces: Seq<(Face, Face)>)
    requires
        faces.len() <= 12,
        distinct_edges(faces),
        t.len() == num_elems(2, faces.len()),
        forall|x: int, g: int|
            0 <= x < t.len() && 0 <= g < 7 ==> #[trigger] t[x][g] == coordinate(
                2,
                edge_positions(
                    edge_decoded(Stickers::invalid(), x, faces.reverse()).apply(generator(g)),
                    faces,
                ),
            ),
    ensures
        steps_by(t, 2, faces.len()),
{
    assert forall|x: int, g: int| 0 <= x < t.len() && 0 <= g < 7 implies #[trigger] t[x][g]
        == step(2, faces.len(), x, g) by {
        let c = edge_decoded(Stickers::invalid(), x, faces.reverse());
        lemma_edge_round_trip(x, faces);
        lemma_edge_decoded_wf(x, faces.reverse());
        lemma_generator_turns_layer(g);
        reveal_with_fuel(Stickers::quarters, 2);
        lemma_quarter_keeps_edges(c, generator(g), faces);
        assert(edge_positions(c.apply(generator(g)), faces) =~= turn_positions(
            2,
            generator(g),
            positions_of(2, faces.len(), x),
        ));
    }
}

/// The transition table of a list of distinct corners is the table of
/// `step`.
pub proof fn lemma_corner_table_steps(t: Seq<[u32; 7]>, faces: Seq<(Face, Face, Face)>)
    requires
        faces.len() <= 8,
        distinct_corners(faces),
        t.len() == num_elems(3, faces.len()),
        forall|x: int, g: int|
            0 <= x < t.len() && 0 <= g < 7 ==> #[trigger] t[x][g] == coordinate(
                3,
                corner_positions(
                    corner_decoded(Stickers::invalid(), x, faces.reverse()).apply(generator(g)),
                    faces,
                ),
            ),
    ensures
        steps_by(t, 3, faces.len()),
{
    assert forall|x: int, g: int| 0 <= x < t.len() && 0 <= g < 7 implies #[trigger] t[x][g]
        == step(3, faces.len(), x, g) by {
        let c = corner_decoded(Stickers::invalid(), x, faces.reverse());
        lemma_corner_round_trip(x, faces);
        lemma_corner_decoded_wf(x, faces.reverse());
        lemma_generator_turns_layer(g);
        reveal_with_fuel(Stickers::quarters, 2);
        lemma_quarter_keeps_corners(c, generator(g), faces);
        assert(corner_positions(c.apply(generator(g)), faces) =~= turn_positions(
            3,
            generator(g),
            positions_of(3, faces.len(), x),
        ));
    }
}

} // verus!
