//! Proper cubes: those that show each piece of the solved cube once, and
//! centres that a rotation of the solved cube shows. The solved cube is
//! proper, and every move leaves a proper cube proper.

use vstd::prelude::*;
use crate::cube::{Face, Move, Rotation, Slice};
use crate::cube::laws::turns_layer;
use crate::cube::sticker_cube::{corner_next, edge_sister, CentrePos, Stickers};
use crate::solver::index::{corner_positions, cubie, edge_positions};
use crate::solver::round_trip::{
    corners_tracked, distinct_corners, distinct_edges, edges_tracked, lemma_corner_cubie,
    lemma_edge_cubie,
};
use crate::solver::tracking::{
    lemma_quarter_keeps_corners, lemma_quarter_keeps_edges, lemma_solved_tracks_corners,
    lemma_solved_tracks_edges,
};

verus! {

/// The twelve edges, as the solved cube shows them at the even positions.
pub open spec fn all_edges() -> Seq<(Face, Face)> {
    seq![
        (Face::U, Face::F),
        (Face::U, Face::L),
        (Face::U, Face::B),
        (Face::U, Face::R),
        (Face::D, Face::F),
        (Face::D, Face::L),
        (Face::D, Face::B),
        (Face::D, Face::R),
        (Face::F, Face::R),
        (Face::F, Face::L),
        (Face::B, Face::L),
        (Face::B, Face::R),
    ]
}

/// The eight corners, as the solved cube shows them at the positions that
/// are multiples of three.
pub open spec fn all_corners() -> Seq<(Face, Face, Face)> {
    seq![
        (Face::U, Face::R, Face::F),
        (Face::U, Face::F, Face::L),
        (Face::U, Face::L, Face::B),
        (Face::U, Face::B, Face::R),
        (Face::D, Face::F, Face::R),
        (Face::D, Face::L, Face::F),
        (Face::D, Face::B, Face::L),
        (Face::D, Face::R, Face::B),
    ]
}

/// Whether the two colours are those of an edge.
pub open spec fn is_edge(a: Face, b: Face) -> bool {
    a.spec_slice() != b.spec_slice()
}

/// Whether the three colours are those of a corner, clockwise.
pub open spec fn is_corner(a: Face, b: Face, c: Face) -> bool {
    Stickers::solved().corner_pos(a, b, c) < 24
}

/// Whether the centres are those of the solved cube after a rotation:
/// opposite centres show opposite colours, and the centres U, R, F show the
/// colours of a corner.
pub open spec fn centres_rotated(z: Seq<Face>) -> bool {
    &&& z.len() == 6
    &&& z[CentrePos::D.spec_index()] == z[CentrePos::U.spec_index()].spec_opposite()
    &&& z[CentrePos::L.spec_index()] == z[CentrePos::R.spec_index()].spec_opposite()
    &&& z[CentrePos::B.spec_index()] == z[CentrePos::F.spec_index()].spec_opposite()
    &&& is_corner(
        z[CentrePos::U.spec_index()],
        z[CentrePos::R.spec_index()],
        z[CentrePos::F.spec_index()],
    )
}

/// A proper cube shows each edge and each corner of the solved cube once,
/// on different cubies, and the centres of a rotated solved cube.
pub closed spec fn proper(c: Stickers) -> bool {
    &&& c.wf()
    &&& edges_tracked(c, all_edges())
    &&& corners_tracked(c, all_corners())
    &&& centres_rotated(c.centres)
}

/// A proper cube has the right number of stickers, and the centres of a
/// rotated solved cube.
pub proof fn lemma_proper_centres(c: Stickers)
    requires
        proper(c),
    ensures
        c.wf(),
        centres_rotated(c.centres),
{
}

/// The colours of a corner, and of a corner only, are found on the solved
/// cube; a corner read from its next facelet is a corner too, and its
/// colours lie on three axes.
pub proof fn lemma_is_corner(a: Face, b: Face, c: Face)
    ensures
        is_corner(a, b, c) ==> is_corner(b, c, a) && is_edge(a, b) && is_edge(b, c) && is_edge(
            a,
            c,
        ),
        is_corner(a, b, c) ==> Stickers::solved().corner_at(
            Stickers::solved().corner_pos(a, b, c),
            a,
            b,
            c,
        ),
        is_corner(a, b, c) ==> is_corner(a.spec_opposite(), c, b) && is_corner(
            a.spec_opposite(),
            b.spec_opposite(),
            c,
        ),
{
    reveal_with_fuel(Stickers::corner_pos_from, 25);
}

/// The colours of an edge are found on the solved cube, at the even
/// position of the edge or at the odd one.
pub proof fn lemma_is_edge(a: Face, b: Face)
    requires
        is_edge(a, b),
    ensures
        0 <= Stickers::solved().edge_pos(a, b) < 24,
        Stickers::solved().edge_at(Stickers::solved().edge_pos(a, b), a, b),
        Stickers::solved().edge_pos(a, b) % 2 == 0 ==> all_edges()[Stickers::solved().edge_pos(
            a,
            b,
        ) / 2] == (a, b),
        Stickers::solved().edge_pos(a, b) % 2 == 1 ==> all_edges()[Stickers::solved().edge_pos(
            a,
            b,
        ) / 2] == (b, a),
{
    reveal_with_fuel(Stickers::edge_pos_from, 25);
}

/// The solved cube is proper.
pub proof fn lemma_solved_proper()
    ensures
        proper(Stickers::solved()),
{
    lemma_solved_tracks_edges(all_edges(), seq![0int, 2, 4, 6, 8, 10, 12, 14, 16, 18, 20, 22]);
    lemma_solved_tracks_corners(all_corners(), seq![0int, 3, 6, 9, 12, 15, 18, 21]);
    reveal_with_fuel(Stickers::corner_pos_from, 2);
}

/// A quarter turn of a layer leaves a proper cube proper.
pub proof fn lemma_quarter_proper(c: Stickers, m: Move)
    requires
        proper(c),
        turns_layer(m),
    ensures
        proper(c.quarter(m)),
{
    lemma_quarter_keeps_edges(c, m, all_edges());
    lemma_quarter_keeps_corners(c, m, all_corners());
    let z = c.centres;
    let u = z[CentrePos::U.spec_index()];
    let r = z[CentrePos::R.spec_index()];
    let f = z[CentrePos::F.spec_index()];
    lemma_is_corner(u, r, f);
    lemma_is_corner(r, f, u);
    lemma_is_corner(f, u, r);
    lemma_is_corner(r.spec_opposite(), u, f);
    lemma_is_corner(u, f, r.spec_opposite());
}

/// A quarter rotation leaves a proper cube proper.
pub proof fn lemma_rotation_proper(c: Stickers)
    requires
        proper(c),
    ensures
        proper(c.rotate_x()),
        proper(c.rotate_y()),
{
    let r = Move::Face(Face::R, 1);
    let l = Move::Face(Face::L, 1);
    let m = Move::Slice(Slice::M, 1);
    let c1 = c.quarter(r);
    lemma_quarter_proper(c, r);
    let c2 = c1.quarter(m);
    lemma_quarter_proper(c1, m);
    let c3 = c2.quarter(l);
    lemma_quarter_proper(c2, l);
    let c4 = c3.quarter(m);
    lemma_quarter_proper(c3, m);
    let c5 = c4.quarter(l);
    lemma_quarter_proper(c4, l);
    let c6 = c5.quarter(m);
    lemma_quarter_proper(c5, m);
    lemma_quarter_proper(c6, l);
    assert(c.rotate_x() == c6.quarter(l));
    let u = Move::Face(Face::U, 1);
    let d = Move::Face(Face::D, 1);
    let e = Move::Slice(Slice::E, 1);
    let d1 = c.quarter(u);
    lemma_quarter_proper(c, u);
    let d2 = d1.quarter(e);
    lemma_quarter_proper(d1, e);
    let d3 = d2.quarter(d);
    lemma_quarter_proper(d2, d);
    let d4 = d3.quarter(e);
    lemma_quarter_proper(d3, e);
    let d5 = d4.quarter(d);
    lemma_quarter_proper(d4, d);
    let d6 = d5.quarter(e);
    lemma_quarter_proper(d5, e);
    lemma_quarter_proper(d6, d);
    assert(c.rotate_y() == d6.quarter(d));
}

/// Quarter turns of what a supported move turns leave a proper cube
/// proper.
pub proof fn lemma_quarters_proper(c: Stickers, m: Move, n: nat)
    requires
        proper(c),
        m.supported(),
    ensures
        proper(c.quarters(m, n)),
    decreases n,
{
    if n > 0 {
        lemma_quarters_proper(c, m, (n - 1) as nat);
        let d = c.quarters(m, (n - 1) as nat);
        if m is Rotation {
            lemma_rotation_proper(d);
        } else {
            lemma_quarter_proper(d, m);
        }
    }
}

/// Supported moves leave a proper cube proper.
pub proof fn lemma_moves_proper(c: Stickers, ms: Seq<Move>)
    requires
        proper(c),
        forall|i: int| 0 <= i < ms.len() ==> (#[trigger] ms[i]).supported(),
    ensures
        proper(c.apply_all(ms)),
    decreases ms.len(),
{
    if ms.len() > 0 {
        lemma_moves_proper(c, ms.drop_last());
        lemma_quarters_proper(
            c.apply_all(ms.drop_last()),
            ms.last(),
            ms.last().spec_amount() as nat,
        );
    }
}

/// On a proper cube each edge is at one position: that of the edge as
/// `all_edges` lists it, or the other facelet of that cubie. The result is
/// the number of the edge in `all_edges`.
pub proof fn lemma_proper_edge(c: Stickers, a: Face, b: Face) -> (k: int)
    requires
        proper(c),
        is_edge(a, b),
    ensures
        0 <= k < 12,
        all_edges()[k] == (a, b) || all_edges()[k] == (b, a),
        cubie(2, c.edge_pos(a, b)) == cubie(2, edge_positions(c, all_edges())[k]),
        0 <= c.edge_pos(a, b) < 24,
        forall|q: int| 0 <= q < 24 && c.edge_at(q, a, b) ==> q == c.edge_pos(a, b),
{
    lemma_is_edge(a, b);
    let home = Stickers::solved().edge_pos(a, b);
    let k = home / 2;
    let x = edge_positions(c, all_edges())[k];
    assert(0 <= x < 24);
    lemma_edge_cubie(x, x);
    if home % 2 == 0 {
        assert(all_edges()[k] == (a, b));
        assert(x == c.edge_pos(a, b));
        c.lemma_edge_pos_from(a, b, 0);
        assert forall|q: int| 0 <= q < 24 && c.edge_at(q, a, b) implies q == c.edge_pos(
            a,
            b,
        ) by {
            assert(c.edge_at(q, all_edges()[k].0, all_edges()[k].1));
        }
    } else {
        assert(all_edges()[k] == (b, a));
        assert(x == c.edge_pos(b, a));
        c.lemma_edge_pos_from(b, a, 0);
        assert(c.edge_at(edge_sister(x), a, b));
        assert forall|q: int| 0 <= q < 24 && c.edge_at(q, a, b) implies q == edge_sister(
            x,
        ) by {
            lemma_edge_cubie(q, q);
            assert(c.edge_at(edge_sister(q), all_edges()[k].0, all_edges()[k].1));
        }
        c.lemma_edge_pos_from(a, b, 0);
    }
    k
}

/// A corner read from its next facelet is found at the next position.
pub proof fn lemma_corner_at_next(c: Stickers, q: int, a: Face, b: Face, d: Face)
    requires
        0 <= q < 24,
    ensures
        c.corner_at(q, a, b, d) == c.corner_at(corner_next(q), b, d, a),
{
    lemma_corner_cubie(q, q);
}

/// On a proper cube each corner is at one position, on the cubie of the
/// corner as `all_corners` lists it. The result is the number of the corner
/// in `all_corners`.
pub proof fn lemma_proper_corner(c: Stickers, a: Face, b: Face, d: Face) -> (k: int)
    requires
        proper(c),
        is_corner(a, b, d),
    ensures
        0 <= k < 8,
        all_corners()[k] == (a, b, d) || all_corners()[k] == (d, a, b) || all_corners()[k] == (
            b,
            d,
            a,
        ),
        cubie(3, c.corner_pos(a, b, d)) == cubie(3, corner_positions(c, all_corners())[k]),
        0 <= c.corner_pos(a, b, d) < 24,
        forall|q: int| 0 <= q < 24 && c.corner_at(q, a, b, d) ==> q == c.corner_pos(a, b, d),
{
    lemma_is_corner(a, b, d);
    Stickers::solved().lemma_corner_pos_from(a, b, d, 0);
    let home = Stickers::solved().corner_pos(a, b, d);
    let k = home / 3;
    let x = corner_positions(c, all_corners())[k];
    let f = all_corners()[k];
    assert(0 <= x < 24);
    assert(x == c.corner_pos(f.0, f.1, f.2));
    lemma_corner_cubie(x, x);
    lemma_corner_cubie(corner_next(x), x);
    c.lemma_corner_pos_from(f.0, f.1, f.2, 0);
    lemma_corner_at_next(c, x, f.0, f.1, f.2);
    lemma_corner_at_next(c, corner_next(x), f.1, f.2, f.0);
    let y = if home % 3 == 0 {
        x
    } else if home % 3 == 1 {
        corner_next(x)
    } else {
        corner_next(corner_next(x))
    };
    assert(f == (a, b, d) || f == (d, a, b) || f == (b, d, a)) by {
        lemma_corner_cubie(home, home);
        lemma_corner_cubie(corner_next(home), home);
        assert(all_corners()[k] == (
            Stickers::solved().corners[3 * k],
            Stickers::solved().corners[3 * k + 1],
            Stickers::solved().corners[3 * k + 2],
        ));
    }
    assert(home % 3 == 0 ==> f == (a, b, d));
    assert(home % 3 == 1 ==> f == (d, a, b));
    assert(home % 3 == 2 ==> f == (b, d, a));
    assert(c.corner_at(y, a, b, d));
    assert forall|q: int| 0 <= q < 24 && c.corner_at(q, a, b, d) implies q == y by {
        lemma_corner_cubie(q, q);
        lemma_corner_cubie(corner_next(q), q);
        lemma_corner_at_next(c, q, a, b, d);
        lemma_corner_at_next(c, corner_next(q), b, d, a);
        if home % 3 == 0 {
            assert(c.corner_at(q, f.0, f.1, f.2));
        } else if home % 3 == 1 {
            assert(c.corner_at(corner_next(corner_next(q)), f.0, f.1, f.2));
        } else {
            assert(c.corner_at(corner_next(q), f.0, f.1, f.2));
        }
    }
    c.lemma_corner_pos_from(a, b, d, 0);
    k
}

/// A proper cube shows the edges of any list of distinct edges once each,
/// on different cubies.
pub proof fn lemma_proper_tracks_edges(c: Stickers, faces: Seq<(Face, Face)>)
    requires
        proper(c),
        distinct_edges(faces),
        forall|i: int| 0 <= i < faces.len() ==> is_edge((#[trigger] faces[i]).0, faces[i].1),
    ensures
        edges_tracked(c, faces),
{
    let p = edge_positions(c, faces);
    let n = faces.len();
    assert forall|i: int| 0 <= i < n implies 0 <= #[trigger] p[i] < 24 by {
        lemma_proper_edge(c, faces[i].0, faces[i].1);
    }
    assert forall|i: int, j: int| 0 <= i < n && 0 <= j < n && i != j implies cubie(
        2,
        #[trigger] p[i],
    ) != cubie(2, #[trigger] p[j]) by {
        let ki = lemma_proper_edge(c, faces[i].0, faces[i].1);
        let kj = lemma_proper_edge(c, faces[j].0, faces[j].1);
        assert(faces[i] != faces[j] && faces[i] != (faces[j].1, faces[j].0));
        assert(ki != kj);
        let q = edge_positions(c, all_edges());
        assert(cubie(2, q[ki]) != cubie(2, q[kj]));
    }
    assert forall|i: int, q: int|
        0 <= i < n && 0 <= q < 24 && #[trigger] c.edge_at(q, faces[i].0, faces[i].1) implies q
        == c.edge_pos(faces[i].0, faces[i].1) by {
        lemma_proper_edge(c, faces[i].0, faces[i].1);
    }
}

/// A proper cube shows the corners of any list of distinct corners once
/// each, on different cubies.
pub proof fn lemma_proper_tracks_corners(c: Stickers, faces: Seq<(Face, Face, Face)>)
    requires
        proper(c),
        distinct_corners(faces),
        forall|i: int|
            0 <= i < faces.len() ==> is_corner((#[trigger] faces[i]).0, faces[i].1, faces[i].2),
    ensures
        corners_tracked(c, faces),
{
    let p = corner_positions(c, faces);
    let n = faces.len();
    assert forall|i: int| 0 <= i < n implies 0 <= #[trigger] p[i] < 24 by {
        lemma_proper_corner(c, faces[i].0, faces[i].1, faces[i].2);
    }
    assert forall|i: int, j: int| 0 <= i < n && 0 <= j < n && i != j implies cubie(
        3,
        #[trigger] p[i],
    ) != cubie(3, #[trigger] p[j]) by {
        let ki = lemma_proper_corner(c, faces[i].0, faces[i].1, faces[i].2);
        let kj = lemma_proper_corner(c, faces[j].0, faces[j].1, faces[j].2);
        assert(faces[i] != faces[j] && faces[i] != (faces[j].1, faces[j].2, faces[j].0)
            && faces[i] != (faces[j].2, faces[j].0, faces[j].1));
        assert(ki != kj);
        let q = corner_positions(c, all_corners());
        assert(cubie(3, q[ki]) != cubie(3, q[kj]));
    }
    assert forall|i: int, q: int|
        0 <= i < n && 0 <= q < 24 && #[trigger] c.corner_at(
            q,
            faces[i].0,
            faces[i].1,
            faces[i].2,
        ) implies q == c.corner_pos(faces[i].0, faces[i].1, faces[i].2) by {
        lemma_proper_corner(c, faces[i].0, faces[i].1, faces[i].2);
    }
}

} // verus!
