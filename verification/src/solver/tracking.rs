//! The pieces of a coordinate stay where a coordinate can be read, whatever
//! layers are turned.

use vstd::prelude::*;
use crate::cube::{Face, Move};
use crate::cube::laws::{
    corner_from, edge_from, lemma_from_cubies, lemma_quarter_from, lemma_solved_corner_once,
    lemma_solved_edge_once, turns_layer,
};
use crate::cube::sticker_cube::{corner_next, edge_sister, Stickers};
use crate::solver::index::{apart, corner_positions, cubie, edge_positions};
use crate::solver::round_trip::{
    corners_tracked, edges_tracked, lemma_corner_cubie, lemma_edge_cubie,
};

verus! {

/// The edge position to which a quarter turn of `m` brings the sticker at
/// `i`: three steps back are one step forward.
pub open spec fn edge_to(m: Move, i: int) -> int {
    edge_from(m, edge_from(m, edge_from(m, i)))
}

/// The corner position to which a quarter turn of `m` brings the sticker at
/// `i`.
pub open spec fn corner_to(m: Move, i: int) -> int {
    corner_from(m, corner_from(m, corner_from(m, i)))
}

/// `edge_to` and `corner_to` undo `edge_from` and `corner_from`, and keep
/// the facelets of a cubie together.
pub proof fn lemma_to_from(m: Move, i: int)
    requires
        turns_layer(m),
        0 <= i < 24,
    ensures
        0 <= edge_to(m, i) < 24,
        0 <= corner_to(m, i) < 24,
        edge_from(m, edge_to(m, i)) == i,
        edge_to(m, edge_from(m, i)) == i,
        corner_from(m, corner_to(m, i)) == i,
        corner_to(m, corner_from(m, i)) == i,
        edge_to(m, edge_sister(i)) == edge_sister(edge_to(m, i)),
        corner_to(m, corner_next(i)) == corner_next(corner_to(m, i)),
{
    lemma_from_cubies(m, i);
    let e1 = edge_from(m, i);
    lemma_from_cubies(m, e1);
    let e2 = edge_from(m, e1);
    lemma_from_cubies(m, e2);
    let c1 = corner_from(m, i);
    lemma_from_cubies(m, c1);
    let c2 = corner_from(m, c1);
    lemma_from_cubies(m, c2);
    lemma_edge_cubie(i, i);
    lemma_corner_cubie(i, i);
}

/// After a quarter turn of a layer, an edge is at `i` if it was at
/// `edge_from(m, i)`, and a corner likewise.
pub proof fn lemma_quarter_moves_pieces(c: Stickers, m: Move, i: int)
    requires
        c.wf(),
        turns_layer(m),
        0 <= i < 24,
    ensures
        forall|f1: Face, f2: Face|
            c.quarter(m).edge_at(i, f1, f2) == c.edge_at(edge_from(m, i), f1, f2),
        forall|f1: Face, f2: Face, f3: Face|
            c.quarter(m).corner_at(i, f1, f2, f3) == c.corner_at(corner_from(m, i), f1, f2, f3),
{
    lemma_edge_cubie(i, i);
    lemma_corner_cubie(i, i);
    lemma_corner_cubie(corner_next(i), i);
    lemma_from_cubies(m, i);
    lemma_from_cubies(m, corner_next(i));
    lemma_quarter_from(c, m, i);
    lemma_quarter_from(c, m, edge_sister(i));
    lemma_quarter_from(c, m, corner_next(i));
    lemma_quarter_from(c, m, corner_next(corner_next(i)));
}

/// A quarter turn of a layer takes each tracked edge to one position, that
/// which `edge_to` names, and keeps the edges on different cubies.
pub proof fn lemma_quarter_keeps_edges(c: Stickers, m: Move, faces: Seq<(Face, Face)>)
    requires
        c.wf(),
        turns_layer(m),
        edges_tracked(c, faces),
    ensures
        c.quarter(m).wf(),
        edges_tracked(c.quarter(m), faces),
        forall|i: int|
            0 <= i < faces.len() ==> #[trigger] edge_positions(c.quarter(m), faces)[i]
                == edge_to(m, edge_positions(c, faces)[i]),
{
    let d = c.quarter(m);
    let p = edge_positions(c, faces);
    let n = faces.len();
    lemma_quarter_from(c, m, 0);
    assert forall|i: int| 0 <= i < n implies d.edge_pos(faces[i].0, faces[i].1) == edge_to(
        m,
        p[i],
    ) && (forall|q: int|
        0 <= q < 24 && d.edge_at(q, faces[i].0, faces[i].1) ==> q == edge_to(m, p[i])) by {
        let f = faces[i];
        assert(0 <= p[i] < 24);
        c.lemma_edge_pos_from(f.0, f.1, 0);
        lemma_to_from(m, p[i]);
        lemma_quarter_moves_pieces(c, m, edge_to(m, p[i]));
        assert(d.edge_at(edge_to(m, p[i]), f.0, f.1));
        assert forall|q: int| 0 <= q < 24 && d.edge_at(q, f.0, f.1) implies q == edge_to(
            m,
            p[i],
        ) by {
            lemma_quarter_moves_pieces(c, m, q);
            lemma_from_cubies(m, q);
            assert(c.edge_at(edge_from(m, q), f.0, f.1));
            lemma_to_from(m, q);
        }
        d.lemma_edge_pos_from(f.0, f.1, 0);
    }
    let turned = edge_positions(d, faces);
    assert forall|i: int| 0 <= i < n implies 0 <= #[trigger] turned[i] < 24 by {
        assert(0 <= p[i] < 24);
        lemma_to_from(m, p[i]);
    }
    assert forall|i: int, j: int| 0 <= i < n && 0 <= j < n && i != j implies cubie(
        2,
        #[trigger] turned[i],
    ) != cubie(2, #[trigger] turned[j]) by {
        assert(0 <= p[i] < 24 && 0 <= p[j] < 24);
        assert(cubie(2, p[i]) != cubie(2, p[j]));
        lemma_to_from(m, p[i]);
        lemma_to_from(m, p[j]);
        lemma_to_from(m, edge_sister(p[j]));
        lemma_edge_cubie(p[j], p[i]);
        lemma_edge_cubie(turned[j], turned[i]);
    }
    assert(apart(2, turned));
    assert forall|i: int, q: int|
        0 <= i < n && 0 <= q < 24 && #[trigger] d.edge_at(q, faces[i].0, faces[i].1) implies q
        == d.edge_pos(faces[i].0, faces[i].1) by {
        assert(d.edge_pos(faces[i].0, faces[i].1) == edge_to(m, p[i]));
    }
}

/// Edge facelets on different cubies go to different cubies.
pub proof fn lemma_edges_stay_apart(m: Move, x: int, y: int)
    requires
        turns_layer(m),
        0 <= x < 24,
        0 <= y < 24,
        cubie(2, x) != cubie(2, y),
    ensures
        cubie(2, edge_to(m, x)) != cubie(2, edge_to(m, y)),
{
    lemma_to_from(m, x);
    lemma_to_from(m, y);
    lemma_edge_cubie(y, x);
    lemma_edge_cubie(y, y);
    lemma_to_from(m, edge_sister(y));
    lemma_edge_cubie(edge_to(m, y), edge_to(m, x));
}

/// Corner facelets on different cubies go to different cubies.
pub proof fn lemma_corners_stay_apart(m: Move, x: int, y: int)
    requires
        turns_layer(m),
        0 <= x < 24,
        0 <= y < 24,
        cubie(3, x) != cubie(3, y),
    ensures
        cubie(3, corner_to(m, x)) != cubie(3, corner_to(m, y)),
{
    lemma_to_from(m, x);
    lemma_to_from(m, y);
    lemma_corner_cubie(y, x);
    lemma_corner_cubie(y, y);
    lemma_corner_cubie(corner_next(y), y);
    lemma_to_from(m, corner_next(y));
    lemma_to_from(m, corner_next(corner_next(y)));
    lemma_corner_cubie(corner_to(m, y), corner_to(m, x));
}

/// A quarter turn of a layer takes each tracked corner to one position,
/// that which `corner_to` names, and keeps the corners on different cubies.
pub proof fn lemma_quarter_keeps_corners(c: Stickers, m: Move, faces: Seq<(Face, Face, Face)>)
    requires
        c.wf(),
        turns_layer(m),
        corners_tracked(c, faces),
    ensures
        c.quarter(m).wf(),
        corners_tracked(c.quarter(m), faces),
        forall|i: int|
            0 <= i < faces.len() ==> #[trigger] corner_positions(c.quarter(m), faces)[i]
                == corner_to(m, corner_positions(c, faces)[i]),
{
    let d = c.quarter(m);
    let p = corner_positions(c, faces);
    let n = faces.len();
    lemma_quarter_from(c, m, 0);
    assert forall|i: int| 0 <= i < n implies d.corner_pos(faces[i].0, faces[i].1, faces[i].2)
        == corner_to(m, p[i]) && (forall|q: int|
        0 <= q < 24 && d.corner_at(q, faces[i].0, faces[i].1, faces[i].2) ==> q == corner_to(
            m,
            p[i],
        )) by {
        let f = faces[i];
        assert(0 <= p[i] < 24);
        c.lemma_corner_pos_from(f.0, f.1, f.2, 0);
        lemma_to_from(m, p[i]);
        lemma_quarter_moves_pieces(c, m, corner_to(m, p[i]));
        assert(d.corner_at(corner_to(m, p[i]), f.0, f.1, f.2));
        assert forall|q: int| 0 <= q < 24 && d.corner_at(q, f.0, f.1, f.2) implies q
            == corner_to(m, p[i]) by {
            lemma_quarter_moves_pieces(c, m, q);
            lemma_from_cubies(m, q);
            assert(c.corner_at(corner_from(m, q), f.0, f.1, f.2));
            lemma_to_from(m, q);
        }
        d.lemma_corner_pos_from(f.0, f.1, f.2, 0);
    }
    let turned = corner_positions(d, faces);
    assert forall|i: int| 0 <= i < n implies 0 <= #[trigger] turned[i] < 24 by {
        assert(0 <= p[i] < 24);
        lemma_to_from(m, p[i]);
    }
    assert forall|i: int, j: int| 0 <= i < n && 0 <= j < n && i != j implies cubie(
        3,
        #[trigger] turned[i],
    ) != cubie(3, #[trigger] turned[j]) by {
        assert(0 <= p[i] < 24 && 0 <= p[j] < 24);
        assert(cubie(3, p[i]) != cubie(3, p[j]));
        lemma_corners_stay_apart(m, p[i], p[j]);
    }
    assert(apart(3, turned));
    assert forall|i: int, q: int|
        0 <= i < n && 0 <= q < 24 && #[trigger] d.corner_at(
            q,
            faces[i].0,
            faces[i].1,
            faces[i].2,
        ) implies q == d.corner_pos(faces[i].0, faces[i].1, faces[i].2) by {
        assert(d.corner_pos(faces[i].0, faces[i].1, faces[i].2) == corner_to(m, p[i]));
    }
}

/// Any number of quarter turns of a layer keeps the tracked edges and
/// corners tracked.
pub proof fn lemma_quarters_keep_tracked(
    c: Stickers,
    m: Move,
    k: nat,
    edges: Seq<(Face, Face)>,
    corners: Seq<(Face, Face, Face)>,
)
    requires
        c.wf(),
        turns_layer(m),
        edges_tracked(c, edges),
        corners_tracked(c, corners),
    ensures
        c.quarters(m, k).wf(),
        edges_tracked(c.quarters(m, k), edges),
        corners_tracked(c.quarters(m, k), corners),
    decreases k,
{
    if k > 0 {
        lemma_quarters_keep_tracked(c, m, (k - 1) as nat, edges, corners);
        lemma_quarter_keeps_edges(c.quarters(m, (k - 1) as nat), m, edges);
        lemma_quarter_keeps_corners(c.quarters(m, (k - 1) as nat), m, corners);
    }
}

/// The solved cube shows the edges that it has at positions on different
/// cubies once each, at those positions.
pub proof fn lemma_solved_tracks_edges(faces: Seq<(Face, Face)>, p: Seq<int>)
    requires
        p.len() == faces.len(),
        apart(2, p),
        forall|i: int|
            0 <= i < faces.len() ==> #[trigger] faces[i] == (
                Stickers::solved().edges[p[i]],
                Stickers::solved().edges[edge_sister(p[i])],
            ),
    ensures
        edges_tracked(Stickers::solved(), faces),
        edge_positions(Stickers::solved(), faces) == p,
{
    let c = Stickers::solved();
    assert forall|i: int| 0 <= i < faces.len() implies c.edge_pos(faces[i].0, faces[i].1)
        == p[i] && (forall|q: int|
        0 <= q < 24 && c.edge_at(q, faces[i].0, faces[i].1) ==> q == p[i]) by {
        assert(0 <= p[i] < 24);
        assert(faces[i] == (c.edges[p[i]], c.edges[edge_sister(p[i])]));
        assert forall|q: int| 0 <= q < 24 && c.edge_at(q, faces[i].0, faces[i].1) implies q
            == p[i] by {
            lemma_solved_edge_once(p[i], q);
        }
        assert(c.edge_at(p[i], faces[i].0, faces[i].1));
        c.lemma_edge_pos_from(faces[i].0, faces[i].1, 0);
    }
    assert(edge_positions(c, faces) =~= p);
}

/// The solved cube shows the corners that it has at positions on different
/// cubies once each, at those positions.
pub proof fn lemma_solved_tracks_corners(faces: Seq<(Face, Face, Face)>, p: Seq<int>)
    requires
        p.len() == faces.len(),
        apart(3, p),
        forall|i: int|
            0 <= i < faces.len() ==> #[trigger] faces[i] == (
                Stickers::solved().corners[p[i]],
                Stickers::solved().corners[corner_next(p[i])],
                Stickers::solved().corners[corner_next(corner_next(p[i]))],
            ),
    ensures
        corners_tracked(Stickers::solved(), faces),
        corner_positions(Stickers::solved(), faces) == p,
{
    let c = Stickers::solved();
    assert forall|i: int| 0 <= i < faces.len() implies c.corner_pos(
        faces[i].0,
        faces[i].1,
        faces[i].2,
    ) == p[i] && (forall|q: int|
        0 <= q < 24 && c.corner_at(q, faces[i].0, faces[i].1, faces[i].2) ==> q == p[i]) by {
        assert(0 <= p[i] < 24);
        assert(faces[i] == (
            c.corners[p[i]],
            c.corners[corner_next(p[i])],
            c.corners[corner_next(corner_next(p[i]))],
        ));
        assert forall|q: int|
            0 <= q < 24 && c.corner_at(q, faces[i].0, faces[i].1, faces[i].2) implies q
            == p[i] by {
            lemma_solved_corner_once(p[i], q);
        }
        assert(c.corner_at(p[i], faces[i].0, faces[i].1, faces[i].2));
        c.lemma_corner_pos_from(faces[i].0, faces[i].1, faces[i].2, 0);
    }
    assert(corner_positions(c, faces) =~= p);
}

} // verus!
