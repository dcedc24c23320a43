//! What holds of the quarter turns on every cube: each is a permutation of
//! the facelets that keeps the cubies whole, and four of them are none.

use vstd::prelude::*;
use crate::cube::{Face, Move, Slice};
use crate::cube::sticker_cube::{
    corner_cycle, corner_next, cycle4, edge_cycle, edge_sister, face_corner_cycles,
    e_edge_cycles, face_edge_cycles, m_edge_cycles, CornerCycle, EdgeCycle, Stickers,
};

verus! {

/// The position whose sticker the cycle `a`, `b`, `c`, `d` brings to `i`.
pub open spec fn cycle_from(i: int, a: int, b: int, c: int, d: int) -> int {
    if i == a {
        d
    } else if i == b {
        a
    } else if i == c {
        b
    } else if i == d {
        c
    } else {
        i
    }
}

/// `cycle_from` for a cycle of edge positions.
pub open spec fn edge_cycle_from(i: int, c: EdgeCycle) -> int {
    cycle_from(i, c.0.spec_index(), c.1.spec_index(), c.2.spec_index(), c.3.spec_index())
}

/// `cycle_from` for a cycle of corner positions.
pub open spec fn corner_cycle_from(i: int, c: CornerCycle) -> int {
    cycle_from(i, c.0.spec_index(), c.1.spec_index(), c.2.spec_index(), c.3.spec_index())
}

/// The edge position whose sticker a quarter turn of face `f` brings to `i`.
pub open spec fn face_edge_from(f: Face, i: int) -> int {
    let e = face_edge_cycles(f);
    edge_cycle_from(edge_cycle_from(i, e.1), e.0)
}

/// The corner position whose sticker a quarter turn of face `f` brings to `i`.
pub open spec fn face_corner_from(f: Face, i: int) -> int {
    let c = face_corner_cycles(f);
    corner_cycle_from(corner_cycle_from(corner_cycle_from(i, c.2), c.1), c.0)
}

/// The edge position whose sticker a quarter turn of the M slice brings to `i`.
pub open spec fn m_edge_from(i: int) -> int {
    edge_cycle_from(edge_cycle_from(i, m_edge_cycles().1), m_edge_cycles().0)
}

/// After a cycle of four different positions, each position shows what
/// `cycle_from` names.
pub proof fn lemma_cycle4_from(s: Seq<Face>, a: int, b: int, c: int, d: int, i: int)
    requires
        0 <= a < s.len(),
        0 <= b < s.len(),
        0 <= c < s.len(),
        0 <= d < s.len(),
        a != b && a != c && a != d && b != c && b != d && c != d,
        0 <= i < s.len(),
    ensures
        cycle4(s, a, b, c, d).len() == s.len(),
        cycle4(s, a, b, c, d)[i] == s[cycle_from(i, a, b, c, d)],
        0 <= cycle_from(i, a, b, c, d) < s.len(),
{
}

/// After a quarter turn of face `f`, each edge and corner position shows the
/// sticker of the position that `face_edge_from` and `face_corner_from` name.
pub proof fn lemma_turn_face_from(c: Stickers, f: Face, i: int)
    requires
        c.wf(),
        0 <= i < 24,
    ensures
        c.turn_face(f).wf(),
        c.turn_face(f).edges[i] == c.edges[face_edge_from(f, i)],
        c.turn_face(f).corners[i] == c.corners[face_corner_from(f, i)],
        c.turn_face(f).centres == c.centres,
        0 <= face_edge_from(f, i) < 24,
        0 <= face_corner_from(f, i) < 24,
{
    let e = face_edge_cycles(f);
    let k = face_corner_cycles(f);
    let e1 = edge_cycle(c.edges, e.0);
    let i1 = edge_cycle_from(i, e.1);
    lemma_cycle4_from(
        c.edges,
        e.0.0.spec_index(),
        e.0.1.spec_index(),
        e.0.2.spec_index(),
        e.0.3.spec_index(),
        0,
    );
    lemma_cycle4_from(
        e1,
        e.1.0.spec_index(),
        e.1.1.spec_index(),
        e.1.2.spec_index(),
        e.1.3.spec_index(),
        i,
    );
    lemma_cycle4_from(
        c.edges,
        e.0.0.spec_index(),
        e.0.1.spec_index(),
        e.0.2.spec_index(),
        e.0.3.spec_index(),
        i1,
    );
    let k1 = corner_cycle(c.corners, k.0);
    let k2 = corner_cycle(k1, k.1);
    let j2 = corner_cycle_from(i, k.2);
    let j1 = corner_cycle_from(j2, k.1);
    lemma_cycle4_from(
        c.corners,
        k.0.0.spec_index(),
        k.0.1.spec_index(),
        k.0.2.spec_index(),
        k.0.3.spec_index(),
        0,
    );
    lemma_cycle4_from(
        k1,
        k.1.0.spec_index(),
        k.1.1.spec_index(),
        k.1.2.spec_index(),
        k.1.3.spec_index(),
        0,
    );
    lemma_cycle4_from(
        k2,
        k.2.0.spec_index(),
        k.2.1.spec_index(),
        k.2.2.spec_index(),
        k.2.3.spec_index(),
        i,
    );
    lemma_cycle4_from(
        k1,
        k.1.0.spec_index(),
        k.1.1.spec_index(),
        k.1.2.spec_index(),
        k.1.3.spec_index(),
        j2,
    );
    lemma_cycle4_from(
        c.corners,
        k.0.0.spec_index(),
        k.0.1.spec_index(),
        k.0.2.spec_index(),
        k.0.3.spec_index(),
        j1,
    );
}

/// After a quarter turn of the M slice, each edge position shows the sticker
/// of the position that `m_edge_from` names, and the corners are as before.
pub proof fn lemma_turn_m_from(c: Stickers, i: int)
    requires
        c.wf(),
        0 <= i < 24,
    ensures
        c.turn_m().wf(),
        c.turn_m().edges[i] == c.edges[m_edge_from(i)],
        c.turn_m().corners == c.corners,
        0 <= m_edge_from(i) < 24,
{
    let e = m_edge_cycles();
    let e1 = edge_cycle(c.edges, e.0);
    let i1 = edge_cycle_from(i, e.1);
    lemma_cycle4_from(
        c.edges,
        e.0.0.spec_index(),
        e.0.1.spec_index(),
        e.0.2.spec_index(),
        e.0.3.spec_index(),
        0,
    );
    lemma_cycle4_from(
        e1,
        e.1.0.spec_index(),
        e.1.1.spec_index(),
        e.1.2.spec_index(),
        e.1.3.spec_index(),
        i,
    );
    lemma_cycle4_from(
        c.edges,
        e.0.0.spec_index(),
        e.0.1.spec_index(),
        e.0.2.spec_index(),
        e.0.3.spec_index(),
        i1,
    );
}

/// The edge position whose sticker a quarter turn of the E slice brings to `i`.
pub open spec fn e_edge_from(i: int) -> int {
    edge_cycle_from(edge_cycle_from(i, e_edge_cycles().1), e_edge_cycles().0)
}

/// After a quarter turn of the E slice, each edge position shows the sticker
/// of the position that `e_edge_from` names, and the corners are as before.
pub proof fn lemma_turn_e_from(c: Stickers, i: int)
    requires
        c.wf(),
        0 <= i < 24,
    ensures
        c.turn_e().wf(),
        c.turn_e().edges[i] == c.edges[e_edge_from(i)],
        c.turn_e().corners == c.corners,
        0 <= e_edge_from(i) < 24,
{
    let e = e_edge_cycles();
    let e1 = edge_cycle(c.edges, e.0);
    let i1 = edge_cycle_from(i, e.1);
    lemma_cycle4_from(
        c.edges,
        e.0.0.spec_index(),
        e.0.1.spec_index(),
        e.0.2.spec_index(),
        e.0.3.spec_index(),
        0,
    );
    lemma_cycle4_from(
        e1,
        e.1.0.spec_index(),
        e.1.1.spec_index(),
        e.1.2.spec_index(),
        e.1.3.spec_index(),
        i,
    );
    lemma_cycle4_from(
        c.edges,
        e.0.0.spec_index(),
        e.0.1.spec_index(),
        e.0.2.spec_index(),
        e.0.3.spec_index(),
        i1,
    );
}

/// The edge position whose sticker a quarter turn of `m` brings to `i`, for
/// the turn of a face or of the M or E slice.
pub closed spec fn edge_from(m: Move, i: int) -> int {
    match m {
        Move::Face(f, _) => face_edge_from(f, i),
        Move::Slice(Slice::M, _) => m_edge_from(i),
        Move::Slice(Slice::E, _) => e_edge_from(i),
        _ => i,
    }
}

/// The corner position whose sticker a quarter turn of `m` brings to `i`,
/// for the turn of a face or of the M or E slice.
pub closed spec fn corner_from(m: Move, i: int) -> int {
    match m {
        Move::Face(f, _) => face_corner_from(f, i),
        _ => i,
    }
}

/// Whether `m` turns one layer of the cube: a face, the M slice or the E
/// slice.
pub open spec fn turns_layer(m: Move) -> bool {
    m is Face || (m is Slice && m->Slice_0 != Slice::S)
}

/// A quarter turn of a layer is a permutation of the edge facelets and of
/// the corner facelets: each position shows the sticker of the position
/// that `edge_from` or `corner_from` names.
pub proof fn lemma_quarter_from(c: Stickers, m: Move, i: int)
    requires
        c.wf(),
        turns_layer(m),
        0 <= i < 24,
    ensures
        c.quarter(m).wf(),
        c.quarter(m).edges[i] == c.edges[edge_from(m, i)],
        c.quarter(m).corners[i] == c.corners[corner_from(m, i)],
{
    match m {
        Move::Face(f, _) => lemma_turn_face_from(c, f, i),
        Move::Slice(Slice::M, _) => lemma_turn_m_from(c, i),
        _ => lemma_turn_e_from(c, i),
    }
}

/// Under a quarter turn of a layer the facelets of a cubie stay together,
/// and four quarter turns bring each facelet back.
pub proof fn lemma_from_cubies(m: Move, i: int)
    requires
        turns_layer(m),
        0 <= i < 24,
    ensures
        0 <= edge_from(m, i) < 24,
        0 <= corner_from(m, i) < 24,
        edge_from(m, edge_sister(i)) == edge_sister(edge_from(m, i)),
        corner_from(m, corner_next(i)) == corner_next(corner_from(m, i)),
        edge_from(m, edge_from(m, edge_from(m, edge_from(m, i)))) == i,
        corner_from(m, corner_from(m, corner_from(m, corner_from(m, i)))) == i,
{
    match m {
        Move::Face(f, _) => {
            lemma_face_edge_from(f, i);
            lemma_face_corner_from(f, i);
        },
        _ => {},
    }
}

/// The edge facelets move with their cubies under a quarter turn of a face,
/// and four quarter turns bring each back.
pub proof fn lemma_face_edge_from(f: Face, i: int)
    requires
        0 <= i < 24,
    ensures
        0 <= face_edge_from(f, i) < 24,
        face_edge_from(f, edge_sister(i)) == edge_sister(face_edge_from(f, i)),
        face_edge_from(f, face_edge_from(f, face_edge_from(f, face_edge_from(f, i)))) == i,
{
}

/// The corner facelets move with their cubies under a quarter turn of a
/// face, and four quarter turns bring each back.
pub proof fn lemma_face_corner_from(f: Face, i: int)
    requires
        0 <= i < 24,
    ensures
        0 <= face_corner_from(f, i) < 24,
        face_corner_from(f, corner_next(i)) == corner_next(face_corner_from(f, i)),
        face_corner_from(f, face_corner_from(f, face_corner_from(f, face_corner_from(f, i))))
            == i,
{
}

/// Four quarter turns of one face leave every sticker where it was.
pub proof fn lemma_turn_face_four_times(c: Stickers, f: Face)
    requires
        c.wf(),
    ensures
        c.turn_face(f).turn_face(f).turn_face(f).turn_face(f) == c,
{
    let c1 = c.turn_face(f);
    let c2 = c1.turn_face(f);
    let c3 = c2.turn_face(f);
    let c4 = c3.turn_face(f);
    lemma_turn_face_from(c, f, 0);
    lemma_turn_face_from(c1, f, 0);
    lemma_turn_face_from(c2, f, 0);
    lemma_turn_face_from(c3, f, 0);
    assert forall|i: int| 0 <= i < 24 implies c4.edges[i] == c.edges[i] && c4.corners[i]
        == c.corners[i] by {
        let e3 = face_edge_from(f, i);
        let e2 = face_edge_from(f, e3);
        let e1 = face_edge_from(f, e2);
        let k3 = face_corner_from(f, i);
        let k2 = face_corner_from(f, k3);
        let k1 = face_corner_from(f, k2);
        lemma_face_edge_from(f, i);
        lemma_face_corner_from(f, i);
        lemma_turn_face_from(c3, f, i);
        lemma_turn_face_from(c2, f, e3);
        lemma_turn_face_from(c2, f, k3);
        lemma_turn_face_from(c1, f, e2);
        lemma_turn_face_from(c1, f, k2);
        lemma_turn_face_from(c, f, e1);
        lemma_turn_face_from(c, f, k1);
    }
    assert(c4.edges =~= c.edges);
    assert(c4.corners =~= c.corners);
}

/// Any number of quarter turns of a layer keeps the number of stickers.
pub proof fn lemma_quarters_wf(c: Stickers, m: Move, n: nat)
    requires
        c.wf(),
        turns_layer(m),
    ensures
        c.quarters(m, n).wf(),
    decreases n,
{
    if n > 0 {
        lemma_quarters_wf(c, m, (n - 1) as nat);
        lemma_quarter_from(c.quarters(m, (n - 1) as nat), m, 0);
    }
}

/// Move involution: a turn of a face by four quarters is the identity, and
/// so is its quarter turn done four times.
pub proof fn lemma_face_turn_involution(c: Stickers, f: Face)
    requires
        c.wf(),
    ensures
        c.apply(Move::Face(f, 4)) == c,
        c.apply(Move::Face(f, 1)).apply(Move::Face(f, 1)).apply(Move::Face(f, 1)).apply(
            Move::Face(f, 1),
        ) == c,
{
    reveal_with_fuel(Stickers::quarters, 5);
    lemma_turn_face_four_times(c, f);
}

/// Inverse composition: the counter-clockwise turn of a face followed by its
/// clockwise quarter turn is the identity.
pub proof fn lemma_face_turn_inverse(c: Stickers, f: Face)
    requires
        c.wf(),
    ensures
        c.apply(Move::Face(f, 3)).apply(Move::Face(f, 1)) == c,
{
    reveal_with_fuel(Stickers::quarters, 5);
    lemma_turn_face_four_times(c, f);
}

/// On the solved cube every edge is at one position only.
pub proof fn lemma_solved_edge_once(p: int, q: int)
    requires
        0 <= p < 24,
        0 <= q < 24,
        Stickers::solved().edge_at(
            q,
            Stickers::solved().edges[p],
            Stickers::solved().edges[edge_sister(p)],
        ),
    ensures
        q == p,
{
}

/// On the solved cube every corner is at one position only.
pub proof fn lemma_solved_corner_once(p: int, q: int)
    requires
        0 <= p < 24,
        0 <= q < 24,
        Stickers::solved().corner_at(
            q,
            Stickers::solved().corners[p],
            Stickers::solved().corners[corner_next(p)],
            Stickers::solved().corners[corner_next(corner_next(p))],
        ),
    ensures
        q == p,
{
}

/// Turns of opposite faces move no facelet in common: it makes no
/// difference which of the two is undone first.
pub proof fn lemma_opposite_faces_from(f: Face, i: int)
    requires
        0 <= i < 24,
    ensures
        edge_from(Move::Face(f, 1), edge_from(Move::Face(f.spec_opposite(), 1), i)) == edge_from(
            Move::Face(f.spec_opposite(), 1),
            edge_from(Move::Face(f, 1), i),
        ),
        corner_from(Move::Face(f, 1), corner_from(Move::Face(f.spec_opposite(), 1), i))
            == corner_from(Move::Face(f.spec_opposite(), 1), corner_from(Move::Face(f, 1), i)),
{
}

/// For each edge position, the position whose sticker a quarter rotation x
/// brings to it.
pub open spec fn x_edge_sources() -> Seq<int> {
    seq![
        9int, 8, 18, 19, 1, 0, 16, 17,
        13, 12, 20, 21, 5, 4, 22, 23,
        14, 15, 10, 11, 2, 3, 6, 7,
    ]
}

/// For each edge position, the position whose sticker a quarter rotation y
/// brings to it.
pub open spec fn y_edge_sources() -> Seq<int> {
    seq![
        6int, 7, 0, 1, 2, 3, 4, 5,
        14, 15, 8, 9, 10, 11, 12, 13,
        23, 22, 17, 16, 19, 18, 21, 20,
    ]
}

/// The quarter turns that make up the rotation x, undone one after the
/// other, lead from each edge position to the one that `x_edge_sources`
/// names.
pub proof fn lemma_x_edge_sources(i: int)
    requires
        0 <= i < 24,
    ensures
        face_edge_from(
            Face::R,
            m_edge_from(
                face_edge_from(
                    Face::L,
                    m_edge_from(face_edge_from(Face::L, m_edge_from(face_edge_from(Face::L, i)))),
                ),
            ),
        ) == x_edge_sources()[i],
        edge_from(Move::Face(Face::L, 1), i) == face_edge_from(Face::L, i),
        edge_from(Move::Face(Face::R, 1), i) == face_edge_from(Face::R, i),
        edge_from(Move::Slice(Slice::M, 1), i) == m_edge_from(i),
{
    if i == 0 {
        assert(face_edge_from(Face::R, m_edge_from(face_edge_from(Face::L, m_edge_from(face_edge_from(Face::L, m_edge_from(face_edge_from(Face::L, 0))))))) == 9);
    } else if i == 1 {
        assert(face_edge_from(Face::R, m_edge_from(face_edge_from(Face::L, m_edge_from(face_edge_from(Face::L, m_edge_from(face_edge_from(Face::L, 1))))))) == 8);
    } else if i == 2 {
        assert(face_edge_from(Face::R, m_edge_from(face_edge_from(Face::L, m_edge_from(face_edge_from(Face::L, m_edge_from(face_edge_from(Face::L, 2))))))) == 18);
    } else if i == 3 {
        assert(face_edge_from(Face::R, m_edge_from(face_edge_from(Face::L, m_edge_from(face_edge_from(Face::L, m_edge_from(face_edge_from(Face::L, 3))))))) == 19);
    } else if i == 4 {
        assert(face_edge_from(Face::R, m_edge_from(face_edge_from(Face::L, m_edge_from(face_edge_from(Face::L, m_edge_from(face_edge_from(Face::L, 4))))))) == 1);
    } else if i == 5 {
        assert(face_edge_from(Face::R, m_edge_from(face_edge_from(Face::L, m_edge_from(face_edge_from(Face::L, m_edge_from(face_edge_from(Face::L, 5))))))) == 0);
    } else if i == 6 {
        assert(face_edge_from(Face::R, m_edge_from(face_edge_from(Face::L, m_edge_from(face_edge_from(Face::L, m_edge_from(face_edge_from(Face::L, 6))))))) == 16);
    } else if i == 7 {
        assert(face_edge_from(Face::R, m_edge_from(face_edge_from(Face::L, m_edge_from(face_edge_from(Face::L, m_edge_from(face_edge_from(Face::L, 7))))))) == 17);
    } else if i == 8 {
        assert(face_edge_from(Face::R, m_edge_from(face_edge_from(Face::L, m_edge_from(face_edge_from(Face::L, m_edge_from(face_edge_from(Face::L, 8))))))) == 13);
    } else if i == 9 {
        assert(face_edge_from(Face::R, m_edge_from(face_edge_from(Face::L, m_edge_from(face_edge_from(Face::L, m_edge_from(face_edge_from(Face::L, 9))))))) == 12);
    } else if i == 10 {
        assert(face_edge_from(Face::R, m_edge_from(face_edge_from(Face::L, m_edge_from(face_edge_from(Face::L, m_edge_from(face_edge_from(Face::L, 10))))))) == 20);
    } else if i == 11 {
        assert(face_edge_from(Face::R, m_edge_from(face_edge_from(Face::L, m_edge_from(face_edge_from(Face::L, m_edge_from(face_edge_from(Face::L, 11))))))) == 21);
    } else if i == 12 {
        assert(face_edge_from(Face::R, m_edge_from(face_edge_from(Face::L, m_edge_from(face_edge_from(Face::L, m_edge_from(face_edge_from(Face::L, 12))))))) == 5);
    } else if i == 13 {
        assert(face_edge_from(Face::R, m_edge_from(face_edge_from(Face::L, m_edge_from(face_edge_from(Face::L, m_edge_from(face_edge_from(Face::L, 13))))))) == 4);
    } else if i == 14 {
        assert(face_edge_from(Face::R, m_edge_from(face_edge_from(Face::L, m_edge_from(face_edge_from(Face::L, m_edge_from(face_edge_from(Face::L, 14))))))) == 22);
    } else if i == 15 {
        assert(face_edge_from(Face::R, m_edge_from(face_edge_from(Face::L, m_edge_from(face_edge_from(Face::L, m_edge_from(face_edge_from(Face::L, 15))))))) == 23);
    } else if i == 16 {
        assert(face_edge_from(Face::R, m_edge_from(face_edge_from(Face::L, m_edge_from(face_edge_from(Face::L, m_edge_from(face_edge_from(Face::L, 16))))))) == 14);
    } else if i == 17 {
        assert(face_edge_from(Face::R, m_edge_from(face_edge_from(Face::L, m_edge_from(face_edge_from(Face::L, m_edge_from(face_edge_from(Face::L, 17))))))) == 15);
    } else if i == 18 {
        assert(face_edge_from(Face::R, m_edge_from(face_edge_from(Face::L, m_edge_from(face_edge_from(Face::L, m_edge_from(face_edge_from(Face::L, 18))))))) == 10);
    } else if i == 19 {
        assert(face_edge_from(Face::R, m_edge_from(face_edge_from(Face::L, m_edge_from(face_edge_from(Face::L, m_edge_from(face_edge_from(Face::L, 19))))))) == 11);
    } else if i == 20 {
        assert(face_edge_from(Face::R, m_edge_from(face_edge_from(Face::L, m_edge_from(face_edge_from(Face::L, m_edge_from(face_edge_from(Face::L, 20))))))) == 2);
    } else if i == 21 {
        assert(face_edge_from(Face::R, m_edge_from(face_edge_from(Face::L, m_edge_from(face_edge_from(Face::L, m_edge_from(face_edge_from(Face::L, 21))))))) == 3);
    } else if i == 22 {
        assert(face_edge_from(Face::R, m_edge_from(face_edge_from(Face::L, m_edge_from(face_edge_from(Face::L, m_edge_from(face_edge_from(Face::L, 22))))))) == 6);
    } else if i == 23 {
        assert(face_edge_from(Face::R, m_edge_from(face_edge_from(Face::L, m_edge_from(face_edge_from(Face::L, m_edge_from(face_edge_from(Face::L, 23))))))) == 7);
    }
}

/// The quarter turns that make up the rotation y, undone one after the
/// other, lead from each edge position to the one that `y_edge_sources`
/// names.
pub proof fn lemma_y_edge_sources(i: int)
    requires
        0 <= i < 24,
    ensures
        face_edge_from(
            Face::U,
            e_edge_from(
                face_edge_from(
                    Face::D,
                    e_edge_from(face_edge_from(Face::D, e_edge_from(face_edge_from(Face::D, i)))),
                ),
            ),
        ) == y_edge_sources()[i],
        edge_from(Move::Face(Face::D, 1), i) == face_edge_from(Face::D, i),
        edge_from(Move::Face(Face::U, 1), i) == face_edge_from(Face::U, i),
        edge_from(Move::Slice(Slice::E, 1), i) == e_edge_from(i),
{
    if i == 0 {
        assert(face_edge_from(Face::U, e_edge_from(face_edge_from(Face::D, e_edge_from(face_edge_from(Face::D, e_edge_from(face_edge_from(Face::D, 0))))))) == 6);
    } else if i == 1 {
        assert(face_edge_from(Face::U, e_edge_from(face_edge_from(Face::D, e_edge_from(face_edge_from(Face::D, e_edge_from(face_edge_from(Face::D, 1))))))) == 7);
    } else if i == 2 {
        assert(face_edge_from(Face::U, e_edge_from(face_edge_from(Face::D, e_edge_from(face_edge_from(Face::D, e_edge_from(face_edge_from(Face::D, 2))))))) == 0);
    } else if i == 3 {
        assert(face_edge_from(Face::U, e_edge_from(face_edge_from(Face::D, e_edge_from(face_edge_from(Face::D, e_edge_from(face_edge_from(Face::D, 3))))))) == 1);
    } else if i == 4 {
        assert(face_edge_from(Face::U, e_edge_from(face_edge_from(Face::D, e_edge_from(face_edge_from(Face::D, e_edge_from(face_edge_from(Face::D, 4))))))) == 2);
    } else if i == 5 {
        assert(face_edge_from(Face::U, e_edge_from(face_edge_from(Face::D, e_edge_from(face_edge_from(Face::D, e_edge_from(face_edge_from(Face::D, 5))))))) == 3);
    } else if i == 6 {
        assert(face_edge_from(Face::U, e_edge_from(face_edge_from(Face::D, e_edge_from(face_edge_from(Face::D, e_edge_from(face_edge_from(Face::D, 6))))))) == 4);
    } else if i == 7 {
        assert(face_edge_from(Face::U, e_edge_from(face_edge_from(Face::D, e_edge_from(face_edge_from(Face::D, e_edge_from(face_edge_from(Face::D, 7))))))) == 5);
    } else if i == 8 {
        assert(face_edge_from(Face::U, e_edge_from(face_edge_from(Face::D, e_edge_from(face_edge_from(Face::D, e_edge_from(face_edge_from(Face::D, 8))))))) == 14);
    } else if i == 9 {
        assert(face_edge_from(Face::U, e_edge_from(face_edge_from(Face::D, e_edge_from(face_edge_from(Face::D, e_edge_from(face_edge_from(Face::D, 9))))))) == 15);
    } else if i == 10 {
        assert(face_edge_from(Face::U, e_edge_from(face_edge_from(Face::D, e_edge_from(face_edge_from(Face::D, e_edge_from(face_edge_from(Face::D, 10))))))) == 8);
    } else if i == 11 {
        assert(face_edge_from(Face::U, e_edge_from(face_edge_from(Face::D, e_edge_from(face_edge_from(Face::D, e_edge_from(face_edge_from(Face::D, 11))))))) == 9);
    } else if i == 12 {
        assert(face_edge_from(Face::U, e_edge_from(face_edge_from(Face::D, e_edge_from(face_edge_from(Face::D, e_edge_from(face_edge_from(Face::D, 12))))))) == 10);
    } else if i == 13 {
        assert(face_edge_from(Face::U, e_edge_from(face_edge_from(Face::D, e_edge_from(face_edge_from(Face::D, e_edge_from(face_edge_from(Face::D, 13))))))) == 11);
    } else if i == 14 {
        assert(face_edge_from(Face::U, e_edge_from(face_edge_from(Face::D, e_edge_from(face_edge_from(Face::D, e_edge_from(face_edge_from(Face::D, 14))))))) == 12);
    } else if i == 15 {
        assert(face_edge_from(Face::U, e_edge_from(face_edge_from(Face::D, e_edge_from(face_edge_from(Face::D, e_edge_from(face_edge_from(Face::D, 15))))))) == 13);
    } else if i == 16 {
        assert(face_edge_from(Face::U, e_edge_from(face_edge_from(Face::D, e_edge_from(face_edge_from(Face::D, e_edge_from(face_edge_from(Face::D, 16))))))) == 23);
    } else if i == 17 {
        assert(face_edge_from(Face::U, e_edge_from(face_edge_from(Face::D, e_edge_from(face_edge_from(Face::D, e_edge_from(face_edge_from(Face::D, 17))))))) == 22);
    } else if i == 18 {
        assert(face_edge_from(Face::U, e_edge_from(face_edge_from(Face::D, e_edge_from(face_edge_from(Face::D, e_edge_from(face_edge_from(Face::D, 18))))))) == 17);
    } else if i == 19 {
        assert(face_edge_from(Face::U, e_edge_from(face_edge_from(Face::D, e_edge_from(face_edge_from(Face::D, e_edge_from(face_edge_from(Face::D, 19))))))) == 16);
    } else if i == 20 {
        assert(face_edge_from(Face::U, e_edge_from(face_edge_from(Face::D, e_edge_from(face_edge_from(Face::D, e_edge_from(face_edge_from(Face::D, 20))))))) == 19);
    } else if i == 21 {
        assert(face_edge_from(Face::U, e_edge_from(face_edge_from(Face::D, e_edge_from(face_edge_from(Face::D, e_edge_from(face_edge_from(Face::D, 21))))))) == 18);
    } else if i == 22 {
        assert(face_edge_from(Face::U, e_edge_from(face_edge_from(Face::D, e_edge_from(face_edge_from(Face::D, e_edge_from(face_edge_from(Face::D, 22))))))) == 21);
    } else if i == 23 {
        assert(face_edge_from(Face::U, e_edge_from(face_edge_from(Face::D, e_edge_from(face_edge_from(Face::D, e_edge_from(face_edge_from(Face::D, 23))))))) == 20);
    }
}

/// Where the facelet at FU goes under two quarter turns of U and one of M:
/// to LU, to BU, and from there to UF. Each step forward is three steps
/// back.
pub proof fn lemma_flipped_edge_home()
    ensures
        ({
            let u = Move::Face(Face::U, 1);
            let m = Move::Slice(Slice::M, 1);
            &&& edge_from(u, edge_from(u, edge_from(u, 1))) == 3
            &&& edge_from(u, edge_from(u, edge_from(u, 3))) == 5
            &&& edge_from(m, edge_from(m, edge_from(m, 5))) == 0
        }),
{
}

/// The amount of a move has no part in what a quarter turn of it does.
pub proof fn lemma_quarters_same_movement(c: Stickers, m1: Move, m2: Move, n: nat)
    requires
        m1.same_movement(m2),
    ensures
        c.quarters(m1, n) == c.quarters(m2, n),
    decreases n,
{
    if n > 0 {
        lemma_quarters_same_movement(c, m1, m2, (n - 1) as nat);
    }
}

/// Moves one after the other: the rest goes on from where the first leads.
pub proof fn lemma_apply_all_first(c: Stickers, ms: Seq<Move>)
    requires
        ms.len() > 0,
    ensures
        c.apply_all(ms) == c.apply(ms[0]).apply_all(ms.skip(1)),
    decreases ms.len(),
{
    reveal_with_fuel(Stickers::apply_all, 2);
    if ms.len() == 1 {
        assert(ms.drop_last() =~= Seq::<Move>::empty());
        assert(ms.skip(1) =~= Seq::<Move>::empty());
        assert(ms.last() == ms[0]);
    } else {
        lemma_apply_all_first(c, ms.drop_last());
        assert(ms.drop_last()[0] == ms[0]);
        assert(ms.drop_last().skip(1) =~= ms.skip(1).drop_last());
        assert(ms.skip(1).last() == ms.last());
    }
}

} // verus!
