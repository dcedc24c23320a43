//! The 24 ways to hold the cube: for each edge position, the rotations that
//! bring what is there to the place DL.

use vstd::prelude::*;
use crate::cube::{Face, Move, Rotation};
use crate::cube::laws::{
    e_edge_from, face_edge_from, lemma_turn_e_from, lemma_turn_face_from, lemma_turn_m_from,
    lemma_x_edge_sources, lemma_y_edge_sources, m_edge_from, x_edge_sources, y_edge_sources,
};
use crate::cube::sticker_cube::{edge_sister, EdgePos, Stickers};

verus! {

/// The rotations that bring the edge facelet at `e` to DL, and the other
/// facelet of its cubie to LD.
#[verifier::opaque]
pub open spec fn dl_orientation(e: EdgePos) -> Seq<Move> {
    match e {
        EdgePos::UF => seq![Move::Rotation(Rotation::X, 2), Move::Rotation(Rotation::Y, 3)],
        EdgePos::FU => seq![Move::Rotation(Rotation::X, 3), Move::Rotation(Rotation::Y, 1)],
        EdgePos::UL => seq![Move::Rotation(Rotation::X, 2)],
        EdgePos::LU => seq![Move::Rotation(Rotation::Y, 1), Move::Rotation(Rotation::X, 1), Move::Rotation(Rotation::Y, 3)],
        EdgePos::UB => seq![Move::Rotation(Rotation::X, 2), Move::Rotation(Rotation::Y, 1)],
        EdgePos::BU => seq![Move::Rotation(Rotation::X, 1), Move::Rotation(Rotation::Y, 3)],
        EdgePos::UR => seq![Move::Rotation(Rotation::X, 2), Move::Rotation(Rotation::Y, 2)],
        EdgePos::RU => seq![Move::Rotation(Rotation::Y, 1), Move::Rotation(Rotation::X, 3), Move::Rotation(Rotation::Y, 1)],
        EdgePos::DF => seq![Move::Rotation(Rotation::Y, 1)],
        EdgePos::FD => seq![Move::Rotation(Rotation::X, 3), Move::Rotation(Rotation::Y, 3)],
        EdgePos::DL => Seq::empty(),
        EdgePos::LD => seq![Move::Rotation(Rotation::Y, 1), Move::Rotation(Rotation::X, 1), Move::Rotation(Rotation::Y, 1)],
        EdgePos::DB => seq![Move::Rotation(Rotation::Y, 3)],
        EdgePos::BD => seq![Move::Rotation(Rotation::X, 1), Move::Rotation(Rotation::Y, 1)],
        EdgePos::DR => seq![Move::Rotation(Rotation::Y, 2)],
        EdgePos::RD => seq![Move::Rotation(Rotation::Y, 1), Move::Rotation(Rotation::X, 3), Move::Rotation(Rotation::Y, 3)],
        EdgePos::FR => seq![Move::Rotation(Rotation::X, 3), Move::Rotation(Rotation::Y, 2)],
        EdgePos::RF => seq![Move::Rotation(Rotation::Y, 3), Move::Rotation(Rotation::X, 1), Move::Rotation(Rotation::Y, 2)],
        EdgePos::FL => seq![Move::Rotation(Rotation::X, 3)],
        EdgePos::LF => seq![Move::Rotation(Rotation::Y, 3), Move::Rotation(Rotation::X, 3), Move::Rotation(Rotation::Y, 2)],
        EdgePos::BL => seq![Move::Rotation(Rotation::X, 1)],
        EdgePos::LB => seq![Move::Rotation(Rotation::Y, 1), Move::Rotation(Rotation::X, 1), Move::Rotation(Rotation::Y, 2)],
        EdgePos::BR => seq![Move::Rotation(Rotation::X, 1), Move::Rotation(Rotation::Y, 2)],
        EdgePos::RB => seq![Move::Rotation(Rotation::Y, 1), Move::Rotation(Rotation::X, 3), Move::Rotation(Rotation::Y, 2)],
    }
}

/// The rotations that bring the edge facelet at `e` to DL, and the other
/// facelet of its cubie to LD.
pub fn dl_orientations(e: EdgePos) -> (moves: Vec<Move>)
    ensures
        moves@ == dl_orientation(e),
{
    proof {
        reveal(dl_orientation);
    }
    let moves = match e {
        EdgePos::UF => vec![Move::Rotation(Rotation::X, 2), Move::Rotation(Rotation::Y, 3)],
        EdgePos::FU => vec![Move::Rotation(Rotation::X, 3), Move::Rotation(Rotation::Y, 1)],
        EdgePos::UL => vec![Move::Rotation(Rotation::X, 2)],
        EdgePos::LU => vec![Move::Rotation(Rotation::Y, 1), Move::Rotation(Rotation::X, 1), Move::Rotation(Rotation::Y, 3)],
        EdgePos::UB => vec![Move::Rotation(Rotation::X, 2), Move::Rotation(Rotation::Y, 1)],
        EdgePos::BU => vec![Move::Rotation(Rotation::X, 1), Move::Rotation(Rotation::Y, 3)],
        EdgePos::UR => vec![Move::Rotation(Rotation::X, 2), Move::Rotation(Rotation::Y, 2)],
        EdgePos::RU => vec![Move::Rotation(Rotation::Y, 1), Move::Rotation(Rotation::X, 3), Move::Rotation(Rotation::Y, 1)],
        EdgePos::DF => vec![Move::Rotation(Rotation::Y, 1)],
        EdgePos::FD => vec![Move::Rotation(Rotation::X, 3), Move::Rotation(Rotation::Y, 3)],
        EdgePos::DL => Vec::new(),
        EdgePos::LD => vec![Move::Rotation(Rotation::Y, 1), Move::Rotation(Rotation::X, 1), Move::Rotation(Rotation::Y, 1)],
        EdgePos::DB => vec![Move::Rotation(Rotation::Y, 3)],
        EdgePos::BD => vec![Move::Rotation(Rotation::X, 1), Move::Rotation(Rotation::Y, 1)],
        EdgePos::DR => vec![Move::Rotation(Rotation::Y, 2)],
        EdgePos::RD => vec![Move::Rotation(Rotation::Y, 1), Move::Rotation(Rotation::X, 3), Move::Rotation(Rotation::Y, 3)],
        EdgePos::FR => vec![Move::Rotation(Rotation::X, 3), Move::Rotation(Rotation::Y, 2)],
        EdgePos::RF => vec![Move::Rotation(Rotation::Y, 3), Move::Rotation(Rotation::X, 1), Move::Rotation(Rotation::Y, 2)],
        EdgePos::FL => vec![Move::Rotation(Rotation::X, 3)],
        EdgePos::LF => vec![Move::Rotation(Rotation::Y, 3), Move::Rotation(Rotation::X, 3), Move::Rotation(Rotation::Y, 2)],
        EdgePos::BL => vec![Move::Rotation(Rotation::X, 1)],
        EdgePos::LB => vec![Move::Rotation(Rotation::Y, 1), Move::Rotation(Rotation::X, 1), Move::Rotation(Rotation::Y, 2)],
        EdgePos::BR => vec![Move::Rotation(Rotation::X, 1), Move::Rotation(Rotation::Y, 2)],
        EdgePos::RB => vec![Move::Rotation(Rotation::Y, 1), Move::Rotation(Rotation::X, 3), Move::Rotation(Rotation::Y, 2)],
    };
    assert(moves@ =~= dl_orientation(e));
    moves
}

/// The rotations of `dl_orientation` are x and y, by one to three quarter
/// turns.
pub proof fn lemma_dl_orientation(e: EdgePos)
    ensures
        dl_orientation(e).len() <= 3,
        forall|i: int|
            0 <= i < dl_orientation(e).len() ==> {
                let m = #[trigger] dl_orientation(e)[i];
                &&& m is Rotation
                &&& m.supported()
                &&& 1 <= m.spec_amount() <= 3
            },
{
    reveal(dl_orientation);
}

/// The edge position whose sticker `n` quarter rotations bring to `i`:
/// rotations x, or y where `about_y` is set.
pub open spec fn turned_edge_from(about_y: bool, n: nat, i: int) -> int
    decreases n,
{
    if n == 0 {
        i
    } else if about_y {
        turned_edge_from(about_y, (n - 1) as nat, y_edge_sources()[i])
    } else {
        turned_edge_from(about_y, (n - 1) as nat, x_edge_sources()[i])
    }
}

/// The edge position whose sticker the rotation `m` brings to `i`.
pub open spec fn rotation_edge_from(m: Move, i: int) -> int {
    turned_edge_from(m == Move::Rotation(Rotation::Y, m.spec_amount()), m.spec_amount() as nat, i)
}

/// The edge position whose sticker the rotations `ms`, one after the
/// other, bring to `i`.
pub open spec fn rotations_edge_from(ms: Seq<Move>, i: int) -> int
    decreases ms.len(),
{
    if ms.len() == 0 {
        i
    } else {
        rotations_edge_from(ms.drop_last(), rotation_edge_from(ms.last(), i))
    }
}

/// After a quarter rotation x each edge position shows the sticker of the
/// position that `x_edge_sources` names.
pub proof fn lemma_rotate_x_from(c: Stickers, i: int)
    requires
        c.wf(),
        0 <= i < 24,
    ensures
        c.rotate_x().wf(),
        c.rotate_x().edges[i] == c.edges[x_edge_sources()[i]],
        0 <= x_edge_sources()[i] < 24,
{
    let x1 = c.turn_r();
    let x2 = x1.turn_m();
    let x3 = x2.turn_l();
    let x4 = x3.turn_m();
    let x5 = x4.turn_l();
    let x6 = x5.turn_m();
    let i6 = face_edge_from(Face::L, i);
    let i5 = m_edge_from(i6);
    let i4 = face_edge_from(Face::L, i5);
    let i3 = m_edge_from(i4);
    let i2 = face_edge_from(Face::L, i3);
    let i1 = m_edge_from(i2);
    lemma_x_edge_sources(i);
    lemma_turn_face_from(c, Face::R, 0);
    lemma_turn_m_from(x1, 0);
    lemma_turn_face_from(x2, Face::L, 0);
    lemma_turn_m_from(x3, 0);
    lemma_turn_face_from(x4, Face::L, 0);
    lemma_turn_m_from(x5, 0);
    lemma_turn_face_from(x6, Face::L, i);
    lemma_turn_m_from(x5, i6);
    lemma_turn_face_from(x4, Face::L, i5);
    lemma_turn_m_from(x3, i4);
    lemma_turn_face_from(x2, Face::L, i3);
    lemma_turn_m_from(x1, i2);
    lemma_turn_face_from(c, Face::R, i1);
}

/// After a quarter rotation y each edge position shows the sticker of the
/// position that `y_edge_sources` names.
pub proof fn lemma_rotate_y_from(c: Stickers, i: int)
    requires
        c.wf(),
        0 <= i < 24,
    ensures
        c.rotate_y().wf(),
        c.rotate_y().edges[i] == c.edges[y_edge_sources()[i]],
        0 <= y_edge_sources()[i] < 24,
{
    let y1 = c.turn_u();
    let y2 = y1.turn_e();
    let y3 = y2.turn_d();
    let y4 = y3.turn_e();
    let y5 = y4.turn_d();
    let y6 = y5.turn_e();
    let j6 = face_edge_from(Face::D, i);
    let j5 = e_edge_from(j6);
    let j4 = face_edge_from(Face::D, j5);
    let j3 = e_edge_from(j4);
    let j2 = face_edge_from(Face::D, j3);
    let j1 = e_edge_from(j2);
    lemma_y_edge_sources(i);
    lemma_turn_face_from(c, Face::U, 0);
    lemma_turn_e_from(y1, 0);
    lemma_turn_face_from(y2, Face::D, 0);
    lemma_turn_e_from(y3, 0);
    lemma_turn_face_from(y4, Face::D, 0);
    lemma_turn_e_from(y5, 0);
    lemma_turn_face_from(y6, Face::D, i);
    lemma_turn_e_from(y5, j6);
    lemma_turn_face_from(y4, Face::D, j5);
    lemma_turn_e_from(y3, j4);
    lemma_turn_face_from(y2, Face::D, j3);
    lemma_turn_e_from(y1, j2);
    lemma_turn_face_from(c, Face::U, j1);
}

/// After a rotation x or y each edge position shows the sticker of the
/// position that `rotation_edge_from` names.
pub proof fn lemma_quarters_from(c: Stickers, m: Move, n: nat, i: int)
    requires
        c.wf(),
        m is Rotation,
        m.supported(),
        0 <= i < 24,
    ensures
        c.quarters(m, n).wf(),
        c.quarters(m, n).edges[i] == c.edges[turned_edge_from(
            m == Move::Rotation(Rotation::Y, m.spec_amount()),
            n,
            i,
        )],
        0 <= turned_edge_from(m == Move::Rotation(Rotation::Y, m.spec_amount()), n, i) < 24,
    decreases n,
{
    if n > 0 {
        let before = c.quarters(m, (n - 1) as nat);
        lemma_quarters_from(c, m, (n - 1) as nat, 0);
        if m == Move::Rotation(Rotation::Y, m.spec_amount()) {
            assert(c.quarters(m, n) == before.rotate_y());
            lemma_rotate_y_from(before, i);
            lemma_quarters_from(c, m, (n - 1) as nat, y_edge_sources()[i]);
        } else {
            assert(c.quarters(m, n) == before.rotate_x());
            lemma_rotate_x_from(before, i);
            lemma_quarters_from(c, m, (n - 1) as nat, x_edge_sources()[i]);
        }
    }
}

/// After a rotation x or y each edge position shows the sticker of the
/// position that `rotation_edge_from` names.
pub proof fn lemma_rotation_from(c: Stickers, m: Move, i: int)
    requires
        c.wf(),
        m is Rotation,
        m.supported(),
        0 <= i < 24,
    ensures
        c.apply(m).wf(),
        c.apply(m).edges[i] == c.edges[rotation_edge_from(m, i)],
        0 <= rotation_edge_from(m, i) < 24,
{
    lemma_quarters_from(c, m, m.spec_amount() as nat, i);
}

/// After rotations x and y each edge position shows the sticker of the
/// position that `rotations_edge_from` names.
pub proof fn lemma_rotations_from(c: Stickers, ms: Seq<Move>, i: int)
    requires
        c.wf(),
        forall|k: int|
            0 <= k < ms.len() ==> (#[trigger] ms[k]) is Rotation && ms[k].supported() && 1
                <= ms[k].spec_amount() <= 3,
        0 <= i < 24,
    ensures
        c.apply_all(ms).wf(),
        c.apply_all(ms).edges[i] == c.edges[rotations_edge_from(ms, i)],
        0 <= rotations_edge_from(ms, i) < 24,
    decreases ms.len(),
{
    if ms.len() > 0 {
        let before = c.apply_all(ms.drop_last());
        lemma_rotations_from(c, ms.drop_last(), 0);
        lemma_rotation_from(before, ms.last(), i);
        lemma_rotations_from(c, ms.drop_last(), rotation_edge_from(ms.last(), i));
    }
}

/// The rotations of an edge position lead back from DL to the position,
/// and from LD to the other facelet of its cubie.
proof fn lemma_dl_orientation_from(e: EdgePos)
    ensures
        rotations_edge_from(dl_orientation(e), EdgePos::DL.spec_index()) == e.spec_index(),
        rotations_edge_from(dl_orientation(e), EdgePos::LD.spec_index()) == edge_sister(
            e.spec_index(),
        ),
{
    reveal(dl_orientation);
    reveal_with_fuel(rotations_edge_from, 4);
    reveal_with_fuel(turned_edge_from, 4);
    let ms = dl_orientation(e);
    if ms.len() == 1 {
        assert(ms.drop_last() =~= Seq::<Move>::empty());
    } else if ms.len() == 2 {
        assert(ms.drop_last() =~= seq![ms[0]]);
        assert(ms.drop_last().drop_last() =~= Seq::<Move>::empty());
    } else if ms.len() == 3 {
        assert(ms.drop_last() =~= seq![ms[0], ms[1]]);
        assert(ms.drop_last().drop_last() =~= seq![ms[0]]);
        assert(ms.drop_last().drop_last().drop_last() =~= Seq::<Move>::empty());
    }
}

/// On every cube, the rotations of an edge position bring the sticker
/// that is there to DL, and the other sticker of its cubie to LD.
pub proof fn lemma_dl_orientation_brings(c: Stickers, e: EdgePos)
    requires
        c.wf(),
    ensures
        c.apply_all(dl_orientation(e)).edges[EdgePos::DL.spec_index()] == c.edges[e.spec_index()],
        c.apply_all(dl_orientation(e)).edges[EdgePos::LD.spec_index()] == c.edges[edge_sister(
            e.spec_index(),
        )],
{
    lemma_dl_orientation(e);
    lemma_dl_orientation_from(e);
    lemma_rotations_from(c, dl_orientation(e), EdgePos::DL.spec_index());
    lemma_rotations_from(c, dl_orientation(e), EdgePos::LD.spec_index());
}

} // verus!
