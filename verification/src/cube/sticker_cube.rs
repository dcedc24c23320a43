//! The sticker model of the cube: one colour for each facelet of the edges,
//! the corners and the centres, and the quarter turns as cycles of facelets.

use vstd::prelude::*;
use vstd::pervasive::unreached;
use crate::cube::{Face, Move, Rotation, Slice};

verus! {

/// Represents a particular edge position on a cube.
/// Note: This represents a position, not a particular piece.
///
/// The two facelets of one edge cubie are neighbours: an even position and
/// the odd one after it.
#[derive(Clone, Copy, Debug, PartialEq, Eq, Structural)]
pub enum EdgePos {
    UF,
    FU,
    UL,
    LU,
    UB,
    BU,
    UR,
    RU,
    DF,
    FD,
    DL,
    LD,
    DB,
    BD,
    DR,
    RD,
    FR,
    RF,
    FL,
    LF,
    BL,
    LB,
    BR,
    RB,
}

/// Represents a particular corner position on a cube.
/// Note: This represents a position, not a particular piece.
///
/// The three facelets of one corner cubie follow each other, clockwise as
/// seen from outside, from a position that is a multiple of three.
#[derive(Clone, Copy, Debug, PartialEq, Eq, Structural)]
pub enum CornerPos {
    URF,
    RFU,
    FUR,
    UFL,
    FLU,
    LUF,
    ULB,
    LBU,
    BUL,
    UBR,
    BRU,
    RUB,
    DFR,
    FRD,
    RDF,
    DLF,
    LFD,
    FDL,
    DBL,
    BLD,
    LDB,
    DRB,
    RBD,
    BDR,
}

/// Represents a particular centre position on a cube.
/// Note: This represents a position, not a particular piece.
#[derive(Clone, Copy, Debug, PartialEq, Eq, Structural)]
pub enum CentrePos {
    U,
    R,
    F,
    D,
    B,
    L,
}

impl EdgePos {
    /// The place of the position in the natural order.
    pub open spec fn spec_index(self) -> int {
        match self {
            EdgePos::UF => 0,
            EdgePos::FU => 1,
            EdgePos::UL => 2,
            EdgePos::LU => 3,
            EdgePos::UB => 4,
            EdgePos::BU => 5,
            EdgePos::UR => 6,
            EdgePos::RU => 7,
            EdgePos::DF => 8,
            EdgePos::FD => 9,
            EdgePos::DL => 10,
            EdgePos::LD => 11,
            EdgePos::DB => 12,
            EdgePos::BD => 13,
            EdgePos::DR => 14,
            EdgePos::RD => 15,
            EdgePos::FR => 16,
            EdgePos::RF => 17,
            EdgePos::FL => 18,
            EdgePos::LF => 19,
            EdgePos::BL => 20,
            EdgePos::LB => 21,
            EdgePos::BR => 22,
            EdgePos::RB => 23,
        }
    }

    /// The place of the position in the natural order.
    pub fn index(self) -> (i: usize)
        ensures
            i == self.spec_index(),
            i < 24,
    {
        self as usize
    }

    /// All edge positions in their natural order.
    pub open spec fn order() -> Seq<EdgePos> {
        seq![
            EdgePos::UF,
            EdgePos::FU,
            EdgePos::UL,
            EdgePos::LU,
            EdgePos::UB,
            EdgePos::BU,
            EdgePos::UR,
            EdgePos::RU,
            EdgePos::DF,
            EdgePos::FD,
            EdgePos::DL,
            EdgePos::LD,
            EdgePos::DB,
            EdgePos::BD,
            EdgePos::DR,
            EdgePos::RD,
            EdgePos::FR,
            EdgePos::RF,
            EdgePos::FL,
            EdgePos::LF,
            EdgePos::BL,
            EdgePos::LB,
            EdgePos::BR,
            EdgePos::RB,
        ]
    }

    /// All edge positions, each at its own index.
    pub fn natural_order() -> (order: &'static [EdgePos; 24])
        ensures
            order@ == EdgePos::order(),
            forall|i: int| 0 <= i < 24 ==> (#[trigger] order@[i]).spec_index() == i,
    {
        &[
            EdgePos::UF,
            EdgePos::FU,
            EdgePos::UL,
            EdgePos::LU,
            EdgePos::UB,
            EdgePos::BU,
            EdgePos::UR,
            EdgePos::RU,
            EdgePos::DF,
            EdgePos::FD,
            EdgePos::DL,
            EdgePos::LD,
            EdgePos::DB,
            EdgePos::BD,
            EdgePos::DR,
            EdgePos::RD,
            EdgePos::FR,
            EdgePos::RF,
            EdgePos::FL,
            EdgePos::LF,
            EdgePos::BL,
            EdgePos::LB,
            EdgePos::BR,
            EdgePos::RB,
        ]
    }
}

impl CornerPos {
    /// The place of the position in the natural order.
    pub open spec fn spec_index(self) -> int {
        match self {
            CornerPos::URF => 0,
            CornerPos::RFU => 1,
            CornerPos::FUR => 2,
            CornerPos::UFL => 3,
            CornerPos::FLU => 4,
            CornerPos::LUF => 5,
            CornerPos::ULB => 6,
            CornerPos::LBU => 7,
            CornerPos::BUL => 8,
            CornerPos::UBR => 9,
            CornerPos::BRU => 10,
            CornerPos::RUB => 11,
            CornerPos::DFR => 12,
            CornerPos::FRD => 13,
            CornerPos::RDF => 14,
            CornerPos::DLF => 15,
            CornerPos::LFD => 16,
            CornerPos::FDL => 17,
            CornerPos::DBL => 18,
            CornerPos::BLD => 19,
            CornerPos::LDB => 20,
            CornerPos::DRB => 21,
            CornerPos::RBD => 22,
            CornerPos::BDR => 23,
        }
    }

    /// The place of the position in the natural order.
    pub fn index(self) -> (i: usize)
        ensures
            i == self.spec_index(),
            i < 24,
    {
        self as usize
    }

    /// All corner positions in their natural order.
    pub open spec fn order() -> Seq<CornerPos> {
        seq![
            CornerPos::URF,
            CornerPos::RFU,
            CornerPos::FUR,
            CornerPos::UFL,
            CornerPos::FLU,
            CornerPos::LUF,
            CornerPos::ULB,
            CornerPos::LBU,
            CornerPos::BUL,
            CornerPos::UBR,
            CornerPos::BRU,
            CornerPos::RUB,
            CornerPos::DFR,
            CornerPos::FRD,
            CornerPos::RDF,
            CornerPos::DLF,
            CornerPos::LFD,
            CornerPos::FDL,
            CornerPos::DBL,
            CornerPos::BLD,
            CornerPos::LDB,
            CornerPos::DRB,
            CornerPos::RBD,
            CornerPos::BDR,
        ]
    }

    /// All corner positions, each at its own index.
    pub fn natural_order() -> (order: &'static [CornerPos; 24])
        ensures
            order@ == CornerPos::order(),
            forall|i: int| 0 <= i < 24 ==> (#[trigger] order@[i]).spec_index() == i,
    {
        &[
            CornerPos::URF,
            CornerPos::RFU,
            CornerPos::FUR,
            CornerPos::UFL,
            CornerPos::FLU,
            CornerPos::LUF,
            CornerPos::ULB,
            CornerPos::LBU,
            CornerPos::BUL,
            CornerPos::UBR,
            CornerPos::BRU,
            CornerPos::RUB,
            CornerPos::DFR,
            CornerPos::FRD,
            CornerPos::RDF,
            CornerPos::DLF,
            CornerPos::LFD,
            CornerPos::FDL,
            CornerPos::DBL,
            CornerPos::BLD,
            CornerPos::LDB,
            CornerPos::DRB,
            CornerPos::RBD,
            CornerPos::BDR,
        ]
    }
}

impl CentrePos {
    /// The place of the centre in the order U, R, F, D, B, L.
    pub open spec fn spec_index(self) -> int {
        match self {
            CentrePos::U => 0,
            CentrePos::R => 1,
            CentrePos::F => 2,
            CentrePos::D => 3,
            CentrePos::B => 4,
            CentrePos::L => 5,
        }
    }

    /// The place of the centre in the order U, R, F, D, B, L.
    pub fn index(self) -> (i: usize)
        ensures
            i == self.spec_index(),
            i < 6,
    {
        self as usize
    }
}

/// The other facelet of the edge cubie that holds facelet `p`.
pub open spec fn edge_sister(p: int) -> int {
    if p % 2 == 0 {
        p + 1
    } else {
        p - 1
    }
}

/// The facelet that follows `p` clockwise on its corner cubie.
pub open spec fn corner_next(p: int) -> int {
    if p % 3 == 2 {
        p - 2
    } else {
        p + 1
    }
}

/// The three facelets of corner cubie `k` follow each other in a circle.
pub proof fn lemma_corner_triple(k: int)
    requires
        0 <= k < 8,
    ensures
        corner_next(3 * k) == 3 * k + 1,
        corner_next(3 * k + 1) == 3 * k + 2,
        corner_next(3 * k + 2) == 3 * k,
{
}

/// One cycle of four facelets: `b` gets what `a` held, `c` what `b` held, `d`
/// what `c` held and `a` what `d` held.
pub open spec fn cycle4(s: Seq<Face>, a: int, b: int, c: int, d: int) -> Seq<Face> {
    s.update(a, s[d]).update(b, s[a]).update(c, s[b]).update(d, s[c])
}

/// Four edge positions that a quarter turn cycles.
pub type EdgeCycle = (EdgePos, EdgePos, EdgePos, EdgePos);

/// Four corner positions that a quarter turn cycles.
pub type CornerCycle = (CornerPos, CornerPos, CornerPos, CornerPos);

/// Four centres that a quarter turn cycles.
pub type CentreCycle = (CentrePos, CentrePos, CentrePos, CentrePos);

/// `cycle4` on four edge positions.
pub open spec fn edge_cycle(s: Seq<Face>, c: EdgeCycle) -> Seq<Face> {
    cycle4(s, c.0.spec_index(), c.1.spec_index(), c.2.spec_index(), c.3.spec_index())
}

/// `cycle4` on four corner positions.
pub open spec fn corner_cycle(s: Seq<Face>, c: CornerCycle) -> Seq<Face> {
    cycle4(s, c.0.spec_index(), c.1.spec_index(), c.2.spec_index(), c.3.spec_index())
}

/// `cycle4` on four centres.
pub open spec fn centre_cycle(s: Seq<Face>, c: CentreCycle) -> Seq<Face> {
    cycle4(s, c.0.spec_index(), c.1.spec_index(), c.2.spec_index(), c.3.spec_index())
}

/// The two cycles of edge facelets that a clockwise quarter turn of face `f`
/// makes: the facelets on the face, and their sisters around it.
pub open spec fn face_edge_cycles(f: Face) -> (EdgeCycle, EdgeCycle) {
    match f {
        Face::U => (
            (EdgePos::UF, EdgePos::UL, EdgePos::UB, EdgePos::UR),
            (EdgePos::FU, EdgePos::LU, EdgePos::BU, EdgePos::RU),
        ),
        Face::D => (
            (EdgePos::DF, EdgePos::DR, EdgePos::DB, EdgePos::DL),
            (EdgePos::FD, EdgePos::RD, EdgePos::BD, EdgePos::LD),
        ),
        Face::R => (
            (EdgePos::UR, EdgePos::BR, EdgePos::DR, EdgePos::FR),
            (EdgePos::RU, EdgePos::RB, EdgePos::RD, EdgePos::RF),
        ),
        Face::L => (
            (EdgePos::UL, EdgePos::FL, EdgePos::DL, EdgePos::BL),
            (EdgePos::LU, EdgePos::LF, EdgePos::LD, EdgePos::LB),
        ),
        Face::F => (
            (EdgePos::UF, EdgePos::RF, EdgePos::DF, EdgePos::LF),
            (EdgePos::FU, EdgePos::FR, EdgePos::FD, EdgePos::FL),
        ),
        Face::B => (
            (EdgePos::UB, EdgePos::LB, EdgePos::DB, EdgePos::RB),
            (EdgePos::BU, EdgePos::BL, EdgePos::BD, EdgePos::BR),
        ),
    }
}

/// The three cycles of corner facelets that a clockwise quarter turn of face
/// `f` makes, one for each facelet of a corner cubie.
pub open spec fn face_corner_cycles(f: Face) -> (CornerCycle, CornerCycle, CornerCycle) {
    match f {
        Face::U => (
            (CornerPos::URF, CornerPos::UFL, CornerPos::ULB, CornerPos::UBR),
            (CornerPos::RFU, CornerPos::FLU, CornerPos::LBU, CornerPos::BRU),
            (CornerPos::FUR, CornerPos::LUF, CornerPos::BUL, CornerPos::RUB),
        ),
        Face::D => (
            (CornerPos::DFR, CornerPos::DRB, CornerPos::DBL, CornerPos::DLF),
            (CornerPos::FRD, CornerPos::RBD, CornerPos::BLD, CornerPos::LFD),
            (CornerPos::RDF, CornerPos::BDR, CornerPos::LDB, CornerPos::FDL),
        ),
        Face::R => (
            (CornerPos::URF, CornerPos::BRU, CornerPos::DRB, CornerPos::FRD),
            (CornerPos::RFU, CornerPos::RUB, CornerPos::RBD, CornerPos::RDF),
            (CornerPos::FUR, CornerPos::UBR, CornerPos::BDR, CornerPos::DFR),
        ),
        Face::L => (
            (CornerPos::UFL, CornerPos::FDL, CornerPos::DBL, CornerPos::BUL),
            (CornerPos::FLU, CornerPos::DLF, CornerPos::BLD, CornerPos::ULB),
            (CornerPos::LUF, CornerPos::LFD, CornerPos::LDB, CornerPos::LBU),
        ),
        Face::F => (
            (CornerPos::URF, CornerPos::RDF, CornerPos::DLF, CornerPos::LUF),
            (CornerPos::RFU, CornerPos::DFR, CornerPos::LFD, CornerPos::UFL),
            (CornerPos::FUR, CornerPos::FRD, CornerPos::FDL, CornerPos::FLU),
        ),
        Face::B => (
            (CornerPos::UBR, CornerPos::LBU, CornerPos::DBL, CornerPos::RBD),
            (CornerPos::BRU, CornerPos::BUL, CornerPos::BLD, CornerPos::BDR),
            (CornerPos::RUB, CornerPos::ULB, CornerPos::LDB, CornerPos::DRB),
        ),
    }
}

/// The two cycles of edge facelets that a quarter turn of the M slice makes.
pub open spec fn m_edge_cycles() -> (EdgeCycle, EdgeCycle) {
    (
        (EdgePos::UF, EdgePos::FD, EdgePos::DB, EdgePos::BU),
        (EdgePos::FU, EdgePos::DF, EdgePos::BD, EdgePos::UB),
    )
}

/// The cycle of centres that a quarter turn of the M slice makes.
pub open spec fn m_centre_cycle() -> CentreCycle {
    (CentrePos::F, CentrePos::D, CentrePos::B, CentrePos::U)
}

/// The two cycles of edge facelets that a quarter turn of the E slice makes.
pub open spec fn e_edge_cycles() -> (EdgeCycle, EdgeCycle) {
    (
        (EdgePos::FR, EdgePos::RB, EdgePos::BL, EdgePos::LF),
        (EdgePos::RF, EdgePos::BR, EdgePos::LB, EdgePos::FL),
    )
}

/// The cycle of centres that a quarter turn of the E slice makes.
pub open spec fn e_centre_cycle() -> CentreCycle {
    (CentrePos::F, CentrePos::R, CentrePos::B, CentrePos::L)
}

/// The colours of a cube as three sequences: what a `Cube` means.
pub struct Stickers {
    pub edges: Seq<Face>,
    pub corners: Seq<Face>,
    pub centres: Seq<Face>,
}

impl Stickers {
    /// 24 edge facelets, 24 corner facelets, 6 centres.
    pub open spec fn wf(self) -> bool {
        &&& self.edges.len() == 24
        &&& self.corners.len() == 24
        &&& self.centres.len() == 6
    }

    /// The solved cube.
    pub open spec fn solved() -> Stickers {
        Stickers {
            edges: seq![
                Face::U, Face::F, Face::U, Face::L, Face::U, Face::B, Face::U, Face::R,
                Face::D, Face::F, Face::D, Face::L, Face::D, Face::B, Face::D, Face::R,
                Face::F, Face::R, Face::F, Face::L, Face::B, Face::L, Face::B, Face::R,
            ],
            corners: seq![
                Face::U, Face::R, Face::F, Face::U, Face::F, Face::L, Face::U, Face::L,
                Face::B, Face::U, Face::B, Face::R, Face::D, Face::F, Face::R, Face::D,
                Face::L, Face::F, Face::D, Face::B, Face::L, Face::D, Face::R, Face::B,
            ],
            centres: Self::solved_centres(),
        }
    }

    /// The centres of the solved cube, in the order U, R, F, D, B, L.
    pub open spec fn solved_centres() -> Seq<Face> {
        seq![Face::U, Face::R, Face::F, Face::D, Face::B, Face::L]
    }

    /// The cube with `Face::U` on every facelet: the blank on which an index
    /// decoder writes its pieces.
    pub open spec fn invalid() -> Stickers {
        Stickers {
            edges: Seq::new(24, |i: int| Face::U),
            corners: Seq::new(24, |i: int| Face::U),
            centres: Seq::new(6, |i: int| Face::U),
        }
    }

    /// A clockwise quarter turn of face `f`.
    pub open spec fn turn_face(self, f: Face) -> Stickers {
        let e = face_edge_cycles(f);
        let c = face_corner_cycles(f);
        Stickers {
            edges: edge_cycle(edge_cycle(self.edges, e.0), e.1),
            corners: corner_cycle(corner_cycle(corner_cycle(self.corners, c.0), c.1), c.2),
            centres: self.centres,
        }
    }

    /// A quarter turn of the U face.
    pub open spec fn turn_u(self) -> Stickers {
        self.turn_face(Face::U)
    }

    /// A quarter turn of the D face.
    pub open spec fn turn_d(self) -> Stickers {
        self.turn_face(Face::D)
    }

    /// A quarter turn of the R face.
    pub open spec fn turn_r(self) -> Stickers {
        self.turn_face(Face::R)
    }

    /// A quarter turn of the L face.
    pub open spec fn turn_l(self) -> Stickers {
        self.turn_face(Face::L)
    }

    /// A quarter turn of the F face.
    pub open spec fn turn_f(self) -> Stickers {
        self.turn_face(Face::F)
    }

    /// A quarter turn of the B face.
    pub open spec fn turn_b(self) -> Stickers {
        self.turn_face(Face::B)
    }

    /// A quarter turn of the M slice, in the direction of L.
    pub open spec fn turn_m(self) -> Stickers {
        Stickers {
            edges: edge_cycle(edge_cycle(self.edges, m_edge_cycles().0), m_edge_cycles().1),
            corners: self.corners,
            centres: centre_cycle(self.centres, m_centre_cycle()),
        }
    }

    /// A quarter turn of the E slice, in the direction of D.
    pub open spec fn turn_e(self) -> Stickers {
        Stickers {
            edges: edge_cycle(edge_cycle(self.edges, e_edge_cycles().0), e_edge_cycles().1),
            corners: self.corners,
            centres: centre_cycle(self.centres, e_centre_cycle()),
        }
    }

    /// A quarter rotation of the whole cube in the direction of R: R, then M
    /// and L three times each.
    pub open spec fn rotate_x(self) -> Stickers {
        self.turn_r().turn_m().turn_l().turn_m().turn_l().turn_m().turn_l()
    }

    /// A quarter rotation of the whole cube in the direction of U: U, then E
    /// and D three times each.
    pub open spec fn rotate_y(self) -> Stickers {
        self.turn_u().turn_e().turn_d().turn_e().turn_d().turn_e().turn_d()
    }

    /// One quarter turn of what `m` turns. The S slice and the rotation z
    /// have no turn here and leave the cube as it is.
    pub open spec fn quarter(self, m: Move) -> Stickers {
        match m {
            Move::Face(f, _) => self.turn_face(f),
            Move::Slice(Slice::M, _) => self.turn_m(),
            Move::Slice(Slice::E, _) => self.turn_e(),
            Move::Rotation(Rotation::X, _) => self.rotate_x(),
            Move::Rotation(Rotation::Y, _) => self.rotate_y(),
            _ => self,
        }
    }

    /// `n` quarter turns of what `m` turns.
    pub open spec fn quarters(self, m: Move, n: nat) -> Stickers
        decreases n,
    {
        if n == 0 {
            self
        } else {
            self.quarters(m, (n - 1) as nat).quarter(m)
        }
    }

    /// The move `m`: as many quarter turns as its amount says.
    pub open spec fn apply(self, m: Move) -> Stickers {
        self.quarters(m, m.spec_amount() as nat)
    }

    /// The moves of `ms`, one after the other.
    pub open spec fn apply_all(self, ms: Seq<Move>) -> Stickers
        decreases ms.len(),
    {
        if ms.len() == 0 {
            self
        } else {
            self.apply_all(ms.drop_last()).apply(ms.last())
        }
    }

    /// Whether edge facelet `p` shows `f1` and the other facelet of its
    /// cubie shows `f2`.
    pub open spec fn edge_at(self, p: int, f1: Face, f2: Face) -> bool {
        self.edges[p] == f1 && self.edges[edge_sister(p)] == f2
    }

    /// Whether corner facelet `p` shows `f1`, and the two facelets that
    /// follow it clockwise on its cubie show `f2` and `f3`.
    pub open spec fn corner_at(self, p: int, f1: Face, f2: Face, f3: Face) -> bool {
        &&& self.corners[p] == f1
        &&& self.corners[corner_next(p)] == f2
        &&& self.corners[corner_next(corner_next(p))] == f3
    }

    /// Whether some edge cubie shows `f1` and `f2`.
    pub open spec fn has_edge(self, f1: Face, f2: Face) -> bool {
        exists|p: int| 0 <= p < 24 && self.edge_at(p, f1, f2)
    }

    /// Whether some corner cubie shows `f1`, `f2` and `f3` clockwise.
    pub open spec fn has_corner(self, f1: Face, f2: Face, f3: Face) -> bool {
        exists|p: int| 0 <= p < 24 && self.corner_at(p, f1, f2, f3)
    }

    /// The first position from `from` on at which the edge `f1`, `f2` is
    /// found, and 24 if there is none.
    pub open spec fn edge_pos_from(self, f1: Face, f2: Face, from: int) -> int
        decreases 24 - from,
    {
        if from >= 24 {
            24
        } else if self.edge_at(from, f1, f2) {
            from
        } else {
            self.edge_pos_from(f1, f2, from + 1)
        }
    }

    /// The first position at which the edge `f1`, `f2` is found, and 24 if
    /// the cube has no such edge.
    pub open spec fn edge_pos(self, f1: Face, f2: Face) -> int {
        self.edge_pos_from(f1, f2, 0)
    }

    /// The first position from `from` on at which the corner `f1`, `f2`,
    /// `f3` is found, and 24 if there is none.
    pub open spec fn corner_pos_from(self, f1: Face, f2: Face, f3: Face, from: int) -> int
        decreases 24 - from,
    {
        if from >= 24 {
            24
        } else if self.corner_at(from, f1, f2, f3) {
            from
        } else {
            self.corner_pos_from(f1, f2, f3, from + 1)
        }
    }

    /// The first position at which the corner `f1`, `f2`, `f3` is found, and
    /// 24 if the cube has no such corner.
    pub open spec fn corner_pos(self, f1: Face, f2: Face, f3: Face) -> int {
        self.corner_pos_from(f1, f2, f3, 0)
    }

    /// `edge_pos_from` returns the least position at or after `from` that
    /// holds the edge.
    pub proof fn lemma_edge_pos_from(self, f1: Face, f2: Face, from: int)
        requires
            0 <= from <= 24,
        ensures
            from <= self.edge_pos_from(f1, f2, from) <= 24,
            self.edge_pos_from(f1, f2, from) < 24 ==> self.edge_at(
                self.edge_pos_from(f1, f2, from),
                f1,
                f2,
            ),
            forall|q: int|
                from <= q < self.edge_pos_from(f1, f2, from) ==> !self.edge_at(q, f1, f2),
        decreases 24 - from,
    {
        if from < 24 && !self.edge_at(from, f1, f2) {
            self.lemma_edge_pos_from(f1, f2, from + 1);
        }
    }

    /// `corner_pos_from` returns the least position at or after `from` that
    /// holds the corner.
    pub proof fn lemma_corner_pos_from(self, f1: Face, f2: Face, f3: Face, from: int)
        requires
            0 <= from <= 24,
        ensures
            from <= self.corner_pos_from(f1, f2, f3, from) <= 24,
            self.corner_pos_from(f1, f2, f3, from) < 24 ==> self.corner_at(
                self.corner_pos_from(f1, f2, f3, from),
                f1,
                f2,
                f3,
            ),
            forall|q: int|
                from <= q < self.corner_pos_from(f1, f2, f3, from) ==> !self.corner_at(
                    q,
                    f1,
                    f2,
                    f3,
                ),
        decreases 24 - from,
    {
        if from < 24 && !self.corner_at(from, f1, f2, f3) {
            self.lemma_corner_pos_from(f1, f2, f3, from + 1);
        }
    }
}

impl Move {
    /// The moves that `Cube::do_move` knows: the six face turns, the M slice
    /// and the rotations x and y.
    pub open spec fn supported(self) -> bool {
        match self {
            Move::Face(_, _) => true,
            Move::Slice(s, _) => s == Slice::M,
            Move::Rotation(r, _) => r == Rotation::X || r == Rotation::Y,
        }
    }

    /// Whether `Cube::do_move` knows the move.
    pub fn is_supported(&self) -> (b: bool)
        ensures
            b == self.supported(),
    {
        match self {
            Move::Face(_, _) => true,
            Move::Slice(Slice::M, _) => true,
            Move::Slice(_, _) => false,
            Move::Rotation(Rotation::X, _) => true,
            Move::Rotation(Rotation::Y, _) => true,
            Move::Rotation(_, _) => false,
        }
    }
}

/// Represents a 3x3x3 cube using a representation that is similar to storing
/// sticker colours. This representation includes centre pieces so can
/// represent slice turns and rotations.
#[derive(Clone, Copy, Debug, PartialEq, Eq)]
pub struct Cube {
    pub edges: [Face; 24],
    pub corners: [Face; 24],
    pub centres: [Face; 6],
}

impl View for Cube {
    type V = Stickers;

    open spec fn view(&self) -> Stickers {
        Stickers { edges: self.edges@, corners: self.corners@, centres: self.centres@ }
    }
}

/// The array `a` with its first `k` elements taken from `s`.
pub open spec fn filled<const N: usize>(a: [Face; N], s: Seq<Face>, k: nat) -> [Face; N]
    decreases k,
{
    if k == 0 {
        a
    } else {
        vstd::array::spec_array_update(filled(a, s, (k - 1) as nat), k - 1, s[k - 1])
    }
}

/// `filled` holds the first `k` elements of `s`.
pub proof fn lemma_filled<const N: usize>(a: [Face; N], s: Seq<Face>, k: nat)
    requires
        k <= N,
    ensures
        filled(a, s, k)@.len() == N,
        forall|i: int| 0 <= i < k ==> filled(a, s, k)@[i] == s[i],
    decreases k,
{
    vstd::array::array_len_matches_n(&filled(a, s, k));
    if k > 0 {
        lemma_filled(a, s, (k - 1) as nat);
        vstd::array::axiom_spec_array_update(filled(a, s, (k - 1) as nat), k - 1, s[k - 1]);
    }
}

impl Stickers {
    /// The cube that shows these stickers.
    pub open spec fn cube(self) -> Cube {
        choose|c: Cube| c@ == self
    }

    /// Stickers of the right number are those of a cube.
    pub proof fn lemma_cube(self)
        requires
            self.wf(),
        ensures
            self.cube()@ == self,
    {
        let c = Cube {
            edges: filled(arbitrary(), self.edges, 24),
            corners: filled(arbitrary(), self.corners, 24),
            centres: filled(arbitrary(), self.centres, 6),
        };
        lemma_filled::<24>(arbitrary(), self.edges, 24);
        lemma_filled::<24>(arbitrary(), self.corners, 24);
        lemma_filled::<6>(arbitrary(), self.centres, 6);
        assert(c@.edges =~= self.edges);
        assert(c@.corners =~= self.corners);
        assert(c@.centres =~= self.centres);
        assert(c@ == self);
    }
}

impl Cube {
    /// A cube is its stickers: two cubes that show the same are the same.
    pub proof fn lemma_same(self, other: Cube)
        requires
            self@ == other@,
        ensures
            self == other,
    {
        assert(self.edges@ == other.edges@);
        assert(self.corners@ == other.corners@);
        assert(self.centres@ == other.centres@);
        assert(self.edges =~= other.edges);
        assert(self.corners =~= other.corners);
        assert(self.centres =~= other.centres);
    }
}

fn edge4(e1: EdgePos, e2: EdgePos, e3: EdgePos, e4: EdgePos, edges: &mut [Face; 24])
    ensures
        final(edges)@ == edge_cycle(old(edges)@, (e1, e2, e3, e4)),
{
    let oe1 = edges[e1.index()];
    let oe2 = edges[e2.index()];
    let oe3 = edges[e3.index()];
    let oe4 = edges[e4.index()];
    edges[e1.index()] = oe4;
    edges[e2.index()] = oe1;
    edges[e3.index()] = oe2;
    edges[e4.index()] = oe3;
}

fn corner4(e1: CornerPos, e2: CornerPos, e3: CornerPos, e4: CornerPos, corners: &mut [Face; 24])
    ensures
        final(corners)@ == corner_cycle(old(corners)@, (e1, e2, e3, e4)),
{
    let oe1 = corners[e1.index()];
    let oe2 = corners[e2.index()];
    let oe3 = corners[e3.index()];
    let oe4 = corners[e4.index()];
    corners[e1.index()] = oe4;
    corners[e2.index()] = oe1;
    corners[e3.index()] = oe2;
    corners[e4.index()] = oe3;
}

fn centre4(e1: CentrePos, e2: CentrePos, e3: CentrePos, e4: CentrePos, centres: &mut [Face; 6])
    ensures
        final(centres)@ == centre_cycle(old(centres)@, (e1, e2, e3, e4)),
{
    let oe1 = centres[e1.index()];
    let oe2 = centres[e2.index()];
    let oe3 = centres[e3.index()];
    let oe4 = centres[e4.index()];
    centres[e1.index()] = oe4;
    centres[e2.index()] = oe1;
    centres[e3.index()] = oe2;
    centres[e4.index()] = oe3;
}

impl Cube {
    /// Creates a solved cube.
    pub fn solved() -> (c: Cube)
        ensures
            c@ == Stickers::solved(),
    {
        let edges = [
            Face::U, Face::F, Face::U, Face::L, Face::U, Face::B, Face::U, Face::R,
            Face::D, Face::F, Face::D, Face::L, Face::D, Face::B, Face::D, Face::R,
            Face::F, Face::R, Face::F, Face::L, Face::B, Face::L, Face::B, Face::R,
        ];
        let corners = [
            Face::U, Face::R, Face::F, Face::U, Face::F, Face::L, Face::U, Face::L,
            Face::B, Face::U, Face::B, Face::R, Face::D, Face::F, Face::R, Face::D,
            Face::L, Face::F, Face::D, Face::B, Face::L, Face::D, Face::R, Face::B,
        ];
        let centres = [Face::U, Face::R, Face::F, Face::D, Face::B, Face::L];
        let c = Cube { edges, corners, centres };
        assert(c@.edges =~= Stickers::solved().edges);
        assert(c@.corners =~= Stickers::solved().corners);
        assert(c@.centres =~= Stickers::solved().centres);
        c
    }

    /// Creates a cube in an invalid state.
    pub fn invalid() -> (c: Cube)
        ensures
            c@ == Stickers::invalid(),
    {
        let edges = [
            Face::U, Face::U, Face::U, Face::U, Face::U, Face::U, Face::U, Face::U,
            Face::U, Face::U, Face::U, Face::U, Face::U, Face::U, Face::U, Face::U,
            Face::U, Face::U, Face::U, Face::U, Face::U, Face::U, Face::U, Face::U,
        ];
        let corners = [
            Face::U, Face::U, Face::U, Face::U, Face::U, Face::U, Face::U, Face::U,
            Face::U, Face::U, Face::U, Face::U, Face::U, Face::U, Face::U, Face::U,
            Face::U, Face::U, Face::U, Face::U, Face::U, Face::U, Face::U, Face::U,
        ];
        let centres = [Face::U, Face::U, Face::U, Face::U, Face::U, Face::U];
        let c = Cube { edges, corners, centres };
        assert(c@.edges =~= Stickers::invalid().edges);
        assert(c@.corners =~= Stickers::invalid().corners);
        assert(c@.centres =~= Stickers::invalid().centres);
        c
    }

    /// Solve the centres to their default state.
    pub fn solve_centres(&mut self)
        ensures
            final(self)@ == (Stickers { centres: Stickers::solved_centres(), ..old(self)@ }),
    {
        self.centres = [Face::U, Face::R, Face::F, Face::D, Face::B, Face::L];
        assert(self.centres@ =~= Stickers::solved_centres());
    }

    /// Do the move `m` on the cube.
    pub fn do_move(&mut self, m: Move)
        requires
            m.supported(),
        ensures
            final(self)@ == old(self)@.apply(m),
    {
        let amt = m.amount();
        let mut done: u8 = 0;
        while done < amt
            invariant
                done <= amt,
                amt == m.spec_amount(),
                m.supported(),
                self@ == old(self)@.quarters(m, done as nat),
            decreases amt - done,
        {
            match m {
                Move::Face(f, _) => match f {
                    Face::U => self.do_u(),
                    Face::D => self.do_d(),
                    Face::F => self.do_f(),
                    Face::B => self.do_b(),
                    Face::R => self.do_r(),
                    Face::L => self.do_l(),
                },
                Move::Slice(_, _) => self.do_m(),
                Move::Rotation(r, _) => match r {
                    Rotation::X => self.do_x(),
                    _ => self.do_y(),
                },
            }
            done = done + 1;
        }
    }

    /// Do all the moves in the slice `moves` on the cube.
    pub fn do_moves(&mut self, moves: &[Move])
        requires
            forall|i: int| 0 <= i < moves@.len() ==> (#[trigger] moves@[i]).supported(),
        ensures
            final(self)@ == old(self)@.apply_all(moves@),
    {
        let mut i: usize = 0;
        while i < moves.len()
            invariant
                i <= moves@.len(),
                forall|i: int| 0 <= i < moves@.len() ==> (#[trigger] moves@[i]).supported(),
                self@ == old(self)@.apply_all(moves@.take(i as int)),
            decreases moves@.len() - i,
        {
            self.do_move(moves[i]);
            proof {
                assert(moves@.take(i + 1).drop_last() =~= moves@.take(i as int));
            }
            i = i + 1;
        }
        proof {
            assert(moves@.take(i as int) =~= moves@);
        }
    }

    /// A quarter turn of the U face.
    pub fn do_u(&mut self)
        ensures
            final(self)@ == old(self)@.turn_u(),
    {
        edge4(EdgePos::UF, EdgePos::UL, EdgePos::UB, EdgePos::UR, &mut self.edges);
        edge4(EdgePos::FU, EdgePos::LU, EdgePos::BU, EdgePos::RU, &mut self.edges);
        corner4(CornerPos::URF, CornerPos::UFL, CornerPos::ULB, CornerPos::UBR, &mut self.corners);
        corner4(CornerPos::RFU, CornerPos::FLU, CornerPos::LBU, CornerPos::BRU, &mut self.corners);
        corner4(CornerPos::FUR, CornerPos::LUF, CornerPos::BUL, CornerPos::RUB, &mut self.corners);
    }

    /// A quarter turn of the D face.
    pub fn do_d(&mut self)
        ensures
            final(self)@ == old(self)@.turn_d(),
    {
        edge4(EdgePos::DF, EdgePos::DR, EdgePos::DB, EdgePos::DL, &mut self.edges);
        edge4(EdgePos::FD, EdgePos::RD, EdgePos::BD, EdgePos::LD, &mut self.edges);
        corner4(CornerPos::DFR, CornerPos::DRB, CornerPos::DBL, CornerPos::DLF, &mut self.corners);
        corner4(CornerPos::FRD, CornerPos::RBD, CornerPos::BLD, CornerPos::LFD, &mut self.corners);
        corner4(CornerPos::RDF, CornerPos::BDR, CornerPos::LDB, CornerPos::FDL, &mut self.corners);
    }

    /// A quarter turn of the R face.
    pub fn do_r(&mut self)
        ensures
            final(self)@ == old(self)@.turn_r(),
    {
        edge4(EdgePos::UR, EdgePos::BR, EdgePos::DR, EdgePos::FR, &mut self.edges);
        edge4(EdgePos::RU, EdgePos::RB, EdgePos::RD, EdgePos::RF, &mut self.edges);
        corner4(CornerPos::URF, CornerPos::BRU, CornerPos::DRB, CornerPos::FRD, &mut self.corners);
        corner4(CornerPos::RFU, CornerPos::RUB, CornerPos::RBD, CornerPos::RDF, &mut self.corners);
        corner4(CornerPos::FUR, CornerPos::UBR, CornerPos::BDR, CornerPos::DFR, &mut self.corners);
    }

    /// A quarter turn of the L face.
    pub fn do_l(&mut self)
        ensures
            final(self)@ == old(self)@.turn_l(),
    {
        edge4(EdgePos::UL, EdgePos::FL, EdgePos::DL, EdgePos::BL, &mut self.edges);
        edge4(EdgePos::LU, EdgePos::LF, EdgePos::LD, EdgePos::LB, &mut self.edges);
        corner4(CornerPos::UFL, CornerPos::FDL, CornerPos::DBL, CornerPos::BUL, &mut self.corners);
        corner4(CornerPos::FLU, CornerPos::DLF, CornerPos::BLD, CornerPos::ULB, &mut self.corners);
        corner4(CornerPos::LUF, CornerPos::LFD, CornerPos::LDB, CornerPos::LBU, &mut self.corners);
    }

    /// A quarter turn of the F face.
    pub fn do_f(&mut self)
        ensures
            final(self)@ == old(self)@.turn_f(),
    {
        edge4(EdgePos::UF, EdgePos::RF, EdgePos::DF, EdgePos::LF, &mut self.edges);
        edge4(EdgePos::FU, EdgePos::FR, EdgePos::FD, EdgePos::FL, &mut self.edges);
        corner4(CornerPos::URF, CornerPos::RDF, CornerPos::DLF, CornerPos::LUF, &mut self.corners);
        corner4(CornerPos::RFU, CornerPos::DFR, CornerPos::LFD, CornerPos::UFL, &mut self.corners);
        corner4(CornerPos::FUR, CornerPos::FRD, CornerPos::FDL, CornerPos::FLU, &mut self.corners);
    }

    /// A quarter turn of the B face.
    pub fn do_b(&mut self)
        ensures
            final(self)@ == old(self)@.turn_b(),
    {
        edge4(EdgePos::UB, EdgePos::LB, EdgePos::DB, EdgePos::RB, &mut self.edges);
        edge4(EdgePos::BU, EdgePos::BL, EdgePos::BD, EdgePos::BR, &mut self.edges);
        corner4(CornerPos::UBR, CornerPos::LBU, CornerPos::DBL, CornerPos::RBD, &mut self.corners);
        corner4(CornerPos::BRU, CornerPos::BUL, CornerPos::BLD, CornerPos::BDR, &mut self.corners);
        corner4(CornerPos::RUB, CornerPos::ULB, CornerPos::LDB, CornerPos::DRB, &mut self.corners);
    }

    /// A quarter turn of the M slice.
    pub fn do_m(&mut self)
        ensures
            final(self)@ == old(self)@.turn_m(),
    {
        edge4(EdgePos::UF, EdgePos::FD, EdgePos::DB, EdgePos::BU, &mut self.edges);
        edge4(EdgePos::FU, EdgePos::DF, EdgePos::BD, EdgePos::UB, &mut self.edges);
        centre4(CentrePos::F, CentrePos::D, CentrePos::B, CentrePos::U, &mut self.centres);
    }

    /// A quarter turn of the E slice.
    pub fn do_e(&mut self)
        ensures
            final(self)@ == old(self)@.turn_e(),
    {
        edge4(EdgePos::FR, EdgePos::RB, EdgePos::BL, EdgePos::LF, &mut self.edges);
        edge4(EdgePos::RF, EdgePos::BR, EdgePos::LB, EdgePos::FL, &mut self.edges);
        centre4(CentrePos::F, CentrePos::R, CentrePos::B, CentrePos::L, &mut self.centres);
    }

    /// A quarter rotation of the whole cube, in the direction of R.
    pub fn do_x(&mut self)
        ensures
            final(self)@ == old(self)@.rotate_x(),
    {
        self.do_r();
        let mut i: u8 = 0;
        while i < 3
            invariant
                i <= 3,
                i == 0 ==> self@ == old(self)@.turn_r(),
                i == 1 ==> self@ == old(self)@.turn_r().turn_m().turn_l(),
                i == 2 ==> self@ == old(self)@.turn_r().turn_m().turn_l().turn_m().turn_l(),
                i == 3 ==> self@ == old(self)@.rotate_x(),
            decreases 3 - i,
        {
            self.do_m();
            self.do_l();
            i = i + 1;
        }
    }

    /// A quarter rotation of the whole cube, in the direction of U.
    pub fn do_y(&mut self)
        ensures
            final(self)@ == old(self)@.rotate_y(),
    {
        self.do_u();
        let mut i: u8 = 0;
        while i < 3
            invariant
                i <= 3,
                i == 0 ==> self@ == old(self)@.turn_u(),
                i == 1 ==> self@ == old(self)@.turn_u().turn_e().turn_d(),
                i == 2 ==> self@ == old(self)@.turn_u().turn_e().turn_d().turn_e().turn_d(),
                i == 3 ==> self@ == old(self)@.rotate_y(),
            decreases 3 - i,
        {
            self.do_e();
            self.do_d();
            i = i + 1;
        }
    }

    /// Find the `EdgePos` for a particular edge piece: the first position,
    /// in the natural order, that shows `f1` while the other facelet of its
    /// cubie shows `f2`.
    pub fn find_edge(&self, f1: Face, f2: Face) -> (pos: EdgePos)
        requires
            self@.has_edge(f1, f2),
        ensures
            pos.spec_index() == self@.edge_pos(f1, f2),
            self@.edge_at(pos.spec_index(), f1, f2),
            forall|q: int| 0 <= q < pos.spec_index() ==> !self@.edge_at(q, f1, f2),
    {
        let edge_pos = EdgePos::natural_order();
        let mut k: usize = 0;
        while k < 12
            invariant
                k <= 12,
                forall|i: int| 0 <= i < 24 ==> (#[trigger] edge_pos@[i]).spec_index() == i,
                self@.edge_pos(f1, f2) == self@.edge_pos_from(f1, f2, 2 * k),
                forall|q: int| 0 <= q < 2 * k ==> !self@.edge_at(q, f1, f2),
            decreases 12 - k,
        {
            let a = self.edges[2 * k];
            let b = self.edges[2 * k + 1];
            proof {
                self@.lemma_edge_pos_from(f1, f2, 2 * k + 1);
            }
            if a == f1 && b == f2 {
                return edge_pos[2 * k];
            }
            if b == f1 && a == f2 {
                return edge_pos[2 * k + 1];
            }
            k = k + 1;
        }
        proof {
            assert(false);
        }
        unreached()
    }

    /// Find the `CornerPos` for a particular corner piece: the first
    /// position, in the natural order, that shows `f1` while the two
    /// facelets that follow it clockwise show `f2` and `f3`.
    pub fn find_corner(&self, f1: Face, f2: Face, f3: Face) -> (pos: CornerPos)
        requires
            self@.has_corner(f1, f2, f3),
        ensures
            pos.spec_index() == self@.corner_pos(f1, f2, f3),
            self@.corner_at(pos.spec_index(), f1, f2, f3),
            forall|q: int| 0 <= q < pos.spec_index() ==> !self@.corner_at(q, f1, f2, f3),
    {
        let corner_pos = CornerPos::natural_order();
        let mut k: usize = 0;
        while k < 8
            invariant
                k <= 8,
                forall|i: int| 0 <= i < 24 ==> (#[trigger] corner_pos@[i]).spec_index() == i,
                self@.corner_pos(f1, f2, f3) == self@.corner_pos_from(f1, f2, f3, 3 * k),
                forall|q: int| 0 <= q < 3 * k ==> !self@.corner_at(q, f1, f2, f3),
            decreases 8 - k,
        {
            let a = self.corners[3 * k];
            let b = self.corners[3 * k + 1];
            let c = self.corners[3 * k + 2];
            proof {
                let p = 3 * k as int;
                lemma_corner_triple(k as int);
                self@.lemma_corner_pos_from(f1, f2, f3, p + 1);
                self@.lemma_corner_pos_from(f1, f2, f3, p + 2);
                assert(self@.corner_at(p, f1, f2, f3) == (a == f1 && b == f2 && c == f3));
                assert(self@.corner_at(p + 1, f1, f2, f3) == (b == f1 && c == f2 && a == f3));
                assert(self@.corner_at(p + 2, f1, f2, f3) == (c == f1 && a == f2 && b == f3));
            }
            if a == f1 && b == f2 && c == f3 {
                return corner_pos[3 * k];
            }
            if b == f1 && c == f2 && a == f3 {
                return corner_pos[3 * k + 1];
            }
            if c == f1 && a == f2 && b == f3 {
                return corner_pos[3 * k + 2];
            }
            k = k + 1;
        }
        proof {
            assert(false);
        }
        unreached()
    }
}

} // verus!
