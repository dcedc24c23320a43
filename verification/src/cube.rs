//! Faces, slices, rotations and moves of the cube.

use vstd::prelude::*;

pub use crate::cube::parser::parse_moves;
pub use crate::cube::sticker_cube::Cube;

pub mod laws;
pub mod parser;
pub mod sticker_cube;
pub mod text;
pub mod text_laws;

verus! {

/// A face of the cube.
#[derive(Clone, Copy, Debug, PartialEq, Eq, Structural)]
pub enum Face {
    U,
    D,
    F,
    B,
    R,
    L,
}

/// A slice of the cube, also the axis that a pair of opposite faces turns around.
#[derive(Clone, Copy, Debug, PartialEq, Eq, Structural)]
pub enum Slice {
    M,
    E,
    S,
}

/// A rotation of the whole cube.
#[derive(Clone, Copy, Debug, PartialEq, Eq, Structural)]
pub enum Rotation {
    X,
    Y,
    Z,
}

/// A move: what turns, and by how many quarter turns clockwise.
#[derive(Clone, Copy, Debug, PartialEq, Eq, Structural)]
pub enum Move {
    Face(Face, u8),
    Slice(Slice, u8),
    Rotation(Rotation, u8),
}

impl Face {
    /// The slice that lies between this face and the opposite one.
    pub open spec fn spec_slice(self) -> Slice {
        match self {
            Face::U | Face::D => Slice::E,
            Face::R | Face::L => Slice::M,
            Face::F | Face::B => Slice::S,
        }
    }

    /// The face on the other side of the cube.
    pub open spec fn spec_opposite(self) -> Face {
        match self {
            Face::U => Face::D,
            Face::D => Face::U,
            Face::F => Face::B,
            Face::B => Face::F,
            Face::R => Face::L,
            Face::L => Face::R,
        }
    }

    /// Whether the two faces turn around the same axis.
    pub open spec fn same_axis(self, face: Face) -> bool {
        self.spec_slice() == face.spec_slice()
    }

    pub fn slice(&self) -> (s: Slice)
        ensures
            s == self.spec_slice(),
    {
        match self {
            Face::U => Slice::E,
            Face::D => Slice::E,
            Face::R => Slice::M,
            Face::L => Slice::M,
            Face::F => Slice::S,
            Face::B => Slice::S,
        }
    }

    /// Get the `Face` that is opposite to `self`.
    pub fn opposite(&self) -> (f: Face)
        ensures
            f == self.spec_opposite(),
    {
        match self {
            Face::U => Face::D,
            Face::D => Face::U,
            Face::F => Face::B,
            Face::B => Face::F,
            Face::R => Face::L,
            Face::L => Face::R,
        }
    }

    /// Test if `face` lies on the axis of `self`: true of the opposite face
    /// and of `self` itself.
    pub fn is_opposite(&self, face: Face) -> (b: bool)
        ensures
            b == self.same_axis(face),
            b == (face == *self || face == self.spec_opposite()),
    {
        self.slice() == face.slice()
    }
}

impl Move {
    /// The number of quarter turns.
    pub open spec fn spec_amount(self) -> u8 {
        match self {
            Move::Face(_, a) => a,
            Move::Slice(_, a) => a,
            Move::Rotation(_, a) => a,
        }
    }

    /// The same movement with another number of quarter turns.
    pub open spec fn spec_with_amount(self, amount: u8) -> Move {
        match self {
            Move::Face(f, _) => Move::Face(f, amount),
            Move::Slice(s, _) => Move::Slice(s, amount),
            Move::Rotation(r, _) => Move::Rotation(r, amount),
        }
    }

    /// Whether the two moves turn the same thing, whatever their amounts.
    pub open spec fn same_movement(self, m: Move) -> bool {
        self.spec_with_amount(0) == m.spec_with_amount(0)
    }

    /// Get the amount of 90 degree turns.
    pub fn amount(&self) -> (a: u8)
        ensures
            a == self.spec_amount(),
    {
        match self {
            Move::Face(_, a) => *a,
            Move::Slice(_, a) => *a,
            Move::Rotation(_, a) => *a,
        }
    }

    /// Create a new move with the same movement, but different amount.
    pub fn with_amount(&self, amount: u8) -> (m: Move)
        ensures
            m == self.spec_with_amount(amount),
    {
        match self {
            Move::Face(f, _) => Move::Face(*f, amount),
            Move::Slice(s, _) => Move::Slice(*s, amount),
            Move::Rotation(r, _) => Move::Rotation(*r, amount),
        }
    }

    /// Compare `m` to `self`, returning true if they have the same 'movement'.
    /// This essentially compares the moves, but ignoring the amount field.
    pub fn is_same_movement(&self, m: &Move) -> (b: bool)
        ensures
            b == self.same_movement(*m),
    {
        self.with_amount(0) == m.with_amount(0)
    }
}

} // verus!
