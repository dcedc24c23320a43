//! Moves, positions and parse errors written out as text.

use vstd::prelude::*;
use crate::cube::{Face, Move, Rotation, Slice};
use crate::cube::parser::ParseError;
use crate::cube::sticker_cube::EdgePos;

verus! {

/// `String::push` of std, which vstd does not specify: the character is
/// added at the end of the string. Believed, not proved.
pub assume_specification[ String::push ](s: &mut String, ch: char)
    ensures
        final(s)@ == old(s)@.push(ch),
;

/// `String::push_str` of std, which vstd does not specify: the characters
/// of the slice are added at the end of the string. Believed, not proved.
pub assume_specification[ String::push_str ](s: &mut String, string: &str)
    ensures
        final(s)@ == old(s)@ + string@,
;

impl Face {
    /// The letter of the face.
    pub open spec fn spec_letter(self) -> char {
        match self {
            Face::U => 'U',
            Face::D => 'D',
            Face::F => 'F',
            Face::B => 'B',
            Face::R => 'R',
            Face::L => 'L',
        }
    }

    /// The letter of the face.
    pub fn letter(self) -> (c: char)
        ensures
            c == self.spec_letter(),
    {
        match self {
            Face::U => 'U',
            Face::D => 'D',
            Face::F => 'F',
            Face::B => 'B',
            Face::R => 'R',
            Face::L => 'L',
        }
    }
}

impl Slice {
    /// The letter of the slice.
    pub open spec fn spec_letter(self) -> char {
        match self {
            Slice::M => 'M',
            Slice::E => 'E',
            Slice::S => 'S',
        }
    }

    /// The letter of the slice.
    pub fn letter(self) -> (c: char)
        ensures
            c == self.spec_letter(),
    {
        match self {
            Slice::M => 'M',
            Slice::E => 'E',
            Slice::S => 'S',
        }
    }
}

impl Rotation {
    /// The letter of the rotation, in lower case.
    pub open spec fn spec_letter(self) -> char {
        match self {
            Rotation::X => 'x',
            Rotation::Y => 'y',
            Rotation::Z => 'z',
        }
    }

    /// The letter of the rotation, in lower case.
    pub fn letter(self) -> (c: char)
        ensures
            c == self.spec_letter(),
    {
        match self {
            Rotation::X => 'x',
            Rotation::Y => 'y',
            Rotation::Z => 'z',
        }
    }
}

impl Move {
    /// The letter of what the move turns.
    pub open spec fn spec_letter(self) -> char {
        match self {
            Move::Face(f, _) => f.spec_letter(),
            Move::Slice(s, _) => s.spec_letter(),
            Move::Rotation(r, _) => r.spec_letter(),
        }
    }

    /// The move as text: its letter, and then nothing for one quarter turn,
    /// `2` for two and `'` for three.
    pub open spec fn spec_display(self) -> Seq<char> {
        if self.spec_amount() == 1 {
            seq![self.spec_letter()]
        } else if self.spec_amount() == 2 {
            seq![self.spec_letter(), '2']
        } else {
            seq![self.spec_letter(), '\'']
        }
    }

    /// Adds the move as text to `out`.
    pub fn write_to(&self, out: &mut String)
        requires
            1 <= self.spec_amount() <= 3,
        ensures
            final(out)@ == old(out)@ + self.spec_display(),
    {
        let c = match self {
            Move::Face(f, _) => f.letter(),
            Move::Slice(s, _) => s.letter(),
            Move::Rotation(r, _) => r.letter(),
        };
        out.push(c);
        let amount = self.amount();
        if amount == 2 {
            out.push('2');
        } else if amount == 3 {
            out.push('\'');
        }
        assert(out@ =~= old(out)@ + self.spec_display());
    }

    /// The move as text.
    pub fn display(&self) -> (text: String)
        requires
            1 <= self.spec_amount() <= 3,
        ensures
            text@ == self.spec_display(),
    {
        let mut text = String::new();
        self.write_to(&mut text);
        assert(text@ =~= self.spec_display());
        text
    }
}

impl EdgePos {
    /// The face on which the facelet lies, and the face on which the other
    /// facelet of its cubie lies.
    pub open spec fn spec_faces(self) -> (Face, Face) {
        match self {
            EdgePos::UF => (Face::U, Face::F),
            EdgePos::FU => (Face::F, Face::U),
            EdgePos::UL => (Face::U, Face::L),
            EdgePos::LU => (Face::L, Face::U),
            EdgePos::UB => (Face::U, Face::B),
            EdgePos::BU => (Face::B, Face::U),
            EdgePos::UR => (Face::U, Face::R),
            EdgePos::RU => (Face::R, Face::U),
            EdgePos::DF => (Face::D, Face::F),
            EdgePos::FD => (Face::F, Face::D),
            EdgePos::DL => (Face::D, Face::L),
            EdgePos::LD => (Face::L, Face::D),
            EdgePos::DB => (Face::D, Face::B),
            EdgePos::BD => (Face::B, Face::D),
            EdgePos::DR => (Face::D, Face::R),
            EdgePos::RD => (Face::R, Face::D),
            EdgePos::FR => (Face::F, Face::R),
            EdgePos::RF => (Face::R, Face::F),
            EdgePos::FL => (Face::F, Face::L),
            EdgePos::LF => (Face::L, Face::F),
            EdgePos::BL => (Face::B, Face::L),
            EdgePos::LB => (Face::L, Face::B),
            EdgePos::BR => (Face::B, Face::R),
            EdgePos::RB => (Face::R, Face::B),
        }
    }

    /// The face on which the facelet lies, and the face on which the other
    /// facelet of its cubie lies.
    pub fn faces(self) -> (f: (Face, Face))
        ensures
            f == self.spec_faces(),
    {
        match self {
            EdgePos::UF => (Face::U, Face::F),
            EdgePos::FU => (Face::F, Face::U),
            EdgePos::UL => (Face::U, Face::L),
            EdgePos::LU => (Face::L, Face::U),
            EdgePos::UB => (Face::U, Face::B),
            EdgePos::BU => (Face::B, Face::U),
            EdgePos::UR => (Face::U, Face::R),
            EdgePos::RU => (Face::R, Face::U),
            EdgePos::DF => (Face::D, Face::F),
            EdgePos::FD => (Face::F, Face::D),
            EdgePos::DL => (Face::D, Face::L),
            EdgePos::LD => (Face::L, Face::D),
            EdgePos::DB => (Face::D, Face::B),
            EdgePos::BD => (Face::B, Face::D),
            EdgePos::DR => (Face::D, Face::R),
            EdgePos::RD => (Face::R, Face::D),
            EdgePos::FR => (Face::F, Face::R),
            EdgePos::RF => (Face::R, Face::F),
            EdgePos::FL => (Face::F, Face::L),
            EdgePos::LF => (Face::L, Face::F),
            EdgePos::BL => (Face::B, Face::L),
            EdgePos::LB => (Face::L, Face::B),
            EdgePos::BR => (Face::B, Face::R),
            EdgePos::RB => (Face::R, Face::B),
        }
    }

    /// The name of the position: the letters of its two faces.
    pub open spec fn spec_name(self) -> Seq<char> {
        seq![self.spec_faces().0.spec_letter(), self.spec_faces().1.spec_letter()]
    }

    /// The name of the position: the letters of its two faces.
    pub fn name(self) -> (text: String)
        ensures
            text@ == self.spec_name(),
    {
        let f = self.faces();
        let mut text = String::new();
        text.push(f.0.letter());
        text.push(f.1.letter());
        assert(text@ =~= self.spec_name());
        text
    }
}

/// The decimal digit `d` as a character.
pub open spec fn digit_char(d: int) -> char {
    if d == 0 {
        '0'
    } else if d == 1 {
        '1'
    } else if d == 2 {
        '2'
    } else if d == 3 {
        '3'
    } else if d == 4 {
        '4'
    } else if d == 5 {
        '5'
    } else if d == 6 {
        '6'
    } else if d == 7 {
        '7'
    } else if d == 8 {
        '8'
    } else {
        '9'
    }
}

/// The number `n` in decimal digits.
pub open spec fn decimal(n: nat) -> Seq<char>
    decreases n,
{
    if n < 10 {
        seq![digit_char(n as int)]
    } else {
        decimal(n / 10).push(digit_char((n % 10) as int))
    }
}

/// `n` spaces.
pub open spec fn spaces(n: nat) -> Seq<char> {
    Seq::new(n, |i: int| ' ')
}

fn digit(d: usize) -> (c: char)
    requires
        d < 10,
    ensures
        c == digit_char(d as int),
{
    if d == 0 {
        '0'
    } else if d == 1 {
        '1'
    } else if d == 2 {
        '2'
    } else if d == 3 {
        '3'
    } else if d == 4 {
        '4'
    } else if d == 5 {
        '5'
    } else if d == 6 {
        '6'
    } else if d == 7 {
        '7'
    } else if d == 8 {
        '8'
    } else {
        '9'
    }
}

fn write_decimal(n: usize, out: &mut String)
    ensures
        final(out)@ == old(out)@ + decimal(n as nat),
    decreases n,
{
    if n >= 10 {
        write_decimal(n / 10, out);
    }
    out.push(digit(n % 10));
    assert(out@ =~= old(out)@ + decimal(n as nat));
}

impl ParseError {
    /// The text of the message: the input, and below it a mark under the
    /// byte after `position` with the position in digits.
    pub open spec fn spec_message(self) -> Seq<char> {
        self.input@ + seq!['\n'] + spaces((self.position + 1) as nat)
            + "^ parse error at position "@ + decimal(self.position as nat)
    }

    /// The error as a message for a reader.
    pub fn message(&self) -> (text: String)
        ensures
            text@ == self.spec_message(),
    {
        let mut text = String::new();
        text.push_str(self.input.as_str());
        text.push('\n');
        text.push(' ');
        assert(text@ =~= self.input@ + seq!['\n'] + spaces(1));
        let mut i: usize = 0;
        while i < self.position
            invariant
                i <= self.position,
                text@ == self.input@ + seq!['\n'] + spaces((i + 1) as nat),
            decreases self.position - i,
        {
            text.push(' ');
            assert(spaces((i + 1) as nat).push(' ') =~= spaces((i + 2) as nat));
            assert(text@ =~= self.input@ + seq!['\n'] + spaces((i + 2) as nat));
            i = i + 1;
        }
        text.push_str("^ parse error at position ");
        write_decimal(self.position, &mut text);
        assert(text@ =~= self.spec_message());
        text
    }
}

} // verus!
