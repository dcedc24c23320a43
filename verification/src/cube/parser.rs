//! The text form of moves: a letter out of `U D F B R L M x y`, then `'` for
//! three quarter turns, `2` for two, or nothing for one. Spaces, tabs and
//! line ends may stand before a move.

use vstd::prelude::*;
use vstd::string::StringSliceAdditionalSpecFns;
use crate::cube::{Face, Move, Rotation, Slice};

verus! {

/// Why a text is no list of moves: the text, and the place of the first
/// byte that was not read.
#[derive(Debug)]
pub struct ParseError {
    pub input: String,
    pub position: usize,
}

/// Whether the byte is a space, a tab, a carriage return or a line feed.
pub open spec fn is_space(b: u8) -> bool {
    b == 32 || b == 9 || b == 13 || b == 10
}

/// The quarter turn that a letter stands for.
pub open spec fn letter(b: u8) -> Option<Move> {
    if b == 85 {
        Some(Move::Face(Face::U, 1))
    } else if b == 70 {
        Some(Move::Face(Face::F, 1))
    } else if b == 82 {
        Some(Move::Face(Face::R, 1))
    } else if b == 76 {
        Some(Move::Face(Face::L, 1))
    } else if b == 66 {
        Some(Move::Face(Face::B, 1))
    } else if b == 68 {
        Some(Move::Face(Face::D, 1))
    } else if b == 77 {
        Some(Move::Slice(Slice::M, 1))
    } else if b == 120 {
        Some(Move::Rotation(Rotation::X, 1))
    } else if b == 121 {
        Some(Move::Rotation(Rotation::Y, 1))
    } else {
        None
    }
}

/// The amount that the suffix at `i` gives, and the place after it: 3 for
/// `'`, 2 for `2`, and 1 where neither stands there.
pub open spec fn suffix(s: Seq<u8>, i: int) -> (u8, int) {
    if 0 <= i < s.len() && s[i] == 39 {
        (3, i + 1)
    } else if 0 <= i < s.len() && s[i] == 50 {
        (2, i + 1)
    } else {
        (1, i)
    }
}

/// The moves that are read from place `i` on, and the place where reading
/// stops: the end of the text, or `mark`, the place after the last move,
/// where what follows it is no move.
pub open spec fn parse_at(s: Seq<u8>, i: int, mark: int) -> (Seq<Move>, int)
    decreases s.len() - i,
{
    if i < 0 || i >= s.len() {
        (Seq::empty(), mark)
    } else if is_space(s[i]) {
        parse_at(s, i + 1, mark)
    } else {
        match letter(s[i]) {
            None => (Seq::empty(), mark),
            Some(m) => {
                let (amount, after) = suffix(s, i + 1);
                let rest = parse_at(s, after, after);
                (seq![m.spec_with_amount(amount)] + rest.0, rest.1)
            },
        }
    }
}

/// The moves that are read from the text, and the place where reading
/// stops. The text is a list of moves if that is its end.
pub open spec fn parsed(s: Seq<u8>) -> (Seq<Move>, int) {
    parse_at(s, 0, 0)
}

/// Reading stops within the text, and reads supported moves with amounts
/// from 1 to 3 only.
pub proof fn lemma_parse_at(s: Seq<u8>, i: int, mark: int)
    requires
        0 <= mark <= i <= s.len(),
    ensures
        mark <= parse_at(s, i, mark).1 <= s.len(),
        forall|k: int|
            0 <= k < parse_at(s, i, mark).0.len() ==> (#[trigger] parse_at(s, i, mark).0[k]).supported()
                && 1 <= parse_at(s, i, mark).0[k].spec_amount() <= 3,
    decreases s.len() - i,
{
    if i < s.len() {
        if is_space(s[i]) {
            lemma_parse_at(s, i + 1, mark);
        } else if letter(s[i]) is Some {
            let (amount, after) = suffix(s, i + 1);
            lemma_parse_at(s, after, after);
        }
    }
}

fn letter_move(b: u8) -> (m: Option<Move>)
    ensures
        m == letter(b),
{
    if b == 85 {
        Some(Move::Face(Face::U, 1))
    } else if b == 70 {
        Some(Move::Face(Face::F, 1))
    } else if b == 82 {
        Some(Move::Face(Face::R, 1))
    } else if b == 76 {
        Some(Move::Face(Face::L, 1))
    } else if b == 66 {
        Some(Move::Face(Face::B, 1))
    } else if b == 68 {
        Some(Move::Face(Face::D, 1))
    } else if b == 77 {
        Some(Move::Slice(Slice::M, 1))
    } else if b == 120 {
        Some(Move::Rotation(Rotation::X, 1))
    } else if b == 121 {
        Some(Move::Rotation(Rotation::Y, 1))
    } else {
        None
    }
}

/// Reads a list of moves from a text. The text must hold moves and the
/// white space before them, and nothing else: where it holds more, the
/// error says where that begins.
pub fn parse_moves(data: &str) -> (r: Result<Vec<Move>, ParseError>)
    ensures
        match r {
            Ok(moves) => parsed(data.spec_bytes()) == (moves@, data.spec_bytes().len() as int),
            Err(e) => parsed(data.spec_bytes()).1 < data.spec_bytes().len() && e.position
                == parsed(data.spec_bytes()).1 && e.input@ == data@,
        },
        r matches Ok(moves) ==> forall|k: int|
            0 <= k < moves@.len() ==> (#[trigger] moves@[k]).supported() && 1
                <= moves@[k].spec_amount() <= 3,
{
    let bytes = data.as_bytes();
    let n = bytes.len();
    let ghost s = bytes@;
    let mut moves: Vec<Move> = Vec::new();
    let mut mark: usize = 0;
    let mut i: usize = 0;
    while i < n
        invariant
            s == bytes@,
            n == s.len(),
            mark <= i <= n,
            parsed(s).0 == moves@ + parse_at(s, i as int, mark as int).0,
            parsed(s).1 == parse_at(s, i as int, mark as int).1,
        ensures
            mark <= n,
            parsed(s).0 == moves@,
            parsed(s).1 == mark,
        decreases n - i,
    {
        let b = bytes[i];
        if b == 32 || b == 9 || b == 13 || b == 10 {
            i = i + 1;
        } else {
            match letter_move(b) {
                None => {
                    assert(moves@ + Seq::<Move>::empty() =~= moves@);
                    break ;
                },
                Some(m) => {
                    let ghost before = moves@;
                    let mut amount: u8 = 1;
                    i = i + 1;
                    if i < n && bytes[i] == 39 {
                        amount = 3;
                        i = i + 1;
                    } else if i < n && bytes[i] == 50 {
                        amount = 2;
                        i = i + 1;
                    }
                    moves.push(m.with_amount(amount));
                    mark = i;
                    proof {
                        let rest = parse_at(s, i as int, i as int);
                        assert(moves@ + rest.0 =~= before + (seq![m.spec_with_amount(amount)]
                            + rest.0));
                    }
                },
            }
        }
        proof {
            if i >= n {
                assert(moves@ + Seq::<Move>::empty() =~= moves@);
            }
        }
    }
    proof {
        lemma_parse_at(s, 0, 0);
    }
    if mark == n {
        Ok(moves)
    } else {
        Err(ParseError { input: data.to_owned(), position: mark })
    }
}

} // verus!
