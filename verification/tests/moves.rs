use roux::cube::sticker_cube::{CentrePos, Cube, EdgePos};
use roux::cube::Face::{self, B, D, F, L, R, U};
use roux::cube::{Move, Rotation, Slice};

const FACES: [Face; 6] = [U, D, F, B, R, L];

fn scrambled() -> Cube {
  let mut c = Cube::solved();
  c.do_moves(&[
    Move::Face(R, 1),
    Move::Face(U, 2),
    Move::Slice(Slice::M, 3),
    Move::Face(B, 1),
    Move::Rotation(Rotation::Y, 1),
    Move::Face(L, 3),
    Move::Face(D, 2),
    Move::Face(F, 1),
  ]);
  c
}

#[test]
fn faces_and_axes() {
  assert_eq!(D, U.opposite());
  assert_eq!(U, D.opposite());
  assert_eq!(B, F.opposite());
  assert_eq!(F, B.opposite());
  assert_eq!(L, R.opposite());
  assert_eq!(R, L.opposite());
  assert_eq!(Slice::E, U.slice());
  assert_eq!(Slice::E, D.slice());
  assert_eq!(Slice::M, R.slice());
  assert_eq!(Slice::M, L.slice());
  assert_eq!(Slice::S, F.slice());
  assert_eq!(Slice::S, B.slice());
  for f in FACES {
    for g in FACES {
      assert_eq!(f == g || f.opposite() == g, f.is_opposite(g));
    }
  }
}

#[test]
fn amounts_and_movements() {
  let m = Move::Face(R, 3);
  assert_eq!(3, m.amount());
  assert_eq!(Move::Face(R, 1), m.with_amount(1));
  assert_eq!(Move::Slice(Slice::M, 2), Move::Slice(Slice::M, 1).with_amount(2));
  assert_eq!(
    Move::Rotation(Rotation::X, 3),
    Move::Rotation(Rotation::X, 2).with_amount(3)
  );
  assert!(m.is_same_movement(&Move::Face(R, 1)));
  assert!(!m.is_same_movement(&Move::Face(L, 3)));
  assert!(!Move::Slice(Slice::M, 1).is_same_movement(&Move::Slice(Slice::E, 1)));
  assert!(!Move::Face(U, 1).is_same_movement(&Move::Rotation(Rotation::Y, 1)));
}

#[test]
fn supported_moves() {
  for f in FACES {
    assert!(Move::Face(f, 1).is_supported());
  }
  assert!(Move::Slice(Slice::M, 2).is_supported());
  assert!(!Move::Slice(Slice::E, 1).is_supported());
  assert!(!Move::Slice(Slice::S, 1).is_supported());
  assert!(Move::Rotation(Rotation::X, 1).is_supported());
  assert!(Move::Rotation(Rotation::Y, 3).is_supported());
  assert!(!Move::Rotation(Rotation::Z, 1).is_supported());
}

#[test]
fn four_quarter_turns_are_none() {
  for start in [Cube::solved(), scrambled(), Cube::invalid()] {
    for f in FACES {
      let mut c = start;
      c.do_move(Move::Face(f, 4));
      assert_eq!(start, c);
      let mut c = start;
      for _ in 0..4 {
        c.do_move(Move::Face(f, 1));
      }
      assert_eq!(start, c);
    }
    let mut c = start;
    c.do_move(Move::Slice(Slice::M, 4));
    assert_eq!(start, c);
  }
}

#[test]
fn three_quarters_undo_one() {
  for start in [Cube::solved(), scrambled()] {
    for f in FACES {
      let mut c = start;
      c.do_move(Move::Face(f, 3));
      c.do_move(Move::Face(f, 1));
      assert_eq!(start, c);
      let mut c = start;
      c.do_move(Move::Face(f, 1));
      assert_ne!(start, c);
      c.do_move(Move::Face(f, 3));
      assert_eq!(start, c);
    }
  }
}

#[test]
fn amount_zero_is_no_move() {
  let mut c = scrambled();
  c.do_move(Move::Face(U, 0));
  c.do_move(Move::Rotation(Rotation::X, 0));
  assert_eq!(scrambled(), c);
}

#[test]
fn e_slice() {
  let mut c = Cube::solved();
  c.do_e();
  assert_eq!(
    Cube {
      edges: [
        U, F, U, L, U, B, U, R, D, F, D, L, D, B, D, R, L, F, L, B, R, B, R,
        F
      ],
      corners: Cube::solved().corners,
      centres: [U, F, L, D, R, B],
    },
    c
  );
  // The slice goes with D: E, D and U' together are the rotation y'.
  c.do_d();
  c.do_move(Move::Face(U, 3));
  c.do_y();
  assert_eq!(Cube::solved(), c);
}

#[test]
fn rotations_are_whole() {
  // x is R, M' and L' at once, y is U, E' and D' at once.
  let mut c = scrambled();
  c.do_x();
  let mut d = scrambled();
  d.do_moves(&[
    Move::Face(R, 1),
    Move::Slice(Slice::M, 3),
    Move::Face(L, 3),
  ]);
  assert_eq!(d, c);
  let mut c = scrambled();
  c.do_move(Move::Rotation(Rotation::Y, 2));
  let mut d = scrambled();
  d.do_move(Move::Face(U, 2));
  for _ in 0..6 {
    d.do_e();
  }
  d.do_move(Move::Face(D, 2));
  assert_eq!(d, c);
}

#[test]
fn blank_cube() {
  let mut c = Cube::invalid();
  assert_eq!([U; 24], c.edges);
  assert_eq!([U; 24], c.corners);
  assert_eq!([U; 6], c.centres);
  c.solve_centres();
  assert_eq!([U; 24], c.edges);
  assert_eq!([U; 24], c.corners);
  assert_eq!([U, R, F, D, B, L], c.centres);
  assert_eq!(D, c.centres[CentrePos::D as usize]);
  assert_eq!(3, CentrePos::D.index());
}

#[test]
fn find_takes_the_first() {
  // Every sticker of the blank cube shows U: the first position matches.
  let c = Cube::invalid();
  assert_eq!(EdgePos::UF, c.find_edge(U, U));
  let mut c = Cube::invalid();
  c.edges[EdgePos::DL as usize] = D;
  c.edges[EdgePos::LD as usize] = L;
  c.edges[EdgePos::BR as usize] = D;
  c.edges[EdgePos::RB as usize] = L;
  assert_eq!(EdgePos::DL, c.find_edge(D, L));
  assert_eq!(EdgePos::LD, c.find_edge(L, D));
}

#[test]
fn position_names() {
  assert_eq!("UF", EdgePos::UF.name());
  assert_eq!("FU", EdgePos::FU.name());
  assert_eq!("DL", EdgePos::DL.name());
  assert_eq!("RB", EdgePos::RB.name());
  for &e in EdgePos::natural_order() {
    let (a, b) = e.faces();
    assert_eq!(a, Cube::solved().edges[e.index()]);
    assert_eq!(b, Cube::solved().edges[e.index() ^ 1]);
    assert_eq!(format!("{}{}", a.letter(), b.letter()), e.name());
  }
}
