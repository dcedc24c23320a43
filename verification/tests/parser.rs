use roux::cube::parser::parse_moves;
use roux::cube::{Face, Move, Rotation, Slice};

#[test]
fn valid() {
  assert_eq!(vec![Move::Face(Face::U, 1)], parse_moves("U").unwrap());
  assert_eq!(vec![Move::Face(Face::U, 2)], parse_moves("U2").unwrap());
  assert_eq!(vec![Move::Face(Face::U, 3)], parse_moves("U'").unwrap());
  assert_eq!(
    vec![
      Move::Face(Face::U, 3),
      Move::Rotation(Rotation::X, 2),
      Move::Slice(Slice::M, 1)
    ],
    parse_moves("U'x2 M").unwrap()
  );
}

#[test]
fn invalid() {
  assert!(parse_moves("Foo").is_err());
  assert!(parse_moves("F3").is_err());
}

#[test]
fn parse_error_position() {
  assert_eq!(1, parse_moves("Foo").unwrap_err().position);
  assert_eq!(1, parse_moves("F3").unwrap_err().position);
  assert_eq!(0, parse_moves("E").unwrap_err().position);
  assert_eq!(0, parse_moves("z").unwrap_err().position);
  assert_eq!(3, parse_moves("R U\t?").unwrap_err().position);
  assert_eq!("Foo", parse_moves("Foo").unwrap_err().input);
}

#[test]
fn parse_white_space() {
  assert_eq!(Vec::<Move>::new(), parse_moves("").unwrap());
  assert_eq!(
    vec![Move::Face(Face::R, 1), Move::Face(Face::L, 3)],
    parse_moves(" \t\r\nR\n L'").unwrap()
  );
  // White space is read before a move only: at the end it is left over.
  assert_eq!(1, parse_moves("U ").unwrap_err().position);
  assert_eq!(0, parse_moves(" ").unwrap_err().position);
  // A byte that is no ASCII letter stops the reading where it stands.
  assert_eq!(2, parse_moves("R2\u{e9}").unwrap_err().position);
}

#[test]
fn parse_every_letter() {
  assert_eq!(
    vec![
      Move::Face(Face::U, 1),
      Move::Face(Face::D, 2),
      Move::Face(Face::F, 3),
      Move::Face(Face::B, 1),
      Move::Face(Face::R, 2),
      Move::Face(Face::L, 3),
      Move::Slice(Slice::M, 2),
      Move::Rotation(Rotation::X, 3),
      Move::Rotation(Rotation::Y, 1),
    ],
    parse_moves("U D2 F' B R2 L' M2 x' y").unwrap()
  );
}

#[test]
fn parse_error_message() {
  let e = parse_moves("R U2 Q").unwrap_err();
  assert_eq!(4, e.position);
  assert_eq!("R U2 Q\n     ^ parse error at position 4", e.message());
  let long = format!("{}?", "U ".repeat(6));
  let e = parse_moves(&long).unwrap_err();
  assert_eq!(11, e.position);
  assert_eq!(
    format!("{}\n{}^ parse error at position 11", long, " ".repeat(12)),
    e.message()
  );
}

#[test]
fn display_moves() {
  assert_eq!("U", Move::Face(Face::U, 1).display());
  assert_eq!("F2", Move::Face(Face::F, 2).display());
  assert_eq!("L'", Move::Face(Face::L, 3).display());
  assert_eq!("M'", Move::Slice(Slice::M, 3).display());
  assert_eq!("E", Move::Slice(Slice::E, 1).display());
  assert_eq!("S2", Move::Slice(Slice::S, 2).display());
  assert_eq!("x", Move::Rotation(Rotation::X, 1).display());
  assert_eq!("y2", Move::Rotation(Rotation::Y, 2).display());
  assert_eq!("z'", Move::Rotation(Rotation::Z, 3).display());
}

#[test]
fn display_then_parse() {
  let moves = vec![
    Move::Face(Face::R, 1),
    Move::Face(Face::U, 2),
    Move::Slice(Slice::M, 3),
    Move::Rotation(Rotation::X, 2),
    Move::Rotation(Rotation::Y, 3),
    Move::Face(Face::B, 3),
  ];
  let mut spaced = String::new();
  let mut tight = String::new();
  for (i, m) in moves.iter().enumerate() {
    if i > 0 {
      spaced.push(' ');
    }
    spaced.push_str(&m.display());
    tight.push_str(&m.display());
  }
  assert_eq!("R U2 M' x2 y' B'", spaced);
  assert_eq!(moves, parse_moves(&spaced).unwrap());
  assert_eq!(moves, parse_moves(&tight).unwrap());
}
