use roux::cube::sticker_cube::Cube;
use roux::cube::{Face, Move, Rotation};
use roux::first_block::{FBCorners, FBEdges, FBInfo};
use roux::solver::iddfs::iddfs;
use roux::solver::index::{exhaustive_index_check, Index};

#[test]
fn exhaustive_fbe() {
  assert!(exhaustive_index_check(&FBEdges::default()));
}

#[test]
fn exhaustive_fbc() {
  assert!(exhaustive_index_check(&FBCorners::default()));
}

#[test]
fn basic_fb() {
  let info = FBInfo::new();

  let c = Cube::solved();
  let solved = iddfs(info.get_state(&c), &info, 0, &mut Vec::new());
  assert!(solved);

  let mut c = Cube::solved();
  c.do_move(Move::Face(Face::R, 1));
  let solved = iddfs(info.get_state(&c), &info, 0, &mut Vec::new());
  assert!(solved);

  let mut c = Cube::solved();
  c.do_move(Move::Face(Face::D, 1));
  let solved = iddfs(info.get_state(&c), &info, 0, &mut Vec::new());
  assert!(!solved);

  let mut c = Cube::solved();
  c.do_move(Move::Face(Face::D, 1));
  let solved = iddfs(info.get_state(&c), &info, 1, &mut Vec::new());
  assert!(solved);

  let mut c = Cube::solved();
  c.do_move(Move::Rotation(Rotation::Y, 1));
  let (fbe, fbc) = info.get_indexes(&c);
  let solved = iddfs(
    (fbe.from_cube(&c), fbc.from_cube(&c)),
    &info,
    0,
    &mut Vec::new(),
  );
  assert!(solved);

  let mut solution = Vec::new();
  c.do_move(Move::Rotation(Rotation::X, 1));
  let solved = iddfs(
    (fbe.from_cube(&c), fbc.from_cube(&c)),
    &info,
    1,
    &mut solution,
  );
  assert!(solved);
  assert_eq!(Move::Face(Face::L, 1), solution[0]);
}
