use roux::cube::sticker_cube::EdgePos;
use roux::cube::Move::{Face, Slice};
use roux::cube::{Face as F, Slice as S};
use roux::solver::iddfs::{iddfs, skip_face};
use roux::solver::index::example::UFInfo;

#[test]
fn iddfs_minimal_uf() {
  let info = UFInfo::new();

  // This can use an EdgePos here since this index only looks at a single edge.
  let solved = iddfs(EdgePos::UF as u32, &info, 0, &mut Vec::new());
  assert!(solved);

  let solved = iddfs(EdgePos::FU as u32, &info, 1, &mut Vec::new());
  assert!(!solved);

  let mut solution = Vec::new();
  let solved = iddfs(EdgePos::FU as u32, &info, 2, &mut solution);
  assert!(solved);
  assert!(match &solution[..] {
    [Face(F::U, 2), Slice(S::M, 1)] => true,
    _ => false,
  });
}

#[test]
fn skip_move_test() {
  assert!(skip_face(Face(F::R, 2), &[Face(F::R, 1)]));
  assert!(skip_face(Face(F::R, 1), &[Face(F::R, 1), Face(F::L, 1)]));
}
