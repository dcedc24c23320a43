use roux::cmll::{CMLLInfo, CMLL};
use roux::cube::parser::parse_moves;
use roux::cube::sticker_cube::Cube;
use roux::solver::iddfs::{iddfs, IDDFSInfo};
use roux::solver::index::exhaustive_index_check;

#[test]
fn exhaustive_cmll() {
  assert!(exhaustive_index_check(&CMLL));
}

#[test]
fn basic() {
  let c = Cube::solved();
  let info = CMLLInfo::new();
  let solved = iddfs(info.get_state(&c), &info, 0, &mut Vec::new());
  assert!(solved);

  let mut c = Cube::solved();
  c.do_moves(&parse_moves("R U2 R' U' R U' R'").unwrap());

  let mut solution = Vec::new();
  let solved = iddfs(info.get_state(&c), &info, 7, &mut solution);
  assert!(solved);
  assert_eq!(parse_moves("F' U2 F U F' U F").unwrap(), solution);
}

#[test]
fn cmll_prune_is_admissible() {
  let info = CMLLInfo::new();
  let scramble = parse_moves("R U2 R' U' R U' R'").unwrap();
  let mut c = Cube::solved();
  c.do_moves(&scramble);
  // Undoing the scramble solves: with as many moves left as are still to
  // undo, no state on the way is given up.
  let mut left = scramble.len();
  for m in scramble.iter().rev() {
    assert!(!info.prune(&info.get_state(&c), left));
    c.do_move(m.with_amount(4 - m.amount()));
    left -= 1;
  }
  let state = info.get_state(&c);
  assert!(info.is_solved(&state));
  assert!(!info.prune(&state, 0));
}
