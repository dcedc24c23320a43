use roux::cube::sticker_cube::Cube;
use roux::cube::{Face, Move};
use roux::solver::index::example::UF;
use roux::solver::index::Index;
use roux::solver::transition::gen_transition_table;

#[test]
fn transition_minimal_uf() {
  let table = gen_transition_table(&UF);

  let mut c = Cube::solved();
  let solved_index = UF.from_cube(&c);
  c.do_move(Move::Face(Face::U, 1));
  let u_index = UF.from_cube(&c);
  assert_eq!(u_index, table[solved_index as usize][0]);
  assert_eq!(solved_index, table[solved_index as usize][1]);

  let mut c = Cube::solved();
  c.do_move(Move::Face(Face::F, 1));
  let f_index = UF.from_cube(&c);
  assert_eq!(f_index, table[solved_index as usize][2]);
  assert_eq!(f_index, table[f_index as usize][0]);
}
