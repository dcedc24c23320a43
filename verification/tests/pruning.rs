use roux::cube::sticker_cube::Cube;
use roux::cube::{Face, Move};
use roux::solver::index::example::UF;
use roux::solver::index::Index;
use roux::solver::pruning::gen_prune_table;
use roux::solver::transition::gen_transition_table;

#[test]
fn pruning_minimal_uf() {
  let uf = UF;
  let table = gen_transition_table(&uf);
  let ptable = gen_prune_table(&table, 2, 0);
  assert_eq!(2, *ptable.iter().max().unwrap());

  let mut c = Cube::solved();
  assert_eq!(0, ptable[uf.from_cube(&c) as usize]);
  c.do_move(Move::Face(Face::U, 1));
  assert_eq!(1, ptable[uf.from_cube(&c) as usize]);
  c.do_move(Move::Face(Face::U, 1));
  assert_eq!(1, ptable[uf.from_cube(&c) as usize]);
  c.do_move(Move::Face(Face::B, 1));
  assert_eq!(2, ptable[uf.from_cube(&c) as usize]);
  c.do_move(Move::Face(Face::B, 1));
  assert_eq!(1, ptable[uf.from_cube(&c) as usize]);
}
