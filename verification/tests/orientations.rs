use roux::cube::sticker_cube::{Cube, EdgePos};
use roux::orientations::dl_orientations;

#[test]
fn orientations() {
  let solved = Cube::solved();

  for &e in EdgePos::natural_order() {
    let mut c = Cube::solved();
    c.do_moves(&dl_orientations(e));

    assert_eq!(solved.edges[e as usize], c.edges[EdgePos::DL as usize]);
    assert_eq!(solved.edges[e as usize ^ 1], c.edges[EdgePos::LD as usize]);
  }
}
