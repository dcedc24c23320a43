use roux::cube::sticker_cube::{CornerPos, Cube, EdgePos};
use roux::cube::{Face, Move};
use roux::solver::index::example::UF;
use roux::solver::index::{
  exhaustive_index_check, generic_corner_index, generic_corner_index_decode,
  generic_edge_index, generic_edge_index_decode,
};

#[test]
fn exhaustive_uf() {
  assert!(exhaustive_index_check(&UF));
}

#[test]
fn generic_edge() {
  let c = Cube::solved();
  let uf_index = generic_edge_index(&c, &[(Face::U, Face::F)]);
  assert_eq!(0, uf_index);

  let ul_index = generic_edge_index(&c, &[(Face::U, Face::L)]);
  assert_eq!(2, ul_index);

  let lu_index = generic_edge_index(&c, &[(Face::L, Face::U)]);
  assert_eq!(3, lu_index);

  let uful_index =
    generic_edge_index(&c, &[(Face::U, Face::F), (Face::U, Face::L)]);
  assert_eq!(0, uful_index);

  {
    let mut c = Cube::solved();
    // Flip UL, L U' F U
    c.do_moves(&[
      Move::Face(Face::L, 1),
      Move::Face(Face::U, 3),
      Move::Face(Face::F, 1),
      Move::Face(Face::U, 1),
    ]);

    let uful_index =
      generic_edge_index(&c, &[(Face::U, Face::F), (Face::U, Face::L)]);
    assert_eq!(1, uful_index);
  }

  {
    let mut c = Cube::solved();
    // Flip UF, F U' R U
    c.do_moves(&[
      Move::Face(Face::F, 1),
      Move::Face(Face::U, 3),
      Move::Face(Face::R, 1),
      Move::Face(Face::U, 1),
    ]);

    let uful_index =
      generic_edge_index(&c, &[(Face::U, Face::F), (Face::U, Face::L)]);

    // UF at FU = 1 * 22
    // UL at UL = 0
    assert_eq!(22, uful_index);
  }

  {
    let mut c = Cube::solved();
    // Flip UF, F U' R U
    c.do_moves(&[
      Move::Face(Face::F, 1),
      Move::Face(Face::U, 3),
      Move::Face(Face::R, 1),
      Move::Face(Face::U, 1),
    ]);

    let uluf_index =
      generic_edge_index(&c, &[(Face::U, Face::L), (Face::U, Face::F)]);

    // UL at UL = 2 * 22
    // UF at FU = 1
    assert_eq!(45, uluf_index);
  }
}

#[test]
fn generic_edge_decode() {
  {
    let mut c = Cube::invalid();
    c.solve_centres();
    generic_edge_index_decode(&mut c, 0, &[(Face::U, Face::F)]);
    assert_eq!(Face::U, c.edges[EdgePos::UF as usize]);
    assert_eq!(Face::F, c.edges[EdgePos::FU as usize]);
  }

  {
    let mut c = Cube::invalid();
    c.solve_centres();
    generic_edge_index_decode(&mut c, 0, &[(Face::U, Face::L)]);
    assert_eq!(Face::U, c.edges[EdgePos::UF as usize]);
    assert_eq!(Face::L, c.edges[EdgePos::FU as usize]);
  }

  {
    let mut c = Cube::invalid();
    c.solve_centres();
    generic_edge_index_decode(&mut c, 2, &[(Face::U, Face::L)]);
    assert_eq!(Face::U, c.edges[EdgePos::UL as usize]);
    assert_eq!(Face::L, c.edges[EdgePos::LU as usize]);
  }

  {
    let mut c = Cube::invalid();
    c.solve_centres();
    generic_edge_index_decode(&mut c, 3, &[(Face::L, Face::U)]);
    assert_eq!(Face::U, c.edges[EdgePos::UL as usize]);
    assert_eq!(Face::L, c.edges[EdgePos::LU as usize]);
  }

  {
    let mut c = Cube::invalid();
    c.solve_centres();
    generic_edge_index_decode(
      &mut c,
      0,
      &[(Face::U, Face::L), (Face::U, Face::F)],
    );
    assert_eq!(Face::U, c.edges[EdgePos::UF as usize]);
    assert_eq!(Face::F, c.edges[EdgePos::FU as usize]);
    assert_eq!(Face::U, c.edges[EdgePos::UL as usize]);
    assert_eq!(Face::L, c.edges[EdgePos::LU as usize]);
  }

  {
    let mut c = Cube::invalid();
    c.solve_centres();
    generic_edge_index_decode(
      &mut c,
      1,
      &[(Face::U, Face::L), (Face::U, Face::F)],
    );
    assert_eq!(Face::U, c.edges[EdgePos::UF as usize]);
    assert_eq!(Face::F, c.edges[EdgePos::FU as usize]);
    assert_eq!(Face::L, c.edges[EdgePos::UL as usize]);
    assert_eq!(Face::U, c.edges[EdgePos::LU as usize]);
  }

  {
    let mut c = Cube::invalid();
    c.solve_centres();
    generic_edge_index_decode(
      &mut c,
      22,
      &[(Face::U, Face::L), (Face::U, Face::F)],
    );
    assert_eq!(Face::F, c.edges[EdgePos::UF as usize]);
    assert_eq!(Face::U, c.edges[EdgePos::FU as usize]);
    assert_eq!(Face::U, c.edges[EdgePos::UL as usize]);
    assert_eq!(Face::L, c.edges[EdgePos::LU as usize]);
  }

  {
    let mut c = Cube::invalid();
    c.solve_centres();
    generic_edge_index_decode(
      &mut c,
      45,
      &[(Face::U, Face::F), (Face::U, Face::L)],
    );
    assert_eq!(Face::F, c.edges[EdgePos::UF as usize]);
    assert_eq!(Face::U, c.edges[EdgePos::FU as usize]);
    assert_eq!(Face::U, c.edges[EdgePos::UL as usize]);
    assert_eq!(Face::L, c.edges[EdgePos::LU as usize]);
  }
}

#[test]
fn generic_corner() {
  let c = Cube::solved();
  let urf_index = generic_corner_index(&c, &[(Face::U, Face::R, Face::F)]);
  assert_eq!(0, urf_index);

  let ufl_index = generic_corner_index(&c, &[(Face::U, Face::F, Face::L)]);
  assert_eq!(3, ufl_index);

  let luf_index = generic_corner_index(&c, &[(Face::L, Face::U, Face::F)]);
  assert_eq!(5, luf_index);

  let urfufl_index = generic_corner_index(
    &c,
    &[(Face::U, Face::R, Face::F), (Face::U, Face::F, Face::L)],
  );
  assert_eq!(0, urfufl_index);

  {
    let mut c = Cube::solved();
    // Clockwise twist UFL, L2 D L'
    c.do_moves(&[
      Move::Face(Face::L, 2),
      Move::Face(Face::D, 1),
      Move::Face(Face::L, 3),
    ]);

    let urfufl_index = generic_corner_index(
      &c,
      &[(Face::U, Face::R, Face::F), (Face::U, Face::F, Face::L)],
    );
    assert_eq!(1, urfufl_index);
  }

  {
    let mut c = Cube::solved();
    // Clockwise twist URF, R' D R2
    c.do_moves(&[
      Move::Face(Face::R, 3),
      Move::Face(Face::D, 1),
      Move::Face(Face::R, 2),
    ]);

    let urfufl_index = generic_corner_index(
      &c,
      &[(Face::U, Face::R, Face::F), (Face::U, Face::F, Face::L)],
    );
    assert_eq!(21, urfufl_index);
  }
}

#[test]
fn generic_corner_decode() {
  {
    let mut c = Cube::invalid();
    c.solve_centres();
    generic_corner_index_decode(&mut c, 0, &[(Face::U, Face::R, Face::F)]);
    assert_eq!(Face::U, c.corners[CornerPos::URF as usize]);
    assert_eq!(Face::R, c.corners[CornerPos::RFU as usize]);
    assert_eq!(Face::F, c.corners[CornerPos::FUR as usize]);
  }

  {
    let mut c = Cube::invalid();
    c.solve_centres();
    generic_corner_index_decode(&mut c, 3, &[(Face::U, Face::F, Face::L)]);
    assert_eq!(Face::U, c.corners[CornerPos::UFL as usize]);
    assert_eq!(Face::F, c.corners[CornerPos::FLU as usize]);
    assert_eq!(Face::L, c.corners[CornerPos::LUF as usize]);
  }

  {
    let mut c = Cube::invalid();
    c.solve_centres();
    generic_corner_index_decode(&mut c, 5, &[(Face::U, Face::F, Face::L)]);

    assert_eq!(Face::F, c.corners[CornerPos::UFL as usize]);
    assert_eq!(Face::L, c.corners[CornerPos::FLU as usize]);
    assert_eq!(Face::U, c.corners[CornerPos::LUF as usize]);
  }

  {
    let mut c = Cube::invalid();
    c.solve_centres();
    generic_corner_index_decode(&mut c, 1, &[(Face::U, Face::F, Face::L), (Face::U, Face::R, Face::F)]);
    assert_eq!(Face::U, c.corners[CornerPos::URF as usize]);
    assert_eq!(Face::R, c.corners[CornerPos::RFU as usize]);
    assert_eq!(Face::F, c.corners[CornerPos::FUR as usize]);
    assert_eq!(Face::L, c.corners[CornerPos::UFL as usize]);
    assert_eq!(Face::U, c.corners[CornerPos::FLU as usize]);
    assert_eq!(Face::F, c.corners[CornerPos::LUF as usize]);
  }

  {
    let mut c = Cube::invalid();
    generic_corner_index_decode(&mut c, 21, &[(Face::U, Face::F, Face::L), (Face::U, Face::R, Face::F)]);
    assert_eq!(Face::F, c.corners[CornerPos::URF as usize]);
    assert_eq!(Face::U, c.corners[CornerPos::RFU as usize]);
    assert_eq!(Face::R, c.corners[CornerPos::FUR as usize]);
    assert_eq!(Face::U, c.corners[CornerPos::UFL as usize]);
    assert_eq!(Face::F, c.corners[CornerPos::FLU as usize]);
    assert_eq!(Face::L, c.corners[CornerPos::LUF as usize]);
  }
}
