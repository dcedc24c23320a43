use roux::cube::sticker_cube::{CentrePos, CornerPos, Cube, EdgePos};
use roux::cube::Face::{self, B, D, F, L, R, U};
use roux::cube::Move;

#[test]
fn solved() {
  let c = Cube::solved();

  assert_eq!(Face::U, c.edges[EdgePos::UF as usize]);
  assert_eq!(Face::F, c.edges[EdgePos::FU as usize]);
  assert_eq!(Face::U, c.edges[EdgePos::UL as usize]);
  assert_eq!(Face::L, c.edges[EdgePos::LU as usize]);
  assert_eq!(Face::U, c.edges[EdgePos::UB as usize]);
  assert_eq!(Face::B, c.edges[EdgePos::BU as usize]);
  assert_eq!(Face::U, c.edges[EdgePos::UR as usize]);
  assert_eq!(Face::R, c.edges[EdgePos::RU as usize]);
  assert_eq!(Face::D, c.edges[EdgePos::DF as usize]);
  assert_eq!(Face::F, c.edges[EdgePos::FD as usize]);
  assert_eq!(Face::D, c.edges[EdgePos::DL as usize]);
  assert_eq!(Face::L, c.edges[EdgePos::LD as usize]);
  assert_eq!(Face::D, c.edges[EdgePos::DB as usize]);
  assert_eq!(Face::B, c.edges[EdgePos::BD as usize]);
  assert_eq!(Face::D, c.edges[EdgePos::DR as usize]);
  assert_eq!(Face::R, c.edges[EdgePos::RD as usize]);
  assert_eq!(Face::F, c.edges[EdgePos::FR as usize]);
  assert_eq!(Face::R, c.edges[EdgePos::RF as usize]);
  assert_eq!(Face::F, c.edges[EdgePos::FL as usize]);
  assert_eq!(Face::L, c.edges[EdgePos::LF as usize]);
  assert_eq!(Face::B, c.edges[EdgePos::BL as usize]);
  assert_eq!(Face::L, c.edges[EdgePos::LB as usize]);
  assert_eq!(Face::B, c.edges[EdgePos::BR as usize]);
  assert_eq!(Face::R, c.edges[EdgePos::RB as usize]);

  assert_eq!(Face::U, c.corners[CornerPos::URF as usize]);
  assert_eq!(Face::R, c.corners[CornerPos::RFU as usize]);
  assert_eq!(Face::F, c.corners[CornerPos::FUR as usize]);
  assert_eq!(Face::U, c.corners[CornerPos::UFL as usize]);
  assert_eq!(Face::F, c.corners[CornerPos::FLU as usize]);
  assert_eq!(Face::L, c.corners[CornerPos::LUF as usize]);
  assert_eq!(Face::U, c.corners[CornerPos::ULB as usize]);
  assert_eq!(Face::L, c.corners[CornerPos::LBU as usize]);
  assert_eq!(Face::B, c.corners[CornerPos::BUL as usize]);
  assert_eq!(Face::U, c.corners[CornerPos::UBR as usize]);
  assert_eq!(Face::B, c.corners[CornerPos::BRU as usize]);
  assert_eq!(Face::R, c.corners[CornerPos::RUB as usize]);
  assert_eq!(Face::D, c.corners[CornerPos::DFR as usize]);
  assert_eq!(Face::F, c.corners[CornerPos::FRD as usize]);
  assert_eq!(Face::R, c.corners[CornerPos::RDF as usize]);
  assert_eq!(Face::D, c.corners[CornerPos::DLF as usize]);
  assert_eq!(Face::L, c.corners[CornerPos::LFD as usize]);
  assert_eq!(Face::F, c.corners[CornerPos::FDL as usize]);
  assert_eq!(Face::D, c.corners[CornerPos::DBL as usize]);
  assert_eq!(Face::B, c.corners[CornerPos::BLD as usize]);
  assert_eq!(Face::L, c.corners[CornerPos::LDB as usize]);
  assert_eq!(Face::D, c.corners[CornerPos::DRB as usize]);
  assert_eq!(Face::R, c.corners[CornerPos::RBD as usize]);
  assert_eq!(Face::B, c.corners[CornerPos::BDR as usize]);

  assert_eq!(Face::U, c.centres[CentrePos::U as usize]);
  assert_eq!(Face::R, c.centres[CentrePos::R as usize]);
  assert_eq!(Face::F, c.centres[CentrePos::F as usize]);
  assert_eq!(Face::D, c.centres[CentrePos::D as usize]);
  assert_eq!(Face::B, c.centres[CentrePos::B as usize]);
  assert_eq!(Face::L, c.centres[CentrePos::L as usize]);
}

#[test]
fn u_move() {
  let mut c = Cube::solved();
  c.do_u();

  assert_eq!(
    Cube {
      edges: [
        U, R, U, F, U, L, U, B, D, F, D, L, D, B, D, R, F, R, F, L, B, L, B,
        R
      ],
      corners: [
        U, B, R, U, R, F, U, F, L, U, L, B, D, F, R, D, L, F, D, B, L, D, R,
        B
      ],
      centres: [U, R, F, D, B, L]
    },
    c
  );
}

#[test]
fn d_move() {
  let mut c = Cube::solved();
  c.do_d();

  assert_eq!(
    Cube {
      edges: [
        U, F, U, L, U, B, U, R, D, L, D, B, D, R, D, F, F, R, F, L, B, L, B,
        R
      ],
      corners: [
        U, R, F, U, F, L, U, L, B, U, B, R, D, L, F, D, B, L, D, R, B, D, F,
        R
      ],
      centres: [U, R, F, D, B, L]
    },
    c
  );
}

#[test]
fn r_move() {
  let mut c = Cube::solved();
  c.do_r();

  assert_eq!(
    Cube {
      edges: [
        U, F, U, L, U, B, F, R, D, F, D, L, D, B, B, R, D, R, F, L, B, L, U,
        R
      ],
      corners: [
        F, R, D, U, F, L, U, L, B, F, U, R, B, D, R, D, L, F, D, B, L, B, R,
        U
      ],
      centres: [U, R, F, D, B, L]
    },
    c
  );
}

#[test]
fn l_move() {
  let mut c = Cube::solved();
  c.do_l();

  assert_eq!(
    Cube {
      edges: [
        U, F, B, L, U, B, U, R, D, F, F, L, D, B, D, R, F, R, U, L, D, L, B,
        R
      ],
      corners: [
        U, R, F, B, U, L, B, L, D, U, B, R, D, F, R, F, L, U, F, D, L, D, R,
        B
      ],
      centres: [U, R, F, D, B, L]
    },
    c
  );
}

#[test]
fn f_move() {
  let mut c = Cube::solved();
  c.do_f();

  assert_eq!(
    Cube {
      edges: [
        L, F, U, L, U, B, U, R, R, F, D, L, D, B, D, R, F, U, F, D, B, L, B,
        R
      ],
      corners: [
        L, U, F, L, F, D, U, L, B, U, B, R, R, F, U, R, D, F, D, B, L, D, R,
        B
      ],
      centres: [U, R, F, D, B, L]
    },
    c
  );
}

#[test]
fn b_move() {
  let mut c = Cube::solved();
  c.do_b();

  assert_eq!(
    Cube {
      edges: [
        U, F, U, L, R, B, U, R, D, F, D, L, L, B, D, R, F, R, F, L, B, U, B,
        D
      ],
      corners: [
        U, R, F, U, F, L, R, U, B, R, B, D, D, F, R, D, L, F, L, B, U, L, D,
        B
      ],
      centres: [U, R, F, D, B, L]
    },
    c
  );
}

#[test]
fn m_move() {
  let mut c = Cube::solved();
  c.do_m();

  assert_eq!(
    Cube {
      edges: [
        B, U, U, L, B, D, U, R, F, U, D, L, F, D, D, R, F, R, F, L, B, L, B,
        R
      ],
      corners: [
        U, R, F, U, F, L, U, L, B, U, B, R, D, F, R, D, L, F, D, B, L, D, R,
        B
      ],
      centres: [B, R, U, F, D, L]
    },
    c
  );
}

#[test]
fn x_move() {
  let mut c = Cube::solved();
  c.do_x();

  assert_eq!(
    Cube {
      edges: [
        F, D, F, L, F, U, F, R, B, D, B, L, B, U, B, R, D, R, D, L, U, L, U,
        R
      ],
      corners: [
        F, R, D, F, D, L, F, L, U, F, U, R, B, D, R, B, L, D, B, U, L, B, R,
        U
      ],
      centres: [F, R, D, B, U, L],
    },
    c
  );
}

#[test]
fn y_move() {
  let mut c = Cube::solved();
  c.do_y();

  assert_eq!(
    Cube {
      edges: [
        U, R, U, F, U, L, U, B, D, R, D, F, D, L, D, B, R, B, R, F, L, F, L,
        B
      ],
      corners: [
        U, B, R, U, R, F, U, F, L, U, L, B, D, R, B, D, F, R, D, L, F, D, B,
        L
      ],
      centres: [U, B, R, D, L, F],
    },
    c
  );
}

#[test]
fn moves() {
  let mut c2 = Cube::solved();
  c2.do_u();
  c2.do_u();
  c2.do_u();

  let mut c = Cube::solved();
  c.do_moves(&[Move::Face(U, 3)]);

  assert_eq!(c2, c);

  c.do_moves(&[Move::Face(U, 1)]);
  assert_eq!(Cube::solved(), c);
}

#[test]
fn t_perm() {
  let mut c = Cube::solved();
  {
    // Optimal T perm: U F2 U' F2 D R2 B2 U B2 D' R2
    c.do_moves(&[
      Move::Face(U, 1),
      Move::Face(F, 2),
      Move::Face(U, 3),
      Move::Face(F, 2),
      Move::Face(D, 1),
      Move::Face(R, 2),
      Move::Face(B, 2),
      Move::Face(U, 1),
      Move::Face(B, 2),
      Move::Face(D, 3),
      Move::Face(R, 2),
    ]);
  }
  assert_eq!(
    Cube {
      edges: [
        U, F, U, R, U, B, U, L, D, F, D, L, D, B, D, R, F, R, F, L, B, L, B,
        R
      ],
      corners: [
        U, B, R, U, F, L, U, L, B, U, R, F, D, F, R, D, L, F, D, B, L, D, R,
        B
      ],
      centres: [U, R, F, D, B, L]
    },
    c
  );
}

#[test]
fn natural_order() {
  for (i, &e) in EdgePos::natural_order().iter().enumerate() {
    assert_eq!(i, e as usize);
  }

  for (i, &c) in CornerPos::natural_order().iter().enumerate() {
    assert_eq!(i, c as usize);
  }
}

#[test]
fn find_edge() {
  let c = Cube::solved();

  assert_eq!(EdgePos::UF, c.find_edge(Face::U, Face::F));
  assert_eq!(EdgePos::FU, c.find_edge(Face::F, Face::U));

  assert_eq!(EdgePos::FR, c.find_edge(Face::F, Face::R));
  assert_eq!(EdgePos::RF, c.find_edge(Face::R, Face::F));

  let mut c = Cube::solved();
  c.do_u();

  assert_eq!(EdgePos::UF, c.find_edge(Face::U, Face::R));
  assert_eq!(EdgePos::FU, c.find_edge(Face::R, Face::U));

  assert_eq!(EdgePos::UL, c.find_edge(Face::U, Face::F));
  assert_eq!(EdgePos::LU, c.find_edge(Face::F, Face::U));

  assert_eq!(EdgePos::FR, c.find_edge(Face::F, Face::R));
  assert_eq!(EdgePos::RF, c.find_edge(Face::R, Face::F));
}

#[test]
fn find_corner() {
  let c = Cube::solved();

  assert_eq!(CornerPos::URF, c.find_corner(Face::U, Face::R, Face::F));
  assert_eq!(CornerPos::RFU, c.find_corner(Face::R, Face::F, Face::U));
  assert_eq!(CornerPos::FUR, c.find_corner(Face::F, Face::U, Face::R));

  assert_eq!(CornerPos::DRB, c.find_corner(Face::D, Face::R, Face::B));
  assert_eq!(CornerPos::RBD, c.find_corner(Face::R, Face::B, Face::D));
  assert_eq!(CornerPos::BDR, c.find_corner(Face::B, Face::D, Face::R));

  let mut c = Cube::solved();
  c.do_r();

  assert_eq!(CornerPos::URF, c.find_corner(Face::F, Face::R, Face::D));
  assert_eq!(CornerPos::RFU, c.find_corner(Face::R, Face::D, Face::F));
  assert_eq!(CornerPos::FUR, c.find_corner(Face::D, Face::F, Face::R));
}
