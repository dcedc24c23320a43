use roux::cube::parser::parse_moves;
use roux::cube::sticker_cube::{Cube, EdgePos};
use roux::first_block::FBInfo;
use roux::solve::{skip_orientation, solve_cube, solve_fb};
use roux::solver::index::Index;

const ALL: u32 = 0x00ff_ffff;

#[test]
fn skip_orientation_reads_the_bit() {
  assert!(skip_orientation(0, 1));
  assert!(!skip_orientation(1, 1));
  assert!(skip_orientation(10, 1 << 10));
  assert!(!skip_orientation(10, !(1 << 10)));
  assert!(skip_orientation(23, ALL));
  assert!(!skip_orientation(23, 0));
}

#[test]
fn solve_fb_reports_the_parse_error() {
  let info = FBInfo::new();
  let e = solve_fb(&info, "R U2 Q", 0).unwrap_err();
  assert_eq!(4, e.position);
  assert_eq!("R U2 Q", e.input);
}

#[test]
fn solve_fb_leaves_out_what_the_mask_names() {
  let info = FBInfo::new();
  assert!(solve_fb(&info, "R U F", ALL).unwrap().is_empty());

  // Only the cube as it lies: DL is edge position 10.
  let only_dl = ALL & !(1 << 10);
  let found = solve_fb(&info, "", only_dl).unwrap();
  assert_eq!(4, found.len());
  assert_eq!("", found[0].moves);
  assert_eq!(0, found[0].len);
  assert_eq!("DL", found[0].dl);
  // Rotated about the axis from L to R, one turn of L brings the block home.
  assert_eq!("x L ", found[1].moves);
  assert_eq!("x2 L2 ", found[2].moves);
  assert_eq!("x' L' ", found[3].moves);
  for s in &found[1..] {
    assert_eq!(1, s.len);
    assert_eq!("DL", s.dl);
  }
}

#[test]
fn solve_fb_solves_one_turn() {
  let info = FBInfo::new();
  let only_dl = ALL & !(1 << 10);
  let found = solve_fb(&info, "D", only_dl).unwrap();
  assert!(!found.is_empty());
  assert_eq!("D' ", found[0].moves);
  assert_eq!(1, found[0].len);
  assert_eq!("DL", found[0].dl);
}

#[test]
fn solve_fb_orders_by_length() {
  let info = FBInfo::new();
  let found = solve_fb(&info, "", 0).unwrap();
  assert_eq!(96, found.len());
  for (i, s) in found.iter().enumerate() {
    assert_eq!(if i < 24 { 0 } else { 1 }, s.len);
  }
  // Those of one length stand in the order of the edge positions.
  assert_eq!("UF", found[0].dl);
  assert_eq!("x2 y' ", found[0].moves);
  assert_eq!("FU", found[1].dl);
  assert_eq!("RB", found[23].dl);
  assert_eq!("UF", found[24].dl);
  assert_eq!("UF", found[26].dl);
  assert_eq!("FU", found[27].dl);
}

#[test]
fn solve_fb_solutions_solve() {
  let info = FBInfo::new();
  let scramble = "R U2 F' L D B2 M U'";
  let only_uf_and_dl = ALL & !(1 << 10) & !1;
  let found = solve_fb(&info, scramble, only_uf_and_dl).unwrap();
  assert!(!found.is_empty());
  for pair in found.windows(2) {
    assert!(pair[0].len <= pair[1].len);
  }
  for s in &found {
    let mut c = Cube::solved();
    c.do_moves(&parse_moves(scramble).unwrap());
    let position = if s.dl == "DL" { EdgePos::DL } else { EdgePos::UF };
    let mut held = c;
    held.do_moves(&roux::orientations::dl_orientations(position));
    let (fbe, fbc) = info.get_indexes(&held);
    // The text ends in a space, which the reader of moves leaves over.
    c.do_moves(&parse_moves(s.moves.trim_end()).unwrap());
    let solved = Cube::solved();
    let goal = (
      roux::first_block::FBEdges::default().from_cube(&solved),
      roux::first_block::FBCorners::default().from_cube(&solved),
    );
    assert_eq!(goal, (fbe.from_cube(&c), fbc.from_cube(&c)));
  }
}

#[test]
fn solve_cube_agrees_with_solve_fb() {
  let info = FBInfo::new();
  let mut c = Cube::solved();
  c.do_moves(&parse_moves("F R").unwrap());
  let only_dl = ALL & !(1 << 10);
  let a = solve_cube(&info, &c, only_dl);
  let b = solve_fb(&info, "F R", only_dl).unwrap();
  assert_eq!(a.len(), b.len());
  for (x, y) in a.iter().zip(b.iter()) {
    assert_eq!(x.moves, y.moves);
    assert_eq!(x.len, y.len);
    assert_eq!(x.dl, y.dl);
  }
}
