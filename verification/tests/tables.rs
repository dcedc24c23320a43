use roux::cmll::{sb_corner_index, sb_edge_index, sb_solved, CMLL};
use roux::cube::sticker_cube::{CornerPos, Cube, EdgePos};
use roux::cube::{Face, Move, Slice};
use roux::first_block::{FBCorners, FBEdges, FBInfo};
use roux::solver::iddfs::{iddfs, iterative_deepening, skip_face, IDDFSInfo};
use roux::solver::index::example::{UFInfo, UF};
use roux::solver::index::{
  generic_corner_index, generic_corner_index_decode, generic_edge_index,
  generic_edge_index_decode, Index,
};
use roux::solver::pruning::{gen_prune_table, UNREACHED};
use roux::solver::transition::{gen_transition_table, generators};

#[test]
fn numbers_of_elements() {
  assert_eq!(24, UF::NUM_ELEMS);
  assert_eq!(10560, FBEdges::NUM_ELEMS);
  assert_eq!(504, FBCorners::NUM_ELEMS);
  assert_eq!(136080, CMLL::NUM_ELEMS);
}

#[test]
fn coordinates_in_mixed_radix() {
  let c = Cube::solved();
  // DL is at 10, FL at 18 and BL at 20: the digits are 10, 18 - 2, 20 - 4.
  assert_eq!(
    (10 * 22 + 16) * 20 + 16,
    generic_edge_index(
      &c,
      &[(Face::D, Face::L), (Face::F, Face::L), (Face::B, Face::L)]
    )
  );
  assert_eq!((10 * 22 + 16) * 20 + 16, FBEdges::default().from_cube(&c));
  // DLF is at 15 and DBL at 18: the digits are 15 and 18 - 3.
  assert_eq!(
    15 * 21 + 15,
    generic_corner_index(
      &c,
      &[(Face::D, Face::L, Face::F), (Face::D, Face::B, Face::L)]
    )
  );
  assert_eq!(15 * 21 + 15, FBCorners::default().from_cube(&c));
  // The corners of the U face are at 0, 3, 6, 9: every digit is 0.
  assert_eq!(0, CMLL.from_cube(&c));
  // No pieces, one coordinate.
  assert_eq!(0, generic_edge_index(&c, &[]));
  assert_eq!(0, generic_corner_index(&c, &[]));
}

#[test]
fn seven_pieces_fit() {
  let c = Cube::solved();
  let edges = [
    (Face::B, Face::R),
    (Face::B, Face::L),
    (Face::F, Face::L),
    (Face::F, Face::R),
    (Face::D, Face::R),
    (Face::D, Face::B),
    (Face::D, Face::L),
  ];
  // The last edge of the cube first: each digit is the highest it can be.
  let index = generic_edge_index(&c, &edges);
  assert_eq!(
    (((((22 * 22 + 20) * 20 + 18) * 18 + 16) * 16 + 14) * 14 + 12) * 12 + 10,
    index
  );
  assert!(index < 510935040);
  let mut d = Cube::invalid();
  let mut reversed = edges;
  reversed.reverse();
  generic_edge_index_decode(&mut d, index, &reversed);
  for (a, b) in edges {
    assert_eq!(c.find_edge(a, b), d.find_edge(a, b));
  }
}

#[test]
fn decode_takes_any_index() {
  // Digits beyond the pieces are left over.
  let mut a = Cube::invalid();
  generic_edge_index_decode(&mut a, 24 * 5 + 7, &[(Face::U, Face::F)]);
  let mut b = Cube::invalid();
  generic_edge_index_decode(&mut b, 7, &[(Face::U, Face::F)]);
  assert_eq!(a, b);
  assert_eq!(Face::F, a.edges[6]);
  assert_eq!(Face::U, a.edges[7]);
  let mut a = Cube::invalid();
  generic_corner_index_decode(&mut a, u32::MAX, &[(Face::U, Face::R, Face::F)]);
  let mut b = Cube::invalid();
  generic_corner_index_decode(&mut b, u32::MAX % 24, &[(Face::U, Face::R, Face::F)]);
  assert_eq!(a, b);
  // No pieces, nothing written.
  let mut c = Cube::solved();
  generic_edge_index_decode(&mut c, 12345, &[]);
  generic_corner_index_decode(&mut c, 12345, &[]);
  assert_eq!(Cube::solved(), c);
}

#[test]
fn decode_leaves_the_rest() {
  let mut c = Cube::solved();
  generic_edge_index_decode(&mut c, 3, &[(Face::R, Face::L)]);
  let mut expected = Cube::solved();
  expected.edges[EdgePos::LU as usize] = Face::R;
  expected.edges[EdgePos::UL as usize] = Face::L;
  assert_eq!(expected, c);
  generic_corner_index_decode(&mut c, 23, &[(Face::R, Face::L, Face::F)]);
  expected.corners[CornerPos::BDR as usize] = Face::R;
  expected.corners[CornerPos::DRB as usize] = Face::L;
  expected.corners[CornerPos::RBD as usize] = Face::F;
  assert_eq!(expected, c);
}

#[test]
fn round_trip_on_chosen_values() {
  for i in [0, 1, 21, 22, 503] {
    let c = FBCorners::default().from_index(i);
    assert_eq!(i, FBCorners::default().from_cube(&c));
  }
  for i in [0, 19, 20, 439, 440, 10559] {
    let c = FBEdges::default().from_index(i);
    assert_eq!(i, FBEdges::default().from_cube(&c));
  }
  for i in [0, 14, 15, 269, 270, 5669, 5670, 136079] {
    let c = CMLL.from_index(i);
    assert_eq!(i, CMLL.from_cube(&c));
  }
}

#[test]
fn generators_in_order() {
  assert_eq!(
    [
      Move::Face(Face::U, 1),
      Move::Face(Face::D, 1),
      Move::Face(Face::F, 1),
      Move::Face(Face::B, 1),
      Move::Face(Face::R, 1),
      Move::Face(Face::L, 1),
      Move::Slice(Slice::M, 1),
    ],
    generators()
  );
}

#[test]
fn transition_table_follows_the_cube() {
  let index = FBCorners::default();
  let table = gen_transition_table(&index);
  assert_eq!(504, table.len());
  for n in [0u32, 17, 330, 503] {
    for (g, m) in generators().iter().enumerate() {
      let mut c = index.from_index(n);
      c.do_move(*m);
      assert_eq!(index.from_cube(&c), table[n as usize][g]);
      // Four quarter turns lead back.
      let mut x = n;
      for _ in 0..4 {
        x = table[x as usize][g];
      }
      assert_eq!(n, x);
    }
    // Turns of opposite faces can change places.
    for (g, h) in [(0, 1), (2, 3), (4, 5)] {
      assert_eq!(
        table[table[n as usize][g] as usize][h],
        table[table[n as usize][h] as usize][g]
      );
    }
  }
}

#[test]
fn prune_table_holds_least_distances() {
  let table = gen_transition_table(&UF);
  let full = gen_prune_table(&table, 2, 0);
  assert_eq!(24, full.len());
  // One place is the goal, a move leads to the places of the layers U, F
  // and M, unflipped; two moves lead everywhere.
  assert_eq!(1, full.iter().filter(|&&d| d == 0).count());
  assert_eq!(0, full[EdgePos::UF as usize]);
  assert_eq!(2, full[EdgePos::FU as usize]);
  assert_eq!(1, full[EdgePos::UL as usize]);
  assert_eq!(2, full[EdgePos::LU as usize]);
  assert_eq!(1, full[EdgePos::DF as usize]);
  // From another goal.
  let from_fu = gen_prune_table(&table, 2, EdgePos::FU as u32);
  assert_eq!(0, from_fu[EdgePos::FU as usize]);
  assert_eq!(2, from_fu[EdgePos::UF as usize]);
}

#[test]
fn prune_table_clips_to_the_limit() {
  let table = gen_transition_table(&UF);
  let full = gen_prune_table(&table, 2, 0);
  let one = gen_prune_table(&table, 1, 0);
  let none = gen_prune_table(&table, 0, 0);
  for n in 0..24 {
    assert_eq!(full[n].min(1), one[n]);
    assert_eq!(0, none[n]);
    assert!(full[n] <= 2);
  }
  // The flipped edge needs two moves: the limit 1 clips its entry.
  assert_eq!(2, full[EdgePos::FU as usize]);
  assert_eq!(1, one[EdgePos::FU as usize]);
  // No finished table holds the mark of the search.
  for t in [&full, &one, &none] {
    assert!(t.iter().all(|&d| d != UNREACHED));
  }
  // A higher limit changes nothing where no distance reaches it.
  assert_eq!(full, gen_prune_table(&table, 254, 0));
  // The corners of the first block, with a high limit and a low one.
  let corners = gen_transition_table(&FBCorners::default());
  let home = FBCorners::default().from_cube(&Cube::solved());
  let far = gen_prune_table(&corners, 10, home);
  let near = gen_prune_table(&corners, 3, home);
  assert_eq!(504, near.len());
  for n in 0..504 {
    assert_eq!(far[n].min(3), near[n]);
  }
}

#[test]
fn prune_table_is_a_lower_bound() {
  let table = gen_transition_table(&UF);
  for limit in [2, 1, 0] {
    lower_bound_holds(&table, &gen_prune_table(&table, limit, 0));
  }
}

fn lower_bound_holds(table: &[[u32; 7]], distances: &[u8]) {
  // Any walk to the goal is at least as long as the entry of its start.
  for start in 0..24u32 {
    for g in 0..7 {
      for h in 0..7 {
        let mut x = start;
        for (moves, generator) in [g, h].iter().enumerate() {
          if x == 0 {
            assert!(distances[start as usize] as usize <= moves);
          }
          x = table[x as usize][*generator];
        }
        if x == 0 {
          assert!(distances[start as usize] <= 2);
        }
      }
    }
  }
}

#[test]
fn filter_of_redundant_moves() {
  let u = Move::Face(Face::U, 1);
  let d = Move::Face(Face::D, 2);
  let f = Move::Face(Face::F, 3);
  let m = Move::Slice(Slice::M, 1);
  assert!(!skip_face(u, &[]));
  assert!(skip_face(u, &[u]));
  assert!(skip_face(u, &[f, Move::Face(Face::U, 3)]));
  assert!(!skip_face(u, &[d]));
  assert!(!skip_face(u, &[u, f]));
  assert!(skip_face(u, &[u, d]));
  assert!(skip_face(d, &[d, u]));
  assert!(!skip_face(d, &[u, f]));
  assert!(!skip_face(f, &[u, d]));
  // Slices take no part in the rule of opposite faces.
  assert!(skip_face(m, &[u, m]));
  assert!(!skip_face(m, &[m, u]));
  assert!(!skip_face(u, &[u, m]));
}

#[test]
fn search_leaves_the_path_where_it_fails() {
  let info = UFInfo::new();
  let mut path = vec![Move::Face(Face::R, 1)];
  assert!(!iddfs(EdgePos::FU as u32, &info, 1, &mut path));
  assert_eq!(vec![Move::Face(Face::R, 1)], path);
  assert!(iddfs(EdgePos::FU as u32, &info, 2, &mut path));
  assert_eq!(
    vec![
      Move::Face(Face::R, 1),
      Move::Face(Face::U, 2),
      Move::Slice(Slice::M, 1)
    ],
    path
  );
  // Behind U the search leaves U out, and finds another way.
  let mut path = vec![Move::Face(Face::U, 1)];
  assert!(iddfs(EdgePos::FU as u32, &info, 2, &mut path));
  assert_eq!(3, path.len());
  assert_eq!(Move::Face(Face::U, 1), path[0]);
  assert!(!path[1].is_same_movement(&Move::Face(Face::U, 1)));
  let mut state = EdgePos::FU as u32;
  for m in &path[1..] {
    let g = generators().iter().position(|x| x.is_same_movement(m)).unwrap();
    for _ in 0..m.amount() {
      state = info.transition(&state, g);
    }
  }
  assert!(info.is_solved(&state));
}

#[test]
fn deepening_finds_the_shortest() {
  let info = UFInfo::new();
  assert_eq!(Some(vec![]), iterative_deepening(0, &info, 1));
  assert_eq!(None, iterative_deepening(0, &info, 0));
  assert_eq!(None, iterative_deepening(EdgePos::FU as u32, &info, 2));
  assert_eq!(
    Some(vec![Move::Face(Face::U, 2), Move::Slice(Slice::M, 1)]),
    iterative_deepening(EdgePos::FU as u32, &info, 3)
  );
  assert_eq!(
    Some(vec![Move::Face(Face::U, 3)]),
    iterative_deepening(EdgePos::UL as u32, &info, 10)
  );
}

#[test]
fn redundant_moves_are_not_needed() {
  // U U, U D U and R R' solve with moves that the filter leaves out: the
  // search finds solutions that are no longer.
  let info = FBInfo::new();
  let cases = [
    (vec![Move::Face(Face::D, 1), Move::Face(Face::D, 1)], 1),
    (vec![Move::Face(Face::D, 1), Move::Face(Face::U, 1), Move::Face(Face::D, 1)], 1),
    (vec![Move::Face(Face::L, 1), Move::Face(Face::L, 3)], 0),
    (vec![Move::Face(Face::F, 2), Move::Face(Face::B, 1), Move::Face(Face::F, 2)], 1),
    (vec![Move::Face(Face::R, 1), Move::Face(Face::L, 2), Move::Face(Face::R, 3)], 1),
    (vec![Move::Face(Face::D, 3), Move::Face(Face::U, 2), Move::Face(Face::D, 1)], 0),
  ];
  for (moves, least) in cases {
    // The cube that the moves solve: the solved one with the moves undone.
    let mut c = Cube::solved();
    for m in moves.iter().rev() {
      c.do_move(m.with_amount(4 - m.amount()));
    }
    let found = iterative_deepening(info.get_state(&c), &info, moves.len() + 1).unwrap();
    assert_eq!(least, found.len());
    c.do_moves(&found);
    assert!(info.is_solved(&info.get_state(&c)));
  }
}

#[test]
fn first_block_bound_is_admissible() {
  let info = FBInfo::new();
  let scramble = [
    Move::Face(Face::L, 1),
    Move::Face(Face::D, 2),
    Move::Face(Face::F, 3),
    Move::Slice(Slice::M, 1),
    Move::Face(Face::B, 1),
  ];
  let mut c = Cube::solved();
  c.do_moves(&scramble);
  // Undoing the scramble solves in five moves: no fewer than the bound.
  let mut left = scramble.len();
  for m in scramble.iter().rev() {
    let state = info.get_state(&c);
    assert!(!info.prune(&state, left));
    c.do_move(m.with_amount(4 - m.amount()));
    left -= 1;
  }
  let state = info.get_state(&c);
  assert!(info.is_solved(&state));
  assert!(!info.prune(&state, 0));
  // One move away, no moves left: given up.
  c.do_move(Move::Face(Face::L, 1));
  assert!(info.prune(&info.get_state(&c), 0));
  assert!(!info.prune(&info.get_state(&c), 1));
}

#[test]
fn first_block_state_follows_the_cube() {
  let info = FBInfo::new();
  let mut c = Cube::solved();
  c.do_moves(&[Move::Face(Face::F, 1), Move::Face(Face::L, 2)]);
  let state = info.get_state(&c);
  // The state keeps to the colours by which the block was known first,
  // also where M turns the centres.
  let (fbe, fbc) = info.get_indexes(&c);
  for (g, m) in generators().iter().enumerate() {
    let mut d = c;
    d.do_move(*m);
    assert_eq!(
      (fbe.from_cube(&d), fbc.from_cube(&d)),
      info.transition(&state, g)
    );
  }
}

#[test]
fn second_block() {
  let c = Cube::solved();
  assert_eq!((14 * 22 + 14) * 20 + 18, sb_edge_index(&c));
  assert_eq!(12 * 21 + 18, sb_corner_index(&c));
  assert!(sb_solved(&c));
  let mut c = Cube::solved();
  c.do_move(Move::Face(Face::L, 1));
  assert!(sb_solved(&c));
  c.do_move(Move::Face(Face::R, 1));
  assert!(!sb_solved(&c));
}
