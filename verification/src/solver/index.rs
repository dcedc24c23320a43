//! Coordinates for subsets of the pieces: the places of a list of edges, or
//! of corners, written as one number in a mixed radix.

use vstd::prelude::*;
use vstd::arithmetic::div_mod::{lemma_div_pos_is_pos, lemma_mod_pos_bound};
use crate::cube::{Face, Move};
use crate::cube::laws::turns_layer;
use crate::cube::sticker_cube::{corner_next, edge_sister, Cube, Stickers};

pub mod example;

verus! {

/// An `Index` represents a set of pieces of a `Cube`: it gives each
/// placement of them a number below `NUM_ELEMS`.
pub trait Index {
    /// The number of elements in this `Index`.
    const NUM_ELEMS: u32;

    /// Whether the pieces of the index can be told apart, so that each
    /// placement of them has a number of its own.
    spec fn wf(&self) -> bool;

    /// Whether the cube shows each piece of the index once, so that its
    /// number can be read.
    spec fn tracks(&self, c: Stickers) -> bool;

    /// The number of the placement that the cube shows.
    spec fn coord(&self, c: Stickers) -> int;

    /// The cube that shows placement `i` on blank stickers.
    spec fn decoded(&self, i: int) -> Stickers;

    /// A conversion from a `Cube` into a `u32`.
    fn from_cube(&self, c: &Cube) -> (i: u32)
        requires
            self.tracks(c@),
        ensures
            i == self.coord(c@),
            i < Self::NUM_ELEMS,
    ;

    /// A conversion from a `u32` into a `Cube`.
    fn from_index(&self, i: u32) -> (c: Cube)
        requires
            i < Self::NUM_ELEMS,
        ensures
            c@ == self.decoded(i as int),
    ;

    /// Index round trip: the cube decoded from a number shows the pieces,
    /// and encodes to that number.
    proof fn lemma_round_trip(&self, i: int)
        requires
            self.wf(),
            0 <= i < Self::NUM_ELEMS,
        ensures
            self.decoded(i).wf(),
            self.tracks(self.decoded(i)),
            self.coord(self.decoded(i)) == i,
    ;

    /// A cube that shows the pieces still shows them after a quarter turn
    /// of a face or of the M slice.
    proof fn lemma_quarter_tracks(&self, c: Stickers, m: Move)
        requires
            c.wf(),
            self.tracks(c),
            turns_layer(m),
        ensures
            c.quarter(m).wf(),
            self.tracks(c.quarter(m)),
    ;
}

/// Whether the cube that is decoded from each number below `n` shows the
/// pieces of the index and encodes to that number.
pub open spec fn round_trips<I: Index>(index: &I, n: int) -> bool {
    forall|i: int|
        0 <= i < n ==> index.tracks(#[trigger] index.decoded(i)) && index.coord(index.decoded(i))
            == i
}

/// Iterate over an `Index`'s elements, checking that `from_index` and
/// `from_cube` match: the result says whether every number below
/// `NUM_ELEMS` comes back from the cube that it is decoded to. It always
/// does.
pub fn exhaustive_index_check<I: Index>(index: &I) -> (ok: bool)
    requires
        index.wf(),
    ensures
        ok == round_trips(index, I::NUM_ELEMS as int),
        ok,
{
    let mut i: u32 = 0;
    while i < I::NUM_ELEMS
        invariant
            index.wf(),
            i <= I::NUM_ELEMS,
            round_trips(index, i as int),
        decreases I::NUM_ELEMS - i,
    {
        let c = index.from_index(i);
        proof {
            index.lemma_round_trip(i as int);
        }
        if index.from_cube(&c) != i {
            assert(index.coord(index.decoded(i as int)) != i);
            return false;
        }
        i = i + 1;
    }
    true
}

/// The number of facelets that are still free when `i` cubies of `w`
/// facelets each have been taken out of 24: the radix of digit `i`.
pub open spec fn radix(w: int, i: int) -> int {
    if w == 2 {
        24 - 2 * i
    } else {
        24 - 3 * i
    }
}

/// The cubie that facelet `x` belongs to, for cubies of `w` facelets.
pub open spec fn cubie(w: int, x: int) -> int {
    if w == 2 {
        x / 2
    } else {
        x / 3
    }
}

/// The number of coordinates for `n` pieces: 24 * (24 - w) * ... with `n`
/// factors.
pub open spec fn num_elems(w: int, n: nat) -> int
    decreases n,
{
    if n == 0 {
        1
    } else {
        num_elems(w, (n - 1) as nat) * radix(w, n - 1)
    }
}

/// The positions that a coordinate can stand for: all of them facelets,
/// no two on the same cubie.
pub open spec fn apart(w: int, p: Seq<int>) -> bool {
    &&& forall|i: int| 0 <= i < p.len() ==> 0 <= #[trigger] p[i] < 24
    &&& forall|i: int, j: int|
        0 <= i < p.len() && 0 <= j < p.len() && i != j ==> cubie(w, #[trigger] p[i]) != cubie(
            w,
            #[trigger] p[j],
        )
}

/// A position that lies behind the digit `r` moves down by one cubie when
/// the cubie of `r` is taken out.
pub open spec fn lower(w: int, x: int, r: int) -> int {
    if x > r {
        x - w
    } else {
        x
    }
}

/// The inverse of `lower`: a position that is not before the cubie of the
/// digit `r` moves up by one cubie when that cubie is put back.
pub open spec fn raise(w: int, y: int, r: int) -> int {
    if cubie(w, y) >= cubie(w, r) {
        y + w
    } else {
        y
    }
}

/// Position `p[i]` when the cubies of the first `j` positions have been
/// taken out, one after the other.
pub open spec fn lowered(w: int, p: Seq<int>, i: int, j: int) -> int
    decreases j,
{
    if j <= 0 {
        p[i]
    } else {
        lower(w, lowered(w, p, i, j - 1), lowered(w, p, j - 1, j - 1))
    }
}

/// Digit `i` of the coordinate of the positions `p`.
pub open spec fn digit(w: int, p: Seq<int>, i: int) -> int {
    lowered(w, p, i, i)
}

/// The first `k` digits of the positions `p` as one number, the first digit
/// the most significant, digit `i` in radix `radix(w, i)`.
pub open spec fn combine(w: int, p: Seq<int>, k: nat) -> int
    decreases k,
{
    if k == 0 {
        0
    } else {
        combine(w, p, (k - 1) as nat) * radix(w, k - 1) + digit(w, p, k - 1)
    }
}

/// The coordinate of the positions `p`.
pub open spec fn coordinate(w: int, p: Seq<int>) -> int {
    combine(w, p, p.len())
}

/// The positions at which the cube shows the edges of the list.
pub open spec fn edge_positions(c: Stickers, faces: Seq<(Face, Face)>) -> Seq<int> {
    Seq::new(faces.len(), |i: int| c.edge_pos(faces[i].0, faces[i].1))
}

/// The positions at which the cube shows the corners of the list.
pub open spec fn corner_positions(c: Stickers, faces: Seq<(Face, Face, Face)>) -> Seq<int> {
    Seq::new(faces.len(), |i: int| c.corner_pos(faces[i].0, faces[i].1, faces[i].2))
}

/// While the cubies of earlier positions are taken out, the positions that
/// are left stay on different cubies and within the facelets that are left.
pub proof fn lemma_lowered(w: int, p: Seq<int>, i: int, l: int, j: int)
    requires
        w == 2 || w == 3,
        apart(w, p),
        0 <= j <= i < p.len(),
        j <= l < p.len(),
    ensures
        0 <= lowered(w, p, i, j) < radix(w, j),
        i != l ==> cubie(w, lowered(w, p, i, j)) != cubie(w, lowered(w, p, l, j)),
    decreases j,
{
    if j > 0 {
        lemma_lowered(w, p, i, l, j - 1);
        lemma_lowered(w, p, i, j - 1, j - 1);
        lemma_lowered(w, p, l, j - 1, j - 1);
        lemma_lowered(w, p, j - 1, j - 1, j - 1);
    }
}

/// Each digit is below its radix.
pub proof fn lemma_digit_bound(w: int, p: Seq<int>, i: int)
    requires
        w == 2 || w == 3,
        apart(w, p),
        0 <= i < p.len(),
    ensures
        0 <= digit(w, p, i) < radix(w, i),
{
    lemma_lowered(w, p, i, i, i);
}

/// One more digit keeps the number below the number of coordinates.
proof fn lemma_combine_step(c: int, n: int, r: int, d: int)
    by (nonlinear_arith)
    requires
        0 <= c < n,
        0 <= d < r,
    ensures
        0 <= c * r + d < n * r,
{
}

/// The first `k` digits make a number below `num_elems(w, k)`.
pub proof fn lemma_combine_bound(w: int, p: Seq<int>, k: nat)
    requires
        w == 2 || w == 3,
        apart(w, p),
        k <= p.len(),
    ensures
        0 <= combine(w, p, k) < num_elems(w, k),
    decreases k,
{
    if k > 0 {
        lemma_combine_bound(w, p, (k - 1) as nat);
        lemma_digit_bound(w, p, k - 1);
        lemma_combine_step(
            combine(w, p, (k - 1) as nat),
            num_elems(w, (k - 1) as nat),
            radix(w, k - 1),
            digit(w, p, k - 1),
        );
    }
}

/// The numbers of coordinates for up to eight pieces.
pub proof fn lemma_num_elems_values(w: int)
    requires
        w == 2 || w == 3,
    ensures
        num_elems(w, 0) == 1,
        num_elems(w, 1) == 24,
        num_elems(2, 2) == 528,
        num_elems(2, 3) == 10560,
        num_elems(2, 4) == 190080,
        num_elems(2, 5) == 3041280,
        num_elems(2, 6) == 42577920,
        num_elems(2, 7) == 510935040,
        num_elems(2, 8) == 5109350400,
        num_elems(3, 2) == 504,
        num_elems(3, 3) == 9072,
        num_elems(3, 4) == 136080,
        num_elems(3, 5) == 1632960,
        num_elems(3, 6) == 14696640,
        num_elems(3, 7) == 88179840,
        num_elems(3, 8) == 264539520,
{
    reveal_with_fuel(num_elems, 2);
    assert(num_elems(2, 1) == 24 && num_elems(3, 1) == 24);
    assert(num_elems(2, 2) == 24 * 22);
    assert(num_elems(2, 3) == 528 * 20);
    assert(num_elems(2, 4) == 10560 * 18);
    assert(num_elems(2, 5) == 190080 * 16);
    assert(num_elems(2, 6) == 3041280 * 14);
    assert(num_elems(2, 7) == 42577920 * 12);
    assert(num_elems(2, 8) == 510935040 * 10);
    assert(num_elems(3, 2) == 24 * 21);
    assert(num_elems(3, 3) == 504 * 18);
    assert(num_elems(3, 4) == 9072 * 15);
    assert(num_elems(3, 5) == 136080 * 12);
    assert(num_elems(3, 6) == 1632960 * 9);
    assert(num_elems(3, 7) == 14696640 * 6);
    assert(num_elems(3, 8) == 88179840 * 3);
}

/// The number of coordinates grows with the number of pieces, as long as
/// there are cubies left.
pub proof fn lemma_num_elems_grows(w: int, n: nat, m: nat)
    requires
        w == 2 || w == 3,
        n <= m <= 8,
    ensures
        1 <= num_elems(w, n) <= num_elems(w, m),
{
    lemma_num_elems_values(w);
    lemma_num_elems_values(5 - w);
}

/// The numbers of `s` as integers.
pub open spec fn as_ints(s: Seq<u32>) -> Seq<int> {
    Seq::new(s.len(), |i: int| s[i] as int)
}

/// A number times a positive one, divided by it, is the number.
proof fn lemma_mul_div(c: int, m: int)
    by (nonlinear_arith)
    requires
        m > 0,
    ensures
        (c * m) / m == c,
{
}

/// A product of two bounded numbers is bounded.
proof fn lemma_mul_bound(a: int, b: int, x: int, y: int)
    by (nonlinear_arith)
    requires
        0 <= a <= x,
        0 <= b <= y,
    ensures
        0 <= a * b <= x * y,
{
}

/// Takes the cubies of the positions out one after the other, which leaves
/// the digits, and combines the digits into the coordinate.
fn combine_positions(positions: Vec<u32>, w: u32) -> (index: u32)
    requires
        w == 2 || w == 3,
        positions@.len() <= 7,
        apart(w as int, as_ints(positions@)),
    ensures
        index == coordinate(w as int, as_ints(positions@)),
        index < num_elems(w as int, positions@.len()),
{
    let ghost p = as_ints(positions@);
    let n = positions.len();
    let mut v = positions;
    let mut i: usize = 0;
    while i < n
        invariant
            w == 2 || w == 3,
            i <= n <= 7,
            v@.len() == n,
            p.len() == n,
            apart(w as int, p),
            forall|l: int| 0 <= l < i ==> v@[l] == digit(w as int, p, l),
            forall|l: int| i <= l < n ==> v@[l] == p[l],
        decreases n - i,
    {
        let mut j: usize = 0;
        while j < i
            invariant
                w == 2 || w == 3,
                j <= i < n,
                v@.len() == n,
                p.len() == n,
                apart(w as int, p),
                v@[i as int] == lowered(w as int, p, i as int, j as int),
                forall|l: int| 0 <= l < i ==> v@[l] == digit(w as int, p, l),
                forall|l: int| i < l < n ==> v@[l] == p[l],
            decreases i - j,
        {
            proof {
                lemma_lowered(w as int, p, i as int, j as int, j as int);
                lemma_lowered(w as int, p, j as int, j as int, j as int);
            }
            if v[i] > v[j] {
                let x = v[i];
                v.set(i, x - w);
            }
            j = j + 1;
        }
        i = i + 1;
    }
    let mut mult: u64 = 24;
    let mut index: u64 = 0;
    let mut k: usize = 0;
    while k < n
        invariant
            w == 2 || w == 3,
            k <= n <= 7,
            v@.len() == n,
            p.len() == n,
            apart(w as int, p),
            forall|l: int| 0 <= l < n ==> v@[l] == digit(w as int, p, l),
            mult == radix(w as int, k as int),
            index == combine(w as int, p, k as nat) * mult,
            0 <= combine(w as int, p, k as nat) < num_elems(w as int, k as nat),
        decreases n - k,
    {
        proof {
            lemma_combine_bound(w as int, p, (k + 1) as nat);
            lemma_digit_bound(w as int, p, k as int);
            lemma_num_elems_values(w as int);
            lemma_num_elems_grows(w as int, (k + 1) as nat, 7);
            lemma_mul_bound(combine(w as int, p, k as nat), mult as int, 510935040, 24);
            lemma_mul_bound(
                combine(w as int, p, (k + 1) as nat),
                radix(w as int, k + 1),
                510935040,
                24,
            );
        }
        mult = mult - w as u64;
        index = index + v[k] as u64;
        index = index * mult;
        k = k + 1;
    }
    proof {
        lemma_mul_div(combine(w as int, p, n as nat), mult as int);
        lemma_num_elems_grows(w as int, n as nat, 7);
        lemma_num_elems_values(w as int);
    }
    (index / mult) as u32
}

/// Create an index for a list of edges: the coordinate of the positions at
/// which the cube shows them.
///
/// The edges must be found on the cube, on different cubies, and at most
/// seven of them, so that every coordinate fits.
pub fn generic_edge_index(cube: &Cube, edge_faces: &[(Face, Face)]) -> (index: u32)
    requires
        edge_faces@.len() <= 7,
        apart(2, edge_positions(cube@, edge_faces@)),
    ensures
        index == coordinate(2, edge_positions(cube@, edge_faces@)),
        index < num_elems(2, edge_faces@.len()),
{
    let ghost p = edge_positions(cube@, edge_faces@);
    let mut edges: Vec<u32> = Vec::with_capacity(edge_faces.len());
    let mut i: usize = 0;
    while i < edge_faces.len()
        invariant
            i <= edge_faces@.len(),
            edges@.len() == i,
            p == edge_positions(cube@, edge_faces@),
            apart(2, p),
            forall|l: int| 0 <= l < i ==> edges@[l] == p[l],
        decreases edge_faces@.len() - i,
    {
        let e = edge_faces[i];
        proof {
            assert(0 <= p[i as int] < 24);
            cube@.lemma_edge_pos_from(e.0, e.1, 0);
        }
        let pos = cube.find_edge(e.0, e.1);
        edges.push(pos.index() as u32);
        i = i + 1;
    }
    proof {
        assert(as_ints(edges@) =~= p);
    }
    combine_positions(edges, 2)
}

/// Create an index for a list of corners: the coordinate of the positions
/// at which the cube shows them.
///
/// The corners must be found on the cube, on different cubies, and at most
/// seven of them.
pub fn generic_corner_index(cube: &Cube, corner_faces: &[(Face, Face, Face)]) -> (index: u32)
    requires
        corner_faces@.len() <= 7,
        apart(3, corner_positions(cube@, corner_faces@)),
    ensures
        index == coordinate(3, corner_positions(cube@, corner_faces@)),
        index < num_elems(3, corner_faces@.len()),
{
    let ghost p = corner_positions(cube@, corner_faces@);
    let mut corners: Vec<u32> = Vec::with_capacity(corner_faces.len());
    let mut i: usize = 0;
    while i < corner_faces.len()
        invariant
            i <= corner_faces@.len(),
            corners@.len() == i,
            p == corner_positions(cube@, corner_faces@),
            apart(3, p),
            forall|l: int| 0 <= l < i ==> corners@[l] == p[l],
        decreases corner_faces@.len() - i,
    {
        let e = corner_faces[i];
        proof {
            assert(0 <= p[i as int] < 24);
            cube@.lemma_corner_pos_from(e.0, e.1, e.2, 0);
        }
        let pos = cube.find_corner(e.0, e.1, e.2);
        corners.push(pos.index() as u32);
        i = i + 1;
    }
    proof {
        assert(as_ints(corners@) =~= p);
    }
    combine_positions(corners, 3)
}

/// What is left of `index` when `k` digits have been taken from it, the
/// last digit of the `n` first.
pub open spec fn remainder(w: int, n: int, index: int, k: nat) -> int
    decreases k,
{
    if k == 0 {
        index
    } else {
        remainder(w, n, index, (k - 1) as nat) / radix(w, n - k)
    }
}

/// The digit that is taken from `index` after `k` others: digit `n - 1 - k` of
/// a coordinate for `n` pieces.
pub open spec fn taken(w: int, n: int, index: int, k: int) -> int {
    remainder(w, n, index, k as nat) % radix(w, n - 1 - k)
}

/// The `n` digits of `index`, in the order in which they are taken.
pub open spec fn taken_digits(w: int, n: nat, index: int) -> Seq<int> {
    Seq::new(n, |k: int| taken(w, n as int, index, k))
}

/// Digit `d[i]` when the cubies of the digits `d[i + 1]` to `d[j - 1]` have
/// been put back, one after the other.
pub open spec fn raised(w: int, d: Seq<int>, i: int, j: int) -> int
    decreases j - i,
{
    if j <= i + 1 {
        d[i]
    } else {
        raise(w, raised(w, d, i, j - 1), d[j - 1])
    }
}

/// The positions that `index` stands for as a coordinate of `n` pieces, the
/// position of the last piece first.
pub open spec fn decoded_positions(w: int, n: nat, index: int) -> Seq<int> {
    Seq::new(n, |i: int| raised(w, taken_digits(w, n, index), i, n as int))
}

/// The stickers `s` with the first `k` edges of the list written at the
/// positions `pos`.
pub open spec fn place_edges(s: Seq<Face>, pos: Seq<int>, faces: Seq<(Face, Face)>, k: nat) -> Seq<
    Face,
>
    decreases k,
{
    if k == 0 {
        s
    } else {
        place_edges(s, pos, faces, (k - 1) as nat).update(pos[k - 1], faces[k - 1].0).update(
            edge_sister(pos[k - 1]),
            faces[k - 1].1,
        )
    }
}

/// The stickers `s` with the first `k` corners of the list written at the
/// positions `pos`.
pub open spec fn place_corners(
    s: Seq<Face>,
    pos: Seq<int>,
    faces: Seq<(Face, Face, Face)>,
    k: nat,
) -> Seq<Face>
    decreases k,
{
    if k == 0 {
        s
    } else {
        place_corners(s, pos, faces, (k - 1) as nat).update(pos[k - 1], faces[k - 1].0).update(
            corner_next(pos[k - 1]),
            faces[k - 1].1,
        ).update(corner_next(corner_next(pos[k - 1])), faces[k - 1].2)
    }
}

/// The cube `c` with the edges of the list written where `index` says.
pub open spec fn edge_decoded(c: Stickers, index: int, faces: Seq<(Face, Face)>) -> Stickers {
    Stickers {
        edges: place_edges(c.edges, decoded_positions(2, faces.len(), index), faces, faces.len()),
        ..c
    }
}

/// The cube `c` with the corners of the list written where `index` says.
pub open spec fn corner_decoded(c: Stickers, index: int, faces: Seq<(Face, Face, Face)>) -> Stickers {
    Stickers {
        corners: place_corners(
            c.corners,
            decoded_positions(3, faces.len(), index),
            faces,
            faces.len(),
        ),
        ..c
    }
}

/// What is left of an index is never negative, and each digit taken from it
/// is below its radix.
pub proof fn lemma_taken(w: int, n: int, index: int, k: nat)
    requires
        w == 2 && n <= 12 || w == 3 && n <= 8,
        0 <= index,
        k < n,
    ensures
        0 <= remainder(w, n, index, k),
        0 <= taken(w, n, index, k as int) < radix(w, n - 1 - k),
    decreases k,
{
    if k > 0 {
        lemma_taken(w, n, index, (k - 1) as nat);
        lemma_div_pos_is_pos(remainder(w, n, index, (k - 1) as nat), radix(w, n - k));
    }
    lemma_mod_pos_bound(remainder(w, n, index, k), radix(w, n - 1 - k));
}

/// Whether each of the `n` digits of `d` is below its radix, the last digit
/// of the coordinate first.
pub open spec fn digits_in_radix(w: int, n: int, d: Seq<int>) -> bool {
    &&& d.len() == n
    &&& forall|k: int| 0 <= k < n ==> 0 <= #[trigger] d[k] < radix(w, n - 1 - k)
}

/// While the cubies of later digits are put back, the positions stay on
/// different cubies and within the facelets that there are by then.
pub proof fn lemma_raised(w: int, n: int, d: Seq<int>, i: int, l: int, j: int)
    requires
        w == 2 && n <= 12 || w == 3 && n <= 8,
        digits_in_radix(w, n, d),
        0 <= i < j <= n,
        0 <= l < j,
    ensures
        0 <= raised(w, d, i, j) < radix(w, n - j),
        i != l ==> cubie(w, raised(w, d, i, j)) != cubie(w, raised(w, d, l, j)),
    decreases j,
{
    if j > i + 1 && j > l + 1 {
        lemma_raised(w, n, d, i, l, j - 1);
    } else if j > i + 1 {
        lemma_raised(w, n, d, i, i, j - 1);
    } else if j > l + 1 {
        lemma_raised(w, n, d, l, l, j - 1);
    }
}

/// Takes the digits of `index` for `n` pieces and puts the cubies back,
/// which gives the positions of the pieces.
fn split_positions(index: u32, n: usize, w: u32) -> (v: Vec<u32>)
    requires
        w == 2 && n <= 12 || w == 3 && n <= 8,
    ensures
        v@.len() == n,
        as_ints(v@) == decoded_positions(w as int, n as nat, index as int),
        apart(w as int, as_ints(v@)),
{
    let ghost d = taken_digits(w as int, n as nat, index as int);
    let mut v: Vec<u32> = Vec::with_capacity(n);
    if n == 0 {
        assert(as_ints(v@) =~= decoded_positions(w as int, n as nat, index as int));
        return v;
    }
    let mut div: u32 = 24 - (n as u32 - 1) * w;
    let mut rest: u32 = index;
    let mut k: usize = 0;
    while k < n
        invariant
            w == 2 && n <= 12 || w == 3 && n <= 8,
            k <= n,
            v@.len() == k,
            d == taken_digits(w as int, n as nat, index as int),
            k < n ==> div == radix(w as int, n - 1 - k),
            rest == remainder(w as int, n as int, index as int, k as nat),
            forall|l: int| 0 <= l < k ==> v@[l] == d[l],
        decreases n - k,
    {
        v.push(rest % div);
        rest = rest / div;
        if k + 1 < n {
            div = div + w;
        }
        k = k + 1;
    }
    proof {
        assert forall|l: int| 0 <= l < n implies 0 <= #[trigger] d[l] < radix(
            w as int,
            n - 1 - l,
        ) by {
            lemma_taken(w as int, n as int, index as int, l as nat);
        }
    }
    let mut i: usize = 0;
    while i < n
        invariant
            w == 2 && n <= 12 || w == 3 && n <= 8,
            i <= n,
            v@.len() == n,
            digits_in_radix(w as int, n as int, d),
            forall|l: int| 0 <= l < i ==> v@[l] == raised(w as int, d, l, n as int),
            forall|l: int| i <= l < n ==> v@[l] == d[l],
        decreases n - i,
    {
        let mut j: usize = i + 1;
        while j < n
            invariant
                w == 2 && n <= 12 || w == 3 && n <= 8,
                i < j <= n,
                v@.len() == n,
                digits_in_radix(w as int, n as int, d),
                v@[i as int] == raised(w as int, d, i as int, j as int),
                forall|l: int| 0 <= l < i ==> v@[l] == raised(w as int, d, l, n as int),
                forall|l: int| i < l < n ==> v@[l] == d[l],
            decreases n - j,
        {
            proof {
                lemma_raised(w as int, n as int, d, i as int, i as int, j as int);
            }
            if v[i] / w >= v[j] / w {
                let y = v[i];
                v.set(i, y + w);
            }
            j = j + 1;
        }
        i = i + 1;
    }
    proof {
        assert(as_ints(v@) =~= decoded_positions(w as int, n as nat, index as int));
        assert forall|a: int, b: int| 0 <= a < n && 0 <= b < n implies 0 <= as_ints(v@)[a] < 24
            && (a != b ==> cubie(w as int, as_ints(v@)[a]) != cubie(w as int, as_ints(v@)[b])) by {
            lemma_raised(w as int, n as int, d, a, b, n as int);
        }
    }
    v
}

/// Decode `index` and fill in `cube`'s edges: each edge of the list is
/// written at the position that `index` gives it, the last digit standing
/// for the first edge. Any index is taken, and at most twelve edges.
pub fn generic_edge_index_decode(cube: &mut Cube, index: u32, edge_faces: &[(Face, Face)])
    requires
        edge_faces@.len() <= 12,
    ensures
        final(cube)@ == edge_decoded(old(cube)@, index as int, edge_faces@),
{
    let n = edge_faces.len();
    let edges = split_positions(index, n, 2);
    let ghost pos = decoded_positions(2, n as nat, index as int);
    let mut i: usize = 0;
    while i < n
        invariant
            i <= n,
            n == edge_faces@.len(),
            edges@.len() == n,
            as_ints(edges@) == pos,
            apart(2, pos),
            cube@.corners == old(cube)@.corners,
            cube@.centres == old(cube)@.centres,
            cube@.edges == place_edges(old(cube)@.edges, pos, edge_faces@, i as nat),
        decreases n - i,
    {
        let e = edges[i];
        let f = edge_faces[i];
        proof {
            assert(e == pos[i as int]);
            assert(e ^ 1 == (if e % 2 == 0 {
                (e + 1) as u32
            } else {
                (e - 1) as u32
            })) by (bit_vector)
                requires
                    e < 24,
            ;
        }
        cube.edges[e as usize] = f.0;
        cube.edges[(e ^ 1) as usize] = f.1;
        i = i + 1;
    }
}

/// Decode `index` and fill in `cube`'s corners: each corner of the list is
/// written, clockwise from the position that `index` gives it, the last
/// digit standing for the first corner. Any index is taken, and at most
/// eight corners.
pub fn generic_corner_index_decode(
    cube: &mut Cube,
    index: u32,
    corner_faces: &[(Face, Face, Face)],
)
    requires
        corner_faces@.len() <= 8,
    ensures
        final(cube)@ == corner_decoded(old(cube)@, index as int, corner_faces@),
{
    let n = corner_faces.len();
    let corners = split_positions(index, n, 3);
    let ghost pos = decoded_positions(3, n as nat, index as int);
    let mut i: usize = 0;
    while i < n
        invariant
            i <= n,
            n == corner_faces@.len(),
            corners@.len() == n,
            as_ints(corners@) == pos,
            apart(3, pos),
            cube@.edges == old(cube)@.edges,
            cube@.centres == old(cube)@.centres,
            cube@.corners == place_corners(old(cube)@.corners, pos, corner_faces@, i as nat),
        decreases n - i,
    {
        let corner_index = corners[i];
        let f = corner_faces[i];
        proof {
            assert(corner_index == pos[i as int]);
        }
        let order = if corner_index % 3 == 0 {
            (corner_index, corner_index + 1, corner_index + 2)
        } else if corner_index % 3 == 1 {
            (corner_index, corner_index + 1, corner_index - 1)
        } else {
            (corner_index, corner_index - 2, corner_index - 1)
        };
        cube.corners[order.0 as usize] = f.0;
        cube.corners[order.1 as usize] = f.1;
        cube.corners[order.2 as usize] = f.2;
        i = i + 1;
    }
}

} // verus!
