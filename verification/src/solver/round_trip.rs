//! Decoding a coordinate and encoding the cube that comes out gives the
//! coordinate back.

use vstd::prelude::*;
use vstd::arithmetic::div_mod::{
    lemma_fundamental_div_mod, lemma_fundamental_div_mod_converse, lemma_multiply_divide_lt,
};
use crate::cube::Face;
use crate::cube::sticker_cube::{corner_next, edge_sister, Stickers};
use crate::solver::index::{
    apart, combine, coordinate, corner_decoded, corner_positions, cubie, decoded_positions,
    digit, digits_in_radix, edge_decoded, edge_positions, lemma_combine_bound,
    lemma_digit_bound, lemma_lowered, lemma_raised, lemma_taken, lower, lowered, num_elems,
    place_corners, place_edges, radix, raise, raised, remainder, taken, taken_digits,
};

verus! {

/// Edges that can be told apart wherever they lie: none shows one colour
/// twice, and no two of them are the same edge, flipped or not.
pub open spec fn distinct_edges(faces: Seq<(Face, Face)>) -> bool {
    &&& forall|i: int| 0 <= i < faces.len() ==> (#[trigger] faces[i]).0 != faces[i].1
    &&& forall|i: int, j: int|
        0 <= i < faces.len() && 0 <= j < faces.len() && i != j ==> {
            &&& #[trigger] faces[i] != #[trigger] faces[j]
            &&& faces[i] != (faces[j].1, faces[j].0)
        }
}

/// Corners that can be told apart wherever they lie: none shows one colour
/// three times, and no two of them are the same corner, twisted or not.
pub open spec fn distinct_corners(faces: Seq<(Face, Face, Face)>) -> bool {
    &&& forall|i: int|
        0 <= i < faces.len() ==> !((#[trigger] faces[i]).0 == faces[i].1 && faces[i].1
            == faces[i].2)
    &&& forall|i: int, j: int|
        0 <= i < faces.len() && 0 <= j < faces.len() && i != j ==> {
            &&& #[trigger] faces[i] != #[trigger] faces[j]
            &&& faces[i] != (faces[j].1, faces[j].2, faces[j].0)
            &&& faces[i] != (faces[j].2, faces[j].0, faces[j].1)
        }
}

/// The cube shows each edge of the list at one position only, and the edges
/// lie on different cubies.
pub open spec fn edges_tracked(c: Stickers, faces: Seq<(Face, Face)>) -> bool {
    &&& apart(2, edge_positions(c, faces))
    &&& forall|i: int, q: int|
        0 <= i < faces.len() && 0 <= q < 24 && #[trigger] c.edge_at(
            q,
            faces[i].0,
            faces[i].1,
        ) ==> q == c.edge_pos(faces[i].0, faces[i].1)
}

/// The cube shows each corner of the list at one position only, and the
/// corners lie on different cubies.
pub open spec fn corners_tracked(c: Stickers, faces: Seq<(Face, Face, Face)>) -> bool {
    &&& apart(3, corner_positions(c, faces))
    &&& forall|i: int, q: int|
        0 <= i < faces.len() && 0 <= q < 24 && #[trigger] c.corner_at(
            q,
            faces[i].0,
            faces[i].1,
            faces[i].2,
        ) ==> q == c.corner_pos(faces[i].0, faces[i].1, faces[i].2)
}

/// Taking a cubie out undoes putting it back.
pub proof fn lemma_lower_raise(w: int, y: int, r: int)
    requires
        w == 2 || w == 3,
    ensures
        lower(w, raise(w, y, r), r) == y,
{
}

/// The positions that come from the digits `d`, read in the order of the
/// coordinate, give the digits back when the cubies are taken out again.
pub proof fn lemma_lowered_raised(w: int, n: int, d: Seq<int>, p: Seq<int>, a: int, b: int)
    requires
        w == 2 && n <= 12 || w == 3 && n <= 8,
        digits_in_radix(w, n, d),
        p.len() == n,
        forall|i: int| 0 <= i < n ==> #[trigger] p[i] == raised(w, d, n - 1 - i, n),
        0 <= b <= a < n,
    ensures
        lowered(w, p, a, b) == raised(w, d, n - 1 - a, n - b),
    decreases b,
{
    if b > 0 {
        lemma_lowered_raised(w, n, d, p, a, b - 1);
        lemma_lowered_raised(w, n, d, p, b - 1, b - 1);
        lemma_lower_raise(w, raised(w, d, n - 1 - a, n - b), d[n - b]);
    }
}

/// What is left of an index below `num_elems(w, n)` after `k` digits is
/// below `num_elems(w, n - k)`.
pub proof fn lemma_remainder_bound(w: int, n: int, index: int, k: nat)
    requires
        w == 2 && n <= 12 || w == 3 && n <= 8,
        0 <= index < num_elems(w, n as nat),
        k <= n,
    ensures
        0 <= remainder(w, n, index, k) < num_elems(w, (n - k) as nat),
    decreases k,
{
    if k > 0 {
        lemma_remainder_bound(w, n, index, (k - 1) as nat);
        lemma_taken(w, n, index, (k - 1) as nat);
        let rest = remainder(w, n, index, (k - 1) as nat);
        let r = radix(w, n - k);
        let m = num_elems(w, (n - k) as nat);
        assert(num_elems(w, (n - k + 1) as nat) == m * r);
        assert(m * r == r * m) by (nonlinear_arith);
        lemma_multiply_divide_lt(rest, r, m);
        vstd::arithmetic::div_mod::lemma_div_pos_is_pos(rest, r);
    }
}

/// The digits that are taken from an index, combined again from the first
/// of the coordinate on, make what was left of the index before they were
/// taken.
pub proof fn lemma_combine_taken(w: int, n: int, index: int, p: Seq<int>, a: nat)
    requires
        w == 2 && n <= 12 || w == 3 && n <= 8,
        0 <= index < num_elems(w, n as nat),
        p.len() == n,
        forall|i: int| 0 <= i < n ==> digit(w, p, i) == taken(w, n, index, n - 1 - i),
        a <= n,
    ensures
        combine(w, p, a) == remainder(w, n, index, (n - a) as nat),
    decreases a,
{
    if a == 0 {
        lemma_remainder_bound(w, n, index, n as nat);
    } else {
        lemma_combine_taken(w, n, index, p, (a - 1) as nat);
        let rest = remainder(w, n, index, (n - a) as nat);
        let r = radix(w, a - 1);
        assert(remainder(w, n, index, (n - a + 1) as nat) == rest / r);
        assert(digit(w, p, a - 1) == rest % r);
        lemma_fundamental_div_mod(rest, r);
        assert(r * (rest / r) == (rest / r) * r) by (nonlinear_arith);
    }
}

/// Decoding an index below `num_elems(w, n)` gives positions whose
/// coordinate, read from the last position to the first, is the index.
pub proof fn lemma_positions_round_trip(w: int, n: nat, index: int)
    requires
        w == 2 && n <= 12 || w == 3 && n <= 8,
        0 <= index < num_elems(w, n),
    ensures
        apart(w, decoded_positions(w, n, index).reverse()),
        coordinate(w, decoded_positions(w, n, index).reverse()) == index,
{
    let d = taken_digits(w, n, index);
    let pos = decoded_positions(w, n, index);
    let p = pos.reverse();
    assert forall|k: int| 0 <= k < n implies 0 <= #[trigger] d[k] < radix(w, n - 1 - k) by {
        lemma_taken(w, n as int, index, k as nat);
    }
    assert forall|a: int, b: int| 0 <= a < n && 0 <= b < n implies 0 <= p[a] < 24 && (a != b
        ==> cubie(w, p[a]) != cubie(w, p[b])) by {
        lemma_raised(w, n as int, d, n - 1 - a, n - 1 - b, n as int);
    }
    assert forall|i: int| 0 <= i < n implies digit(w, p, i) == taken(
        w,
        n as int,
        index,
        n - 1 - i,
    ) by {
        lemma_lowered_raised(w, n as int, d, p, i, i);
    }
    lemma_combine_taken(w, n as int, index, p, n);
}

/// The two facelets of an edge cubie, and no others, share its cubie.
pub proof fn lemma_edge_cubie(p: int, q: int)
    requires
        0 <= p < 24,
        0 <= q < 24,
    ensures
        0 <= edge_sister(p) < 24,
        edge_sister(edge_sister(p)) == p,
        cubie(2, edge_sister(p)) == cubie(2, p),
        cubie(2, q) == cubie(2, p) <==> q == p || q == edge_sister(p),
{
}

/// The three facelets of a corner cubie, and no others, share its cubie.
pub proof fn lemma_corner_cubie(p: int, q: int)
    requires
        0 <= p < 24,
        0 <= q < 24,
    ensures
        0 <= corner_next(p) < 24,
        corner_next(p) != p,
        corner_next(corner_next(p)) != p,
        corner_next(corner_next(corner_next(p))) == p,
        cubie(3, corner_next(p)) == cubie(3, p),
        cubie(3, q) == cubie(3, p) <==> q == p || q == corner_next(p) || q == corner_next(
            corner_next(p),
        ),
{
}

/// Whether facelet `q` lies on none of the cubies of the first `k`
/// positions.
pub open spec fn off_cubies(w: int, pos: Seq<int>, k: int, q: int) -> bool {
    forall|l: int| 0 <= l < k ==> cubie(w, q) != cubie(w, #[trigger] pos[l])
}

/// Edges written on different cubies do not overwrite each other, and leave
/// the other cubies as they were.
pub proof fn lemma_place_edges(s: Seq<Face>, pos: Seq<int>, faces: Seq<(Face, Face)>, k: nat)
    requires
        s.len() == 24,
        apart(2, pos),
        pos.len() == faces.len(),
        k <= pos.len(),
    ensures
        place_edges(s, pos, faces, k).len() == 24,
        forall|l: int|
            0 <= l < k ==> place_edges(s, pos, faces, k)[#[trigger] pos[l]] == faces[l].0
                && place_edges(s, pos, faces, k)[edge_sister(pos[l])] == faces[l].1,
        forall|q: int|
            0 <= q < 24 && #[trigger] off_cubies(2, pos, k as int, q) ==> place_edges(
                s,
                pos,
                faces,
                k,
            )[q] == s[q],
    decreases k,
{
    if k > 0 {
        lemma_place_edges(s, pos, faces, (k - 1) as nat);
        let t0 = place_edges(s, pos, faces, (k - 1) as nat);
        let t = place_edges(s, pos, faces, k);
        let x = pos[k - 1];
        lemma_edge_cubie(x, x);
        assert forall|l: int| 0 <= l < k implies t[#[trigger] pos[l]] == faces[l].0 && t[edge_sister(
            pos[l],
        )] == faces[l].1 by {
            lemma_edge_cubie(pos[l], x);
            lemma_edge_cubie(x, pos[l]);
            lemma_edge_cubie(pos[l], edge_sister(x));
        }
        assert forall|q: int| 0 <= q < 24 && #[trigger] off_cubies(2, pos, k as int, q) implies t[q]
            == s[q] by {
            assert(cubie(2, q) != cubie(2, pos[k - 1]));
            lemma_edge_cubie(x, q);
            assert(off_cubies(2, pos, k - 1, q));
        }
    }
}

/// Corners written on different cubies do not overwrite each other, and
/// leave the other cubies as they were.
pub proof fn lemma_place_corners(
    s: Seq<Face>,
    pos: Seq<int>,
    faces: Seq<(Face, Face, Face)>,
    k: nat,
)
    requires
        s.len() == 24,
        apart(3, pos),
        pos.len() == faces.len(),
        k <= pos.len(),
    ensures
        place_corners(s, pos, faces, k).len() == 24,
        forall|l: int|
            0 <= l < k ==> place_corners(s, pos, faces, k)[#[trigger] pos[l]] == faces[l].0
                && place_corners(s, pos, faces, k)[corner_next(pos[l])] == faces[l].1
                && place_corners(s, pos, faces, k)[corner_next(corner_next(pos[l]))]
                == faces[l].2,
        forall|q: int|
            0 <= q < 24 && #[trigger] off_cubies(3, pos, k as int, q) ==> place_corners(
                s,
                pos,
                faces,
                k,
            )[q] == s[q],
    decreases k,
{
    if k > 0 {
        lemma_place_corners(s, pos, faces, (k - 1) as nat);
        let t0 = place_corners(s, pos, faces, (k - 1) as nat);
        let t = place_corners(s, pos, faces, k);
        let x = pos[k - 1];
        lemma_corner_cubie(x, x);
        assert forall|l: int| 0 <= l < k implies t[#[trigger] pos[l]] == faces[l].0 && t[corner_next(
            pos[l],
        )] == faces[l].1 && t[corner_next(corner_next(pos[l]))] == faces[l].2 by {
            lemma_corner_cubie(pos[l], x);
            lemma_corner_cubie(x, pos[l]);
            lemma_corner_cubie(pos[l], corner_next(x));
            lemma_corner_cubie(pos[l], corner_next(corner_next(x)));
        }
        assert forall|q: int|
            0 <= q < 24 && #[trigger] off_cubies(3, pos, k as int, q) implies t[q] == s[q] by {
            assert(cubie(3, q) != cubie(3, pos[k - 1]));
            lemma_corner_cubie(x, q);
            assert(off_cubies(3, pos, k - 1, q));
        }
    }
}

/// On a blank cube on which distinct edges were written on different
/// cubies, each of them is found where it was written, and nowhere else.
pub proof fn lemma_edges_found(pos: Seq<int>, faces: Seq<(Face, Face)>, i: int)
    requires
        apart(2, pos),
        pos.len() == faces.len(),
        distinct_edges(faces),
        0 <= i < faces.len(),
    ensures
        ({
            let c = Stickers {
                edges: place_edges(Stickers::invalid().edges, pos, faces, faces.len()),
                ..Stickers::invalid()
            };
            &&& c.edge_pos(faces[i].0, faces[i].1) == pos[i]
            &&& forall|q: int|
                0 <= q < 24 && c.edge_at(q, faces[i].0, faces[i].1) ==> q == pos[i]
        }),
{
    let n = faces.len();
    let s = Stickers::invalid().edges;
    let t = place_edges(s, pos, faces, n);
    let c = Stickers { edges: t, ..Stickers::invalid() };
    let f = faces[i];
    lemma_place_edges(s, pos, faces, n);
    assert(t[pos[i]] == f.0 && t[edge_sister(pos[i])] == f.1);
    assert(c.edge_at(pos[i], f.0, f.1));
    assert forall|q: int| 0 <= q < 24 && c.edge_at(q, f.0, f.1) implies q == pos[i] by {
        lemma_edge_cubie(q, q);
        if off_cubies(2, pos, n as int, q) {
            assert(off_cubies(2, pos, n as int, edge_sister(q)));
            assert(t[q] == Face::U && t[edge_sister(q)] == Face::U);
        } else {
            let l = choose|l: int| 0 <= l < n && cubie(2, q) == cubie(2, #[trigger] pos[l]);
            lemma_edge_cubie(pos[l], q);
            assert(t[pos[l]] == faces[l].0 && t[edge_sister(pos[l])] == faces[l].1);
            if l != i {
                assert(faces[i] != faces[l] && faces[i] != (faces[l].1, faces[l].0));
            }
        }
    }
    c.lemma_edge_pos_from(f.0, f.1, 0);
}

/// On a blank cube on which distinct corners were written on different
/// cubies, each of them is found where it was written, and nowhere else.
pub proof fn lemma_corners_found(pos: Seq<int>, faces: Seq<(Face, Face, Face)>, i: int)
    requires
        apart(3, pos),
        pos.len() == faces.len(),
        distinct_corners(faces),
        0 <= i < faces.len(),
    ensures
        ({
            let c = Stickers {
                corners: place_corners(Stickers::invalid().corners, pos, faces, faces.len()),
                ..Stickers::invalid()
            };
            &&& c.corner_pos(faces[i].0, faces[i].1, faces[i].2) == pos[i]
            &&& forall|q: int|
                0 <= q < 24 && c.corner_at(q, faces[i].0, faces[i].1, faces[i].2) ==> q
                    == pos[i]
        }),
{
    let n = faces.len();
    let s = Stickers::invalid().corners;
    let t = place_corners(s, pos, faces, n);
    let c = Stickers { corners: t, ..Stickers::invalid() };
    let f = faces[i];
    lemma_place_corners(s, pos, faces, n);
    assert(t[pos[i]] == f.0 && t[corner_next(pos[i])] == f.1 && t[corner_next(
        corner_next(pos[i]),
    )] == f.2);
    lemma_corner_cubie(pos[i], pos[i]);
    assert(c.corner_at(pos[i], f.0, f.1, f.2));
    assert forall|q: int| 0 <= q < 24 && c.corner_at(q, f.0, f.1, f.2) implies q == pos[i] by {
        lemma_corner_cubie(q, q);
        lemma_corner_cubie(corner_next(q), q);
        if off_cubies(3, pos, n as int, q) {
            assert(off_cubies(3, pos, n as int, corner_next(q)));
            assert(off_cubies(3, pos, n as int, corner_next(corner_next(q))));
            assert(t[q] == Face::U && t[corner_next(q)] == Face::U && t[corner_next(
                corner_next(q),
            )] == Face::U);
        } else {
            let l = choose|l: int| 0 <= l < n && cubie(3, q) == cubie(3, #[trigger] pos[l]);
            lemma_corner_cubie(pos[l], q);
            lemma_corner_cubie(corner_next(pos[l]), q);
            assert(t[pos[l]] == faces[l].0 && t[corner_next(pos[l])] == faces[l].1
                && t[corner_next(corner_next(pos[l]))] == faces[l].2);
            if l != i {
                assert(faces[i] != faces[l] && faces[i] != (
                    faces[l].1,
                    faces[l].2,
                    faces[l].0,
                ) && faces[i] != (faces[l].2, faces[l].0, faces[l].1));
            }
        }
    }
    c.lemma_corner_pos_from(f.0, f.1, f.2, 0);
}

/// Index round trip for a list of edges: the cube that comes of decoding an
/// index below `num_elems(2, n)` with the list in reverse shows the edges of
/// the list once each, on different cubies, and its coordinate is the index.
pub proof fn lemma_edge_round_trip(index: int, faces: Seq<(Face, Face)>)
    requires
        faces.len() <= 12,
        distinct_edges(faces),
        0 <= index < num_elems(2, faces.len()),
    ensures
        edges_tracked(edge_decoded(Stickers::invalid(), index, faces.reverse()), faces),
        edge_positions(edge_decoded(Stickers::invalid(), index, faces.reverse()), faces)
            == decoded_positions(2, faces.len(), index).reverse(),
        coordinate(
            2,
            edge_positions(edge_decoded(Stickers::invalid(), index, faces.reverse()), faces),
        ) == index,
{
    let n = faces.len();
    let rev = faces.reverse();
    let pos = decoded_positions(2, n, index);
    let c = edge_decoded(Stickers::invalid(), index, rev);
    lemma_positions_round_trip(2, n, index);
    assert forall|a: int, b: int| 0 <= a < n && 0 <= b < n implies 0 <= pos[a] < 24 && (a != b
        ==> cubie(2, pos[a]) != cubie(2, pos[b])) by {
        assert(pos.reverse()[n - 1 - a] == pos[a]);
        assert(pos.reverse()[n - 1 - b] == pos[b]);
    }
    assert(distinct_edges(rev)) by {
        assert forall|i: int, j: int| 0 <= i < n && 0 <= j < n implies rev[i].0 != rev[i].1 && (i
            != j ==> rev[i] != rev[j] && rev[i] != (rev[j].1, rev[j].0)) by {
            assert(rev[i] == faces[n - 1 - i]);
            assert(rev[j] == faces[n - 1 - j]);
        }
    }
    assert forall|i: int| 0 <= i < n implies c.edge_pos(faces[i].0, faces[i].1) == pos[n - 1
        - i] && (forall|q: int|
        0 <= q < 24 && c.edge_at(q, faces[i].0, faces[i].1) ==> q == pos[n - 1 - i]) by {
        lemma_edges_found(pos, rev, n - 1 - i);
        assert(rev[n - 1 - i] == faces[i]);
    }
    assert(edge_positions(c, faces) =~= pos.reverse());
}

/// Index round trip for a list of corners: the cube that comes of decoding
/// an index below `num_elems(3, n)` with the list in reverse shows the
/// corners of the list once each, on different cubies, and its coordinate is
/// the index.
pub proof fn lemma_corner_round_trip(index: int, faces: Seq<(Face, Face, Face)>)
    requires
        faces.len() <= 8,
        distinct_corners(faces),
        0 <= index < num_elems(3, faces.len()),
    ensures
        corners_tracked(corner_decoded(Stickers::invalid(), index, faces.reverse()), faces),
        corner_positions(corner_decoded(Stickers::invalid(), index, faces.reverse()), faces)
            == decoded_positions(3, faces.len(), index).reverse(),
        coordinate(
            3,
            corner_positions(
                corner_decoded(Stickers::invalid(), index, faces.reverse()),
                faces,
            ),
        ) == index,
{
    let n = faces.len();
    let rev = faces.reverse();
    let pos = decoded_positions(3, n, index);
    let c = corner_decoded(Stickers::invalid(), index, rev);
    lemma_positions_round_trip(3, n, index);
    assert forall|a: int, b: int| 0 <= a < n && 0 <= b < n implies 0 <= pos[a] < 24 && (a != b
        ==> cubie(3, pos[a]) != cubie(3, pos[b])) by {
        assert(pos.reverse()[n - 1 - a] == pos[a]);
        assert(pos.reverse()[n - 1 - b] == pos[b]);
    }
    assert(distinct_corners(rev)) by {
        assert forall|i: int, j: int| 0 <= i < n && 0 <= j < n implies !(rev[i].0 == rev[i].1
            && rev[i].1 == rev[i].2) && (i != j ==> rev[i] != rev[j] && rev[i] != (
            rev[j].1,
            rev[j].2,
            rev[j].0,
        ) && rev[i] != (rev[j].2, rev[j].0, rev[j].1)) by {
            assert(rev[i] == faces[n - 1 - i]);
            assert(rev[j] == faces[n - 1 - j]);
        }
    }
    assert forall|i: int| 0 <= i < n implies c.corner_pos(faces[i].0, faces[i].1, faces[i].2)
        == pos[n - 1 - i] && (forall|q: int|
        0 <= q < 24 && c.corner_at(q, faces[i].0, faces[i].1, faces[i].2) ==> q == pos[n - 1
            - i]) by {
        lemma_corners_found(pos, rev, n - 1 - i);
        assert(rev[n - 1 - i] == faces[i]);
    }
    assert(corner_positions(c, faces) =~= pos.reverse());
}

/// Decoding edges onto the blank cube leaves a cube of 24, 24 and 6
/// stickers.
pub proof fn lemma_edge_decoded_wf(index: int, faces: Seq<(Face, Face)>)
    requires
        faces.len() <= 12,
        0 <= index,
    ensures
        edge_decoded(Stickers::invalid(), index, faces).wf(),
{
    let n = faces.len();
    let d = taken_digits(2, n, index);
    let pos = decoded_positions(2, n, index);
    assert forall|k: int| 0 <= k < n implies 0 <= #[trigger] d[k] < radix(2, n - 1 - k) by {
        lemma_taken(2, n as int, index, k as nat);
    }
    assert forall|a: int, b: int| 0 <= a < n && 0 <= b < n implies 0 <= pos[a] < 24 && (a != b
        ==> cubie(2, pos[a]) != cubie(2, pos[b])) by {
        lemma_raised(2, n as int, d, a, b, n as int);
    }
    lemma_place_edges(Stickers::invalid().edges, pos, faces, n);
}

/// Decoding corners onto the blank cube leaves a cube of 24, 24 and 6
/// stickers.
pub proof fn lemma_corner_decoded_wf(index: int, faces: Seq<(Face, Face, Face)>)
    requires
        faces.len() <= 8,
        0 <= index,
    ensures
        corner_decoded(Stickers::invalid(), index, faces).wf(),
{
    let n = faces.len();
    let d = taken_digits(3, n, index);
    let pos = decoded_positions(3, n, index);
    assert forall|k: int| 0 <= k < n implies 0 <= #[trigger] d[k] < radix(3, n - 1 - k) by {
        lemma_taken(3, n as int, index, k as nat);
    }
    assert forall|a: int, b: int| 0 <= a < n && 0 <= b < n implies 0 <= pos[a] < 24 && (a != b
        ==> cubie(3, pos[a]) != cubie(3, pos[b])) by {
        lemma_raised(3, n as int, d, a, b, n as int);
    }
    lemma_place_corners(Stickers::invalid().corners, pos, faces, n);
}

/// Putting a cubie back undoes taking it out, for a position on another
/// cubie.
pub proof fn lemma_raise_lower(w: int, x: int, r: int)
    requires
        w == 2 || w == 3,
        0 <= x,
        0 <= r,
        cubie(w, x) != cubie(w, r),
    ensures
        raise(w, lower(w, x, r), r) == x,
{
}

/// The digits of positions, combined, leave the number of the digits
/// before them when the digits behind have been taken.
pub proof fn lemma_remainder_combine(w: int, p: Seq<int>, k: nat)
    requires
        w == 2 && p.len() <= 12 || w == 3 && p.len() <= 8,
        apart(w, p),
        k <= p.len(),
    ensures
        remainder(w, p.len() as int, coordinate(w, p), k) == combine(w, p, (p.len() - k) as nat),
        k < p.len() ==> taken(w, p.len() as int, coordinate(w, p), k as int) == digit(
            w,
            p,
            p.len() - 1 - k,
        ),
    decreases k,
{
    let n = p.len() as int;
    if k > 0 {
        lemma_remainder_combine(w, p, (k - 1) as nat);
    }
    if k < n {
        let a = n - 1 - k;
        let r = radix(w, a);
        lemma_digit_bound(w, p, a);
        lemma_combine_bound(w, p, a as nat);
        assert(combine(w, p, (n - k) as nat) == combine(w, p, a as nat) * r + digit(w, p, a));
        lemma_fundamental_div_mod_converse(
            combine(w, p, (n - k) as nat),
            r,
            combine(w, p, a as nat),
            digit(w, p, a),
        );
    }
    if k > 0 {
        let a = n - k;
        let r = radix(w, a);
        lemma_digit_bound(w, p, a);
        assert(combine(w, p, (a + 1) as nat) == combine(w, p, a as nat) * r + digit(w, p, a));
        lemma_fundamental_div_mod_converse(
            combine(w, p, (a + 1) as nat),
            r,
            combine(w, p, a as nat),
            digit(w, p, a),
        );
    }
}

/// Putting the cubies back, from the digits of positions, leads to the
/// positions as they were when as many cubies had been taken out.
pub proof fn lemma_raised_lowered(w: int, p: Seq<int>, d: Seq<int>, a: int, b: int)
    requires
        w == 2 && p.len() <= 12 || w == 3 && p.len() <= 8,
        apart(w, p),
        d.len() == p.len(),
        forall|k: int| 0 <= k < p.len() ==> #[trigger] d[k] == digit(w, p, p.len() - 1 - k),
        0 <= b <= a < p.len(),
    ensures
        raised(w, d, p.len() - 1 - a, p.len() - b) == lowered(w, p, a, b),
    decreases a - b,
{
    let n = p.len() as int;
    if b < a {
        lemma_raised_lowered(w, p, d, a, b + 1);
        lemma_lowered(w, p, a, b, b);
        lemma_lowered(w, p, b, b, b);
        lemma_raise_lower(w, lowered(w, p, a, b), lowered(w, p, b, b));
        assert(d[n - 1 - b] == lowered(w, p, b, b));
    } else {
        assert(d[n - 1 - a] == digit(w, p, a));
    }
}

/// Coordinate round trip: the coordinate of positions on different cubies
/// stands for those positions.
pub proof fn lemma_coordinate_round_trip(w: int, p: Seq<int>)
    requires
        w == 2 && p.len() <= 12 || w == 3 && p.len() <= 8,
        apart(w, p),
    ensures
        0 <= coordinate(w, p) < num_elems(w, p.len()),
        decoded_positions(w, p.len(), coordinate(w, p)).reverse() == p,
{
    let n = p.len();
    let index = coordinate(w, p);
    let d = taken_digits(w, n, index);
    lemma_combine_bound(w, p, n);
    assert forall|k: int| 0 <= k < n implies #[trigger] d[k] == digit(w, p, n - 1 - k) by {
        lemma_remainder_combine(w, p, k as nat);
    }
    let q = decoded_positions(w, n, index).reverse();
    assert forall|a: int| 0 <= a < n implies q[a] == p[a] by {
        lemma_raised_lowered(w, p, d, a, 0);
    }
    assert(q =~= p);
}

} // verus!
