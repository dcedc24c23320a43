//! Solutions of the first block for a scramble: one for each way to hold
//! the cube and each quarter rotation about the axis from L to R, the
//! shortest first.

use vstd::prelude::*;
use vstd::string::StringSliceAdditionalSpecFns;
use crate::cube::{Move, Rotation};
use crate::cube::parser::{parse_moves, parsed, ParseError};
use crate::cube::sticker_cube::{Cube, EdgePos, Stickers};
use crate::first_block::{lemma_first_block_tracked, FBCorners, FBEdges, FBInfo};
use crate::orientations::{dl_orientation, dl_orientations, lemma_dl_orientation};
use crate::proper::{lemma_moves_proper, lemma_quarters_proper, lemma_solved_proper, proper};
use crate::solver::iddfs::{deepen, iterative_deepening, IDDFSInfo};
use crate::solver::index::Index;
use crate::solver::search_laws::{lemma_deepen_sound, run, search_moves};

verus! {

/// The number of depths that the search tries for each way to hold the
/// cube: 0 to 9 moves.
pub const MAX_DEPTH: usize = 10;

/// A solution of the first block.
#[derive(Debug)]
pub struct FBSolution {
    /// The rotations that bring the cube into position, and the moves that
    /// solve the block then, with a space after each.
    pub moves: String,
    /// The number of moves that solve the block.
    pub len: usize,
    /// The edge position that the rotations bring to DL.
    pub dl: String,
}

/// What an `FBSolution` says.
pub struct Record {
    pub moves: Seq<char>,
    pub len: nat,
    pub dl: Seq<char>,
}

impl View for FBSolution {
    type V = Record;

    open spec fn view(&self) -> Record {
        Record { moves: self.moves@, len: self.len as nat, dl: self.dl@ }
    }
}

/// What the solutions of a list say.
pub open spec fn records(list: Seq<FBSolution>) -> Seq<Record> {
    Seq::new(list.len(), |i: int| list[i]@)
}

/// The moves as text, with a space after each.
pub open spec fn text(ms: Seq<Move>) -> Seq<char>
    decreases ms.len(),
{
    if ms.len() == 0 {
        Seq::empty()
    } else {
        text(ms.drop_last()) + ms.last().spec_display() + seq![' ']
    }
}

/// Whether the mask leaves out the way to hold the cube that brings edge
/// position `o` to DL: bit `o` of the mask is set.
pub open spec fn skipped(o: usize, orientations: u32) -> bool {
    ((1u32 << o) & orientations) != 0
}

/// Whether the mask leaves out the way to hold the cube that brings edge
/// position `o` to DL.
pub fn skip_orientation(o: usize, orientations: u32) -> (b: bool)
    requires
        o < 32,
    ensures
        b == skipped(o, orientations),
{
    ((1u32 << o) & orientations) != 0
}

/// The cube `c`, held so that what is at `o` comes to DL, and then rotated
/// `x` quarters about the axis from L to R.
#[verifier::opaque]
pub open spec fn held(c: Stickers, o: EdgePos, x: nat) -> Stickers {
    c.apply_all(dl_orientation(o)).quarters(Move::Rotation(Rotation::X, 1), x)
}

/// What the search finds for the cube `c` held as `held(c, o, x)`: the
/// first solution of the least depth below `MAX_DEPTH` for the first block
/// that the cube has at rotation 0.
#[verifier::opaque]
pub open spec fn attempt(info: &FBInfo, c: Stickers, o: EdgePos, x: nat) -> Option<Seq<Move>> {
    let indexes = FBInfo::indexes_of(held(c, o, 0));
    deepen(
        info,
        (
            indexes.0.coord(held(c, o, x)) as u32,
            indexes.1.coord(held(c, o, x)) as u32,
        ),
        0,
        MAX_DEPTH as nat,
    )
}

/// What is reported of a solution.
pub open spec fn record(o: EdgePos, x: nat, solution: Seq<Move>) -> Record {
    Record {
        moves: text(dl_orientation(o)) + (if x > 0 {
            Move::Rotation(Rotation::X, x as u8).spec_display() + seq![' ']
        } else {
            Seq::empty()
        }) + text(solution),
        len: solution.len(),
        dl: o.spec_name(),
    }
}

/// The solutions for the first `t` ways to hold the cube, counting four
/// rotations for each edge position, in the order in which they are found.
#[verifier::opaque]
pub open spec fn collected(info: &FBInfo, c: Stickers, orientations: u32, t: nat) -> Seq<Record>
    decreases t,
{
    if t == 0 {
        Seq::empty()
    } else {
        let before = collected(info, c, orientations, (t - 1) as nat);
        let o = ((t - 1) / 4) as usize;
        let x = ((t - 1) % 4) as nat;
        if skipped(o, orientations) {
            before
        } else {
            match attempt(info, c, EdgePos::order()[o as int], x) {
                Some(solution) => before.push(record(EdgePos::order()[o as int], x, solution)),
                None => before,
            }
        }
    }
}

/// The place of a record of length `n` in a list: behind the last record
/// that is not longer.
pub open spec fn slot(list: Seq<Record>, n: nat) -> int
    decreases list.len(),
{
    if list.len() > 0 && list.last().len > n {
        slot(list.drop_last(), n)
    } else {
        list.len() as int
    }
}

/// The records ordered by length, those of one length in the order in which
/// they stand in `list`.
#[verifier::opaque]
pub open spec fn ordered(list: Seq<Record>) -> Seq<Record>
    decreases list.len(),
{
    if list.len() == 0 {
        Seq::empty()
    } else {
        let before = ordered(list.drop_last());
        before.insert(slot(before, list.last().len), list.last())
    }
}

/// The place that `slot` names lies in the list, with no longer record
/// before it and only longer ones from it on.
pub proof fn lemma_slot(list: Seq<Record>, n: nat)
    ensures
        0 <= slot(list, n) <= list.len(),
        forall|i: int| slot(list, n) <= i < list.len() ==> (#[trigger] list[i]).len > n,
        slot(list, n) > 0 ==> list[slot(list, n) - 1].len <= n,
    decreases list.len(),
{
    if list.len() > 0 && list.last().len > n {
        let front = list.drop_last();
        lemma_slot(front, n);
        assert forall|i: int| slot(list, n) <= i < list.len() implies (#[trigger] list[i]).len
            > n by {
            if i < front.len() {
                assert(front[i] == list[i]);
            }
        }
        if slot(list, n) > 0 {
            assert(front[slot(list, n) - 1] == list[slot(list, n) - 1]);
        }
    }
}

/// How `collected` goes on from rotation `x` of edge position `o`.
pub proof fn lemma_collected_next(
    info: &FBInfo,
    c: Stickers,
    orientations: u32,
    o: usize,
    x: nat,
)
    requires
        o < 24,
        x < 4,
    ensures
        collected(info, c, orientations, (4 * o + x + 1) as nat) == ({
            let before = collected(info, c, orientations, (4 * o + x) as nat);
            if skipped(o, orientations) {
                before
            } else {
                match attempt(info, c, EdgePos::order()[o as int], x) {
                    Some(solution) => before.push(
                        record(EdgePos::order()[o as int], x, solution),
                    ),
                    None => before,
                }
            }
        }),
        collected(info, c, orientations, 0) == Seq::<Record>::empty(),
{
    reveal_with_fuel(collected, 2);
    let t = 4 * o + x + 1;
    assert(((t - 1) / 4) as usize == o && ((t - 1) % 4) as nat == x);
}

/// Where the mask leaves an edge position out, `collected` goes on to the
/// next.
pub proof fn lemma_collected_skip(info: &FBInfo, c: Stickers, orientations: u32, o: usize)
    requires
        o < 24,
        skipped(o, orientations),
    ensures
        collected(info, c, orientations, (4 * (o + 1)) as nat) == collected(
            info,
            c,
            orientations,
            (4 * o) as nat,
        ),
{
    lemma_collected_next(info, c, orientations, o, 0);
    lemma_collected_next(info, c, orientations, o, 1);
    lemma_collected_next(info, c, orientations, o, 2);
    lemma_collected_next(info, c, orientations, o, 3);
}

/// `ordered` puts one more record behind those that are not longer.
pub proof fn lemma_ordered_push(list: Seq<Record>, r: Record)
    ensures
        ordered(list.push(r)) == ordered(list).insert(slot(ordered(list), r.len), r),
{
    reveal_with_fuel(ordered, 2);
    assert(list.push(r).drop_last() =~= list);
}

/// No records, ordered, are no records.
pub proof fn lemma_ordered_none()
    ensures
        ordered(Seq::<Record>::empty()) == Seq::<Record>::empty(),
{
    reveal_with_fuel(ordered, 2);
}

/// `ordered` keeps every record, and puts no longer record before a
/// shorter one.
pub proof fn lemma_ordered(list: Seq<Record>)
    ensures
        ordered(list).len() == list.len(),
        ordered(list).to_multiset() == list.to_multiset(),
        forall|i: int, j: int|
            0 <= i <= j < ordered(list).len() ==> (#[trigger] ordered(list)[i]).len
                <= (#[trigger] ordered(list)[j]).len,
    decreases list.len(),
{
    broadcast use vstd::seq_lib::group_to_multiset_ensures;

    reveal_with_fuel(ordered, 2);
    if list.len() > 0 {
        let before = ordered(list.drop_last());
        let last = list.last();
        let k = slot(before, last.len);
        lemma_ordered(list.drop_last());
        lemma_slot(before, last.len);
        let after = before.insert(k, last);
        assert(list =~= list.drop_last().push(last));
        vstd::seq_lib::to_multiset_insert(before, k, last);
        assert forall|i: int, j: int| 0 <= i <= j < after.len() implies (#[trigger] after[i]).len
            <= (#[trigger] after[j]).len by {
            if i < k && j > k {
                assert(before[i].len <= before[j - 1].len);
            } else if i < k && j < k {
                assert(before[i].len <= before[j].len);
            } else if i > k {
                assert(before[i - 1].len <= before[j - 1].len);
            } else if i < k && j == k {
                assert(before[i].len <= before[k - 1].len);
            }
        }
    }
}

/// Adds the moves as text to `out`, with a space after each.
fn write_moves(ms: &[Move], out: &mut String)
    requires
        forall|i: int| 0 <= i < ms@.len() ==> 1 <= (#[trigger] ms@[i]).spec_amount() <= 3,
    ensures
        final(out)@ == old(out)@ + text(ms@),
{
    let mut i: usize = 0;
    assert(old(out)@ + text(ms@.take(0)) =~= old(out)@);
    while i < ms.len()
        invariant
            i <= ms@.len(),
            forall|i: int| 0 <= i < ms@.len() ==> 1 <= (#[trigger] ms@[i]).spec_amount() <= 3,
            out@ == old(out)@ + text(ms@.take(i as int)),
        decreases ms@.len() - i,
    {
        ms[i].write_to(out);
        out.push(' ');
        proof {
            let now = ms@.take(i + 1);
            assert(now.drop_last() =~= ms@.take(i as int));
            assert(now.last() == ms@[i as int]);
            assert(out@ =~= old(out)@ + text(now));
        }
        i = i + 1;
    }
    assert(ms@.take(i as int) =~= ms@);
}

/// Writes out a solution for the report.
fn describe(o: EdgePos, rotations: &[Move], x: u8, solution: &[Move]) -> (r: FBSolution)
    requires
        rotations@ == dl_orientation(o),
        x <= 3,
        forall|i: int|
            0 <= i < solution@.len() ==> 1 <= (#[trigger] solution@[i]).spec_amount() <= 3,
    ensures
        r@ == record(o, x as nat, solution@),
{
    proof {
        lemma_dl_orientation(o);
    }
    let mut ret = String::new();
    assert(ret@ =~= Seq::<char>::empty());
    write_moves(rotations, &mut ret);
    if x > 0 {
        Move::Rotation(Rotation::X, x).write_to(&mut ret);
        ret.push(' ');
    }
    write_moves(solution, &mut ret);
    assert(ret@ =~= record(o, x as nat, solution@).moves);
    FBSolution { moves: ret, len: solution.len(), dl: o.name() }
}

/// Puts a solution into a list that is ordered by length: behind those
/// that are not longer.
fn insert_by_len(list: &mut Vec<FBSolution>, solution: FBSolution)
    ensures
        records(final(list)@) == records(old(list)@).insert(
            slot(records(old(list)@), solution@.len),
            solution@,
        ),
{
    let ghost before = records(list@);
    let ghost n = solution@.len;
    let mut j: usize = list.len();
    assert(before.take(j as int) =~= before);
    while j > 0 && list[j - 1].len > solution.len
        invariant
            j <= list@.len(),
            before == records(list@),
            n == solution@.len,
            slot(before, n) == slot(before.take(j as int), n),
        decreases j,
    {
        proof {
            assert(before.take(j as int).last() == before[j - 1]);
            assert(before.take(j as int).drop_last() =~= before.take(j - 1));
        }
        j = j - 1;
    }
    proof {
        if j > 0 {
            assert(before.take(j as int).last() == before[j - 1]);
        }
        assert(slot(before, n) == j);
    }
    let ghost rec = solution@;
    list.insert(j, solution);
    assert(records(list@) =~= before.insert(j as int, rec));
}

/// Searches for the first block of the cube `start` held as
/// `held(start, o, x)`, which is the cube `c`.
fn search_held(
    info: &FBInfo,
    c: &Cube,
    indexes: &(FBEdges, FBCorners),
    Ghost(start): Ghost<Stickers>,
    Ghost(o): Ghost<EdgePos>,
    Ghost(x): Ghost<nat>,
) -> (r: Option<Vec<Move>>)
    requires
        info.wf(),
        proper(start),
        c@ == held(start, o, x),
        *indexes == FBInfo::indexes_of(held(start, o, 0)),
    ensures
        match r {
            Some(solution) => attempt(info, start, o, x) == Some(solution@) && forall|i: int|
                0 <= i < solution@.len() ==> 1 <= (#[trigger] solution@[i]).spec_amount() <= 3,
            None => attempt(info, start, o, x) is None,
        },
{
    proof {
        reveal(attempt);
        lemma_held_start(start, o);
        lemma_first_block_tracked(held(start, o, 0), c@);
    }
    let state = (indexes.0.from_cube(c), indexes.1.from_cube(c));
    proof {
        lemma_deepen_sound(info, state, 0, MAX_DEPTH as nat);
    }
    iterative_deepening(state, info, MAX_DEPTH)
}

/// What `attempt` finds is fewer than `MAX_DEPTH` moves of the search, and
/// they lead from the state of the cube as it is held to the solved first
/// block.
pub proof fn lemma_attempt_solves(info: &FBInfo, c: Stickers, o: EdgePos, x: nat)
    ensures
        attempt(info, c, o, x) matches Some(solution) ==> {
            let indexes = FBInfo::indexes_of(held(c, o, 0));
            let state = (
                indexes.0.coord(held(c, o, x)) as u32,
                indexes.1.coord(held(c, o, x)) as u32,
            );
            &&& solution.len() < MAX_DEPTH
            &&& search_moves(solution)
            &&& info.solved(run(info, state, solution))
        },
{
    reveal(attempt);
    let indexes = FBInfo::indexes_of(held(c, o, 0));
    let state = (
        indexes.0.coord(held(c, o, x)) as u32,
        indexes.1.coord(held(c, o, x)) as u32,
    );
    lemma_deepen_sound(info, state, 0, MAX_DEPTH as nat);
}

/// The solutions of the first block on a proper cube, for each way to hold
/// it that the mask does not leave out and each of the four rotations about
/// the axis from L to R, the shortest first.
pub fn solve_cube(info: &FBInfo, cube: &Cube, orientations: u32) -> (list: Vec<FBSolution>)
    requires
        info.wf(),
        proper(cube@),
    ensures
        records(list@) == ordered(collected(info, cube@, orientations, 96)),
{
    let mut solutions: Vec<FBSolution> = Vec::with_capacity(24);
    let order = EdgePos::natural_order();
    let ghost start = cube@;
    proof {
        lemma_collected_next(info, start, orientations, 0, 0);
        lemma_ordered_none();
        assert(records(solutions@) =~= Seq::<Record>::empty());
    }
    let mut oi: usize = 0;
    while oi < 24
        invariant
            info.wf(),
            oi <= 24,
            start == cube@,
            proper(start),
            order@ == EdgePos::order(),
            records(solutions@) == ordered(collected(info, start, orientations, (4 * oi) as nat)),
        decreases 24 - oi,
    {
        let o = order[oi];
        if !skip_orientation(oi, orientations) {
            let mut c = *cube;
            let rotations = dl_orientations(o);
            proof {
                lemma_dl_orientation(o);
            }
            c.do_moves(rotations.as_slice());
            proof {
                lemma_held_start(start, o);
            }
            let indexes = info.get_indexes(&c);
            let mut x: u8 = 0;
            while x < 4
                invariant
                    info.wf(),
                    oi < 24,
                    x <= 4,
                    o == EdgePos::order()[oi as int],
                    !skipped(oi, orientations),
                    rotations@ == dl_orientation(o),
                    proper(start),
                    indexes == FBInfo::indexes_of(held(start, o, 0)),
                    c@ == held(start, o, x as nat),
                    records(solutions@) == ordered(
                        collected(info, start, orientations, (4 * oi + x) as nat),
                    ),
                decreases 4 - x,
            {
                let ghost before = collected(info, start, orientations, (4 * oi + x) as nat);
                proof {
                    lemma_collected_next(info, start, orientations, oi, x as nat);
                }
                match search_held(info, &c, &indexes, Ghost(start), Ghost(o), Ghost(x as nat)) {
                    Some(solution) => {
                        proof {
                            lemma_ordered_push(before, record(o, x as nat, solution@));
                        }
                        let found = describe(o, rotations.as_slice(), x, solution.as_slice());
                        insert_by_len(&mut solutions, found);
                    },
                    None => {},
                }
                proof {
                    lemma_held_next(start, o, x as nat);
                }
                c.do_move(Move::Rotation(Rotation::X, 1));
                x = x + 1;
            }
        } else {
            proof {
                lemma_collected_skip(info, start, orientations, oi);
            }
        }
        oi = oi + 1;
    }
    solutions
}

/// One more quarter rotation of the cube as it is held.
pub proof fn lemma_held_next(c: Stickers, o: EdgePos, x: nat)
    ensures
        held(c, o, x).apply(Move::Rotation(Rotation::X, 1)) == held(c, o, x + 1),
        Move::Rotation(Rotation::X, 1).supported(),
{
    reveal(held);
    reveal_with_fuel(Stickers::quarters, 2);
}

/// The cube as it is held before it is rotated, and its rotations. Proper
/// cubes stay proper.
pub proof fn lemma_held_start(c: Stickers, o: EdgePos)
    ensures
        held(c, o, 0) == c.apply_all(dl_orientation(o)),
        forall|x: nat|
            #[trigger] held(c, o, x) == held(c, o, 0).quarters(Move::Rotation(Rotation::X, 1), x),
        proper(c) ==> forall|x: nat| proper(#[trigger] held(c, o, x)),
{
    reveal(held);
    if proper(c) {
        lemma_dl_orientation(o);
        lemma_moves_proper(c, dl_orientation(o));
        assert forall|x: nat| proper(#[trigger] held(c, o, x)) by {
            lemma_quarters_proper(
                c.apply_all(dl_orientation(o)),
                Move::Rotation(Rotation::X, 1),
                x,
            );
        }
    }
}

/// The solutions of the first block for a scramble of the solved cube,
/// given as text. Bit `o` of `orientations` leaves out the way to hold the
/// cube that brings edge position `o` to DL. Where the text is no list of
/// moves, the error says where it stops to be one.
pub fn solve_fb(info: &FBInfo, s: &str, orientations: u32) -> (r: Result<
    Vec<FBSolution>,
    ParseError,
>)
    requires
        info.wf(),
    ensures
        match r {
            Ok(list) => parsed(s.spec_bytes()).1 == s.spec_bytes().len() && records(list@)
                == ordered(
                collected(
                    info,
                    Stickers::solved().apply_all(parsed(s.spec_bytes()).0),
                    orientations,
                    96,
                ),
            ),
            Err(e) => parsed(s.spec_bytes()).1 < s.spec_bytes().len() && e.position == parsed(
                s.spec_bytes(),
            ).1 && e.input@ == s@,
        },
{
    let scramble = match parse_moves(s) {
        Ok(moves) => moves,
        Err(e) => {
            return Err(e);
        },
    };
    let mut c = Cube::solved();
    proof {
        lemma_solved_proper();
        lemma_moves_proper(Stickers::solved(), scramble@);
    }
    c.do_moves(scramble.as_slice());
    Ok(solve_cube(info, &c, orientations))
}

} // verus!
