//! What holds of every search: what it returns is a solution, and it finds
//! a solution where the filter and the cut-off leave one.

use vstd::prelude::*;
use crate::cube::{Face, Move, Slice};
use crate::solver::iddfs::{
    deepen, lemma_turned_state_valid, search, search_from, search_turns, skip, turned_state,
    IDDFSInfo,
};
use crate::solver::transition::generator;

verus! {

/// The number of the generator that turns what `m` turns.
pub open spec fn generator_of(m: Move) -> int {
    match m {
        Move::Face(Face::U, _) => 0,
        Move::Face(Face::D, _) => 1,
        Move::Face(Face::F, _) => 2,
        Move::Face(Face::B, _) => 3,
        Move::Face(Face::R, _) => 4,
        Move::Face(Face::L, _) => 5,
        _ => 6,
    }
}

/// The moves that the search makes: one to three quarter turns of a face or
/// of the M slice.
pub open spec fn search_move(m: Move) -> bool {
    &&& m is Face || m == Move::Slice(Slice::M, m.spec_amount())
    &&& 1 <= m.spec_amount() <= 3
}

/// The state after the move `m`.
pub open spec fn moved<I: IDDFSInfo>(info: &I, state: I::State, m: Move) -> I::State {
    turned_state(info, state, generator_of(m), m.spec_amount() as nat)
}

/// The state after the moves `ms`, one after the other.
pub open spec fn run<I: IDDFSInfo>(info: &I, state: I::State, ms: Seq<Move>) -> I::State
    decreases ms.len(),
{
    if ms.len() == 0 {
        state
    } else {
        run(info, moved(info, state, ms[0]), ms.skip(1))
    }
}

/// What it is for `p` to be a solution of `depth` moves that the search
/// from `state` adds to `path`.
pub open spec fn solves<I: IDDFSInfo>(
    info: &I,
    state: I::State,
    depth: nat,
    path: Seq<Move>,
    p: Seq<Move>,
) -> bool {
    &&& p.len() == path.len() + depth
    &&& p.take(path.len() as int) == path
    &&& forall|i: int| path.len() <= i < p.len() ==> search_move(#[trigger] p[i])
    &&& info.solved(run(info, state, p.skip(path.len() as int)))
}

/// A generator with an amount from 1 to 3 is a move of the search, and
/// `generator_of` knows its number.
pub proof fn lemma_generator_move(g: int, a: int)
    requires
        0 <= g < 7,
        1 <= a <= 3,
    ensures
        search_move(generator(g).spec_with_amount(a as u8)),
        generator_of(generator(g).spec_with_amount(a as u8)) == g,
        generator(g).spec_with_amount(a as u8).spec_amount() == a,
{
}

/// A solution of the state after a move, added to the path with that move,
/// is a solution of the state before it.
proof fn lemma_solves_step<I: IDDFSInfo>(
    info: &I,
    state: I::State,
    depth: nat,
    path: Seq<Move>,
    m: Move,
    p: Seq<Move>,
)
    requires
        depth > 0,
        search_move(m),
        solves(info, moved(info, state, m), (depth - 1) as nat, path.push(m), p),
    ensures
        solves(info, state, depth, path, p),
{
    let n = path.len() as int;
    assert(p.take(n + 1) == path.push(m));
    assert(p.take(n) =~= path) by {
        assert forall|i: int| 0 <= i < n implies p.take(n)[i] == path[i] by {
            assert(p.take(n + 1)[i] == path.push(m)[i]);
        }
    }
    assert(p[n] == m) by {
        assert(p.take(n + 1)[n] == path.push(m)[n]);
    }
    let tail = p.skip(n);
    assert(tail[0] == m);
    assert(tail.skip(1) =~= p.skip(n + 1));
}

/// Soundness of the search: what it returns is the path with a solution of
/// `depth` search moves added.
pub proof fn lemma_search_sound<I: IDDFSInfo>(
    info: &I,
    state: I::State,
    depth: nat,
    path: Seq<Move>,
)
    ensures
        search(info, state, depth, path) matches Some(p) ==> solves(info, state, depth, path, p),
    decreases depth, 8int, 0int,
{
    if depth == 0 {
        assert(path.take(path.len() as int) =~= path);
        assert(path.skip(path.len() as int) =~= Seq::<Move>::empty());
    } else {
        lemma_search_from_sound(info, state, depth, path, 0);
    }
}

/// Soundness of the search over the generators from `g` on.
pub proof fn lemma_search_from_sound<I: IDDFSInfo>(
    info: &I,
    state: I::State,
    depth: nat,
    path: Seq<Move>,
    g: int,
)
    ensures
        search_from(info, state, depth, path, g) matches Some(p) ==> solves(
            info,
            state,
            depth,
            path,
            p,
        ),
    decreases depth, 7 - g, 4int,
{
    if depth == 0 || g < 0 || g >= 7 {
    } else if skip(generator(g), path) {
        lemma_search_from_sound(info, state, depth, path, g + 1);
    } else {
        lemma_search_turns_sound(info, state, depth, path, g, 1);
        lemma_search_from_sound(info, state, depth, path, g + 1);
    }
}

/// Soundness of the search over the amounts of generator `g` from `a` on.
pub proof fn lemma_search_turns_sound<I: IDDFSInfo>(
    info: &I,
    state: I::State,
    depth: nat,
    path: Seq<Move>,
    g: int,
    a: int,
)
    ensures
        search_turns(info, state, depth, path, g, a) matches Some(p) ==> solves(
            info,
            state,
            depth,
            path,
            p,
        ),
    decreases depth, 7 - g, 4 - a,
{
    if depth == 0 || g < 0 || g >= 7 || a < 1 || a > 3 {
    } else {
        let next = turned_state(info, state, g, a as nat);
        let m = generator(g).spec_with_amount(a as u8);
        lemma_generator_move(g, a);
        lemma_search_turns_sound(info, state, depth, path, g, a + 1);
        if !info.pruned(next, (depth - 1) as nat) {
            lemma_search_sound(info, next, (depth - 1) as nat, path.push(m));
            match search(info, next, (depth - 1) as nat, path.push(m)) {
                Some(p) => {
                    lemma_solves_step(info, state, depth, path, m, p);
                },
                None => {},
            }
        }
    }
}

/// What iterative deepening returns is a solution of search moves that
/// leads to a solved state.
pub proof fn lemma_deepen_sound<I: IDDFSInfo>(info: &I, state: I::State, depth: nat, max: nat)
    ensures
        deepen(info, state, depth, max) matches Some(p) ==> {
            &&& depth <= p.len() < max
            &&& forall|i: int| 0 <= i < p.len() ==> search_move(#[trigger] p[i])
            &&& forall|i: int| 0 <= i < p.len() ==> 1 <= (#[trigger] p[i]).spec_amount() <= 3
            &&& info.solved(run(info, state, p))
        },
    decreases max - depth,
{
    if depth < max {
        lemma_search_sound(info, state, depth, Seq::empty());
        lemma_deepen_sound(info, state, depth + 1, max);
        match search(info, state, depth, Seq::empty()) {
            Some(p) => {
                assert(p.skip(0) =~= p);
            },
            None => {},
        }
    }
}

/// Whether every one of the moves is a move of the search.
pub open spec fn search_moves(ms: Seq<Move>) -> bool {
    forall|i: int| 0 <= i < ms.len() ==> search_move(#[trigger] ms[i])
}

/// Whether the filter lets each of the moves `ms` pass, when they are made
/// one after the other behind the moves of `path`.
pub open spec fn passes(path: Seq<Move>, ms: Seq<Move>) -> bool {
    forall|i: int| 0 <= i < ms.len() ==> !skip(#[trigger] ms[i], path + ms.take(i))
}

/// Whether the cut-off is admissible: it gives no state up from which as
/// many search moves as are left lead to a solved state.
pub open spec fn admissible<I: IDDFSInfo>(info: &I) -> bool {
    forall|state: I::State, ms: Seq<Move>|
        info.valid(state) && search_moves(ms) && info.solved(#[trigger] run(info, state, ms))
            ==> !info.pruned(state, ms.len())
}

/// A move of the search is a generator with the amount of the move, and
/// the filter treats it as it treats the generator.
pub proof fn lemma_search_move(m: Move, path: Seq<Move>)
    requires
        search_move(m),
    ensures
        0 <= generator_of(m) < 7,
        generator(generator_of(m)).spec_with_amount(m.spec_amount()) == m,
        skip(generator(generator_of(m)), path) == skip(m, path),
{
}

/// The moves after the first pass the filter behind the path and the first.
proof fn lemma_passes_rest(path: Seq<Move>, ms: Seq<Move>)
    requires
        ms.len() > 0,
        passes(path, ms),
    ensures
        !skip(ms[0], path),
        passes(path.push(ms[0]), ms.skip(1)),
{
    assert(path + ms.take(0) =~= path);
    assert forall|i: int| 0 <= i < ms.skip(1).len() implies !skip(
        #[trigger] ms.skip(1)[i],
        path.push(ms[0]) + ms.skip(1).take(i),
    ) by {
        assert(ms.skip(1)[i] == ms[i + 1]);
        assert(path.push(ms[0]) + ms.skip(1).take(i) =~= path + ms.take(i + 1));
    }
}

/// Where the search of a generator and an amount would find a solution, the
/// search over the amounts from a lower one on finds one.
proof fn lemma_search_turns_reaches<I: IDDFSInfo>(
    info: &I,
    state: I::State,
    depth: nat,
    path: Seq<Move>,
    g: int,
    a: int,
    found: int,
)
    requires
        depth > 0,
        0 <= g < 7,
        1 <= a <= found <= 3,
        !info.pruned(turned_state(info, state, g, found as nat), (depth - 1) as nat),
        search(
            info,
            turned_state(info, state, g, found as nat),
            (depth - 1) as nat,
            path.push(generator(g).spec_with_amount(found as u8)),
        ) is Some,
    ensures
        search_turns(info, state, depth, path, g, a) is Some,
    decreases found - a,
{
    if a < found {
        lemma_search_turns_reaches(info, state, depth, path, g, a + 1, found);
    }
}

/// Where the search of a generator would find a solution, the search over
/// the generators from a lower one on finds one.
proof fn lemma_search_from_reaches<I: IDDFSInfo>(
    info: &I,
    state: I::State,
    depth: nat,
    path: Seq<Move>,
    g: int,
    found: int,
)
    requires
        depth > 0,
        0 <= g <= found < 7,
        !skip(generator(found), path),
        search_turns(info, state, depth, path, found, 1) is Some,
    ensures
        search_from(info, state, depth, path, g) is Some,
    decreases found - g,
{
    if g < found {
        lemma_search_from_reaches(info, state, depth, path, g + 1, found);
    }
}

/// Completeness of the search: where search moves that pass the filter
/// lead to a solved state, and the cut-off is admissible, the search with
/// their number as depth finds a solution.
pub proof fn lemma_search_complete<I: IDDFSInfo>(
    info: &I,
    state: I::State,
    path: Seq<Move>,
    ms: Seq<Move>,
)
    requires
        info.wf(),
        info.valid(state),
        admissible(info),
        search_moves(ms),
        passes(path, ms),
        info.solved(run(info, state, ms)),
    ensures
        search(info, state, ms.len(), path) is Some,
    decreases ms.len(),
{
    if ms.len() > 0 {
        let m = ms[0];
        let g = generator_of(m);
        let a = m.spec_amount() as int;
        let rest = ms.skip(1);
        let next = moved(info, state, m);
        assert(search_move(m));
        lemma_search_move(m, path);
        lemma_passes_rest(path, ms);
        lemma_turned_state_valid(info, state, g, a as nat);
        assert(search_moves(rest)) by {
            assert forall|i: int| 0 <= i < rest.len() implies search_move(#[trigger] rest[i]) by {
                assert(rest[i] == ms[i + 1]);
            }
        }
        assert(info.solved(run(info, next, rest)));
        assert(!info.pruned(next, rest.len()));
        lemma_search_complete(info, next, path.push(m), rest);
        lemma_search_turns_reaches(info, state, ms.len(), path, g, 1, a);
        lemma_search_from_reaches(info, state, ms.len(), path, 0, g);
    }
}

/// Whether `g` and `h` are the generators of two opposite faces.
pub open spec fn opposite_generators(g: int, h: int) -> bool {
    0 <= g < 6 && 0 <= h < 6 && g != h && g / 2 == h / 2
}

/// Whether the transitions behave as the turns of a cube do: four quarter
/// turns of a generator lead back, and quarter turns of opposite faces can
/// change places.
pub open spec fn cube_like<I: IDDFSInfo>(info: &I) -> bool {
    &&& forall|state: I::State, g: int|
        info.valid(state) && 0 <= g < 7 ==> #[trigger] turned_state(info, state, g, 4) == state
    &&& forall|state: I::State, g: int, h: int|
        info.valid(state) && opposite_generators(g, h) ==> #[trigger] info.next(
            info.next(state, g),
            h,
        ) == info.next(info.next(state, h), g)
}

/// Moves one after the other: the second list goes on from where the first
/// leads.
pub proof fn lemma_run_concat<I: IDDFSInfo>(info: &I, state: I::State, x: Seq<Move>, y: Seq<Move>)
    ensures
        run(info, state, x + y) == run(info, run(info, state, x), y),
    decreases x.len(),
{
    if x.len() == 0 {
        assert(x + y =~= y);
    } else {
        assert((x + y)[0] == x[0]);
        assert((x + y).skip(1) =~= x.skip(1) + y);
        lemma_run_concat(info, moved(info, state, x[0]), x.skip(1), y);
    }
}

/// Search moves lead from a valid state to a valid state.
pub proof fn lemma_run_valid<I: IDDFSInfo>(info: &I, state: I::State, ms: Seq<Move>)
    requires
        info.wf(),
        info.valid(state),
        search_moves(ms),
    ensures
        info.valid(run(info, state, ms)),
    decreases ms.len(),
{
    if ms.len() > 0 {
        assert(search_move(ms[0]));
        lemma_turned_state_valid(info, state, generator_of(ms[0]), ms[0].spec_amount() as nat);
        assert forall|i: int| 0 <= i < ms.skip(1).len() implies search_move(
            #[trigger] ms.skip(1)[i],
        ) by {
            assert(ms.skip(1)[i] == ms[i + 1]);
        }
        lemma_run_valid(info, moved(info, state, ms[0]), ms.skip(1));
    }
}

/// Quarter turns of one generator add up.
pub proof fn lemma_turned_state_add<I: IDDFSInfo>(
    info: &I,
    state: I::State,
    g: int,
    a: nat,
    b: nat,
)
    ensures
        turned_state(info, turned_state(info, state, g, a), g, b) == turned_state(
            info,
            state,
            g,
            a + b,
        ),
    decreases b,
{
    if b > 0 {
        lemma_turned_state_add(info, state, g, a, (b - 1) as nat);
    }
}

/// A quarter turn of a face can change places with any number of quarter
/// turns of the opposite face.
proof fn lemma_quarter_past<I: IDDFSInfo>(info: &I, state: I::State, g: int, h: int, a: nat)
    requires
        info.wf(),
        info.valid(state),
        cube_like(info),
        opposite_generators(g, h),
    ensures
        info.next(turned_state(info, state, g, a), h) == turned_state(
            info,
            info.next(state, h),
            g,
            a,
        ),
    decreases a,
{
    if a > 0 {
        let y = turned_state(info, state, g, (a - 1) as nat);
        lemma_turned_state_valid(info, state, g, (a - 1) as nat);
        lemma_quarter_past(info, state, g, h, (a - 1) as nat);
        assert(info.next(info.next(y, g), h) == info.next(info.next(y, h), g));
    }
}

/// Turns of opposite faces can change places.
pub proof fn lemma_opposite_commute<I: IDDFSInfo>(
    info: &I,
    state: I::State,
    g: int,
    h: int,
    a: nat,
    b: nat,
)
    requires
        info.wf(),
        info.valid(state),
        cube_like(info),
        opposite_generators(g, h),
    ensures
        turned_state(info, turned_state(info, state, g, a), h, b) == turned_state(
            info,
            turned_state(info, state, h, b),
            g,
            a,
        ),
    decreases b,
{
    if b > 0 {
        let y = turned_state(info, state, h, (b - 1) as nat);
        lemma_opposite_commute(info, state, g, h, a, (b - 1) as nat);
        lemma_turned_state_valid(info, state, h, (b - 1) as nat);
        lemma_quarter_past(info, y, g, h, a);
    }
}

/// Two to six quarter turns of a generator are none, or one to three.
proof fn lemma_turns_reduce<I: IDDFSInfo>(info: &I, state: I::State, g: int, total: nat)
    requires
        info.wf(),
        info.valid(state),
        cube_like(info),
        0 <= g < 7,
        2 <= total <= 6,
    ensures
        total == 4 ==> turned_state(info, state, g, total) == state,
        total != 4 ==> 1 <= total % 4 <= 3 && turned_state(info, state, g, total) == moved(
            info,
            state,
            generator(g).spec_with_amount((total % 4) as u8),
        ),
{
    if total > 4 {
        lemma_turned_state_add(info, state, g, 4, (total - 4) as nat);
    }
    if total != 4 {
        lemma_generator_move(g, (total % 4) as int);
    }
}

/// Where one search finds a solution, the search with the depths from a
/// lower one on finds one.
pub proof fn lemma_deepen_finds<I: IDDFSInfo>(
    info: &I,
    state: I::State,
    depth: nat,
    found: nat,
    max: nat,
)
    requires
        depth <= found < max,
        search(info, state, found, Seq::empty()) is Some,
    ensures
        deepen(info, state, depth, max) is Some,
    decreases found - depth,
{
    if depth < found {
        lemma_deepen_finds(info, state, depth + 1, found, max);
    }
}

/// The moves `ms` with those from `from` to before `to` replaced by `mid`
/// lead to the same state, where `mid` leads from the state before `from`
/// to the state before `to`.
proof fn lemma_replace<I: IDDFSInfo>(
    info: &I,
    state: I::State,
    ms: Seq<Move>,
    from: int,
    to: int,
    mid: Seq<Move>,
)
    requires
        0 <= from <= to <= ms.len(),
        search_moves(ms),
        search_moves(mid),
        run(info, run(info, state, ms.take(from)), mid) == run(
            info,
            run(info, state, ms.take(from)),
            ms.subrange(from, to),
        ),
    ensures
        search_moves(ms.take(from) + mid + ms.skip(to)),
        run(info, state, ms.take(from) + mid + ms.skip(to)) == run(info, state, ms),
        (ms.take(from) + mid + ms.skip(to)).len() == ms.len() - (to - from) + mid.len(),
{
    let pre = ms.take(from);
    let old = ms.subrange(from, to);
    let post = ms.skip(to);
    assert(ms =~= pre + old + post);
    lemma_run_concat(info, state, pre + old, post);
    lemma_run_concat(info, state, pre, old);
    lemma_run_concat(info, state, pre + mid, post);
    lemma_run_concat(info, state, pre, mid);
    let now = pre + mid + post;
    assert forall|i: int| 0 <= i < now.len() implies search_move(#[trigger] now[i]) by {
        if i < from {
            assert(now[i] == ms[i]);
        } else if i < from + mid.len() {
            assert(now[i] == mid[i - from]);
        } else {
            assert(now[i] == ms[i - mid.len() + (to - from)]);
        }
    }
}

/// One move leads where `moved` says, and two and three moves likewise.
proof fn lemma_run_few<I: IDDFSInfo>(info: &I, state: I::State, a: Move, b: Move, c: Move)
    ensures
        run(info, state, Seq::empty()) == state,
        run(info, state, seq![a]) == moved(info, state, a),
        run(info, state, seq![a, b]) == moved(info, moved(info, state, a), b),
        run(info, state, seq![a, b, c]) == moved(
            info,
            moved(info, moved(info, state, a), b),
            c,
        ),
{
    assert(seq![a].skip(1) =~= Seq::<Move>::empty());
    assert(seq![a, b].skip(1) =~= seq![b]);
    assert(seq![a, b, c].skip(1) =~= seq![b, c]);
    assert(seq![b].skip(1) =~= Seq::<Move>::empty());
    assert(seq![b, c].skip(1) =~= seq![c]);
    assert(seq![c].skip(1) =~= Seq::<Move>::empty());
    reveal_with_fuel(run, 4);
}

/// Redundancy filter admissibility: where the transitions behave as the
/// turns of a cube do and the cut-off is admissible, and any search moves
/// at all lead from a state to a solved state, the search with the filter
/// finds a solution of no more moves.
pub proof fn lemma_filter_admissible<I: IDDFSInfo>(info: &I, state: I::State, ms: Seq<Move>)
    requires
        info.wf(),
        info.valid(state),
        cube_like(info),
        admissible(info),
        search_moves(ms),
        info.solved(run(info, state, ms)),
    ensures
        exists|d: nat| d <= ms.len() && #[trigger] search(info, state, d, Seq::empty()) is Some,
        deepen(info, state, 0, ms.len() + 1) is Some,
    decreases ms.len(),
{
    let none = Seq::<Move>::empty();
    if passes(none, ms) {
        lemma_search_complete(info, state, none, ms);
        assert(search(info, state, ms.len(), none) is Some);
    } else {
        let i = choose|i: int| 0 <= i < ms.len() && skip(#[trigger] ms[i], none + ms.take(i));
        assert(none + ms.take(i) =~= ms.take(i));
        let before = ms.take(i);
        assert(i >= 1);
        assert(before[i - 1] == ms[i - 1]);
        let last = ms[i];
        let prev = ms[i - 1];
        assert(search_move(last) && search_move(prev));
        let g = generator_of(last);
        lemma_search_move(last, none);
        lemma_search_move(prev, none);
        let shorter: Seq<Move>;
        if last.same_movement(prev) {
            let s1 = run(info, state, ms.take(i - 1));
            lemma_run_valid(info, state, ms.take(i - 1));
            let total = (prev.spec_amount() + last.spec_amount()) as nat;
            assert(generator_of(prev) == g);
            assert(ms.subrange(i - 1, i + 1) =~= seq![prev, last]);
            lemma_run_few(info, s1, prev, last, last);
            lemma_turned_state_add(
                info,
                s1,
                g,
                prev.spec_amount() as nat,
                last.spec_amount() as nat,
            );
            lemma_turns_reduce(info, s1, g, total);
            let mid = if total == 4 {
                none
            } else {
                seq![generator(g).spec_with_amount((total % 4) as u8)]
            };
            if total != 4 {
                lemma_generator_move(g, (total % 4) as int);
                lemma_run_few(info, s1, mid[0], last, last);
            }
            lemma_replace(info, state, ms, i - 1, i + 1, mid);
            shorter = ms.take(i - 1) + mid + ms.skip(i + 1);
        } else {
            assert(i >= 2);
            assert(before[i - 2] == ms[i - 2]);
            let first = ms[i - 2];
            assert(search_move(first));
            lemma_search_move(first, none);
            let h = generator_of(prev);
            assert(generator_of(first) == g);
            assert(opposite_generators(g, h));
            let s1 = run(info, state, ms.take(i - 2));
            lemma_run_valid(info, state, ms.take(i - 2));
            let a = first.spec_amount() as nat;
            let b = prev.spec_amount() as nat;
            let c = last.spec_amount() as nat;
            let total = a + c;
            assert(ms.subrange(i - 2, i + 1) =~= seq![first, prev, last]);
            lemma_run_few(info, s1, first, prev, last);
            let s2 = turned_state(info, s1, g, a);
            lemma_turned_state_valid(info, s1, g, a);
            lemma_opposite_commute(info, s2, g, h, c, b);
            lemma_turned_state_add(info, s1, g, a, c);
            lemma_turns_reduce(info, s1, g, total);
            let mid = if total == 4 {
                seq![prev]
            } else {
                seq![generator(g).spec_with_amount((total % 4) as u8), prev]
            };
            if total != 4 {
                lemma_generator_move(g, (total % 4) as int);
                lemma_run_few(info, s1, mid[0], prev, last);
            } else {
                lemma_run_few(info, s1, prev, last, last);
            }
            lemma_replace(info, state, ms, i - 2, i + 1, mid);
            shorter = ms.take(i - 2) + mid + ms.skip(i + 1);
        }
        lemma_filter_admissible(info, state, shorter);
        let d = choose|d: nat|
            d <= shorter.len() && #[trigger] search(info, state, d, Seq::empty()) is Some;
        assert(d <= ms.len() && search(info, state, d, none) is Some);
    }
    let d = choose|d: nat| d <= ms.len() && #[trigger] search(info, state, d, Seq::empty()) is Some;
    lemma_deepen_finds(info, state, 0, d, ms.len() + 1);
}

} // verus!
