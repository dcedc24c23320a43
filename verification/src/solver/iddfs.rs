//! Iterative-deepening depth-first search over the generators, with a
//! filter for redundant moves and a cut-off by a lower bound.

use vstd::prelude::*;
use crate::cube::Move;
use crate::solver::transition::{generator, generators};

verus! {

/// A trait to customise the IDDFS algorithm.
pub trait IDDFSInfo {
    /// Type of the state for the current search.
    type State;

    /// Whether the tables of the search fit together.
    spec fn wf(&self) -> bool;

    /// The states on which the search can work.
    spec fn valid(&self, state: Self::State) -> bool;

    /// Whether `state` is the goal.
    spec fn solved(&self, state: Self::State) -> bool;

    /// The state after a quarter turn of generator `m`.
    spec fn next(&self, state: Self::State, m: int) -> Self::State;

    /// Whether the search gives `state` up when `depth_remaining` moves are
    /// left.
    spec fn pruned(&self, state: Self::State, depth_remaining: nat) -> bool;

    /// Check if `state` is solved.
    fn is_solved(&self, state: &Self::State) -> (b: bool)
        requires
            self.wf(),
            self.valid(*state),
        ensures
            b == self.solved(*state),
    ;

    /// Used to transition from one state to the next.
    fn transition(&self, state: &Self::State, m: usize) -> (n: Self::State)
        requires
            self.wf(),
            self.valid(*state),
            m < 7,
        ensures
            n == self.next(*state, m as int),
            self.valid(n),
    ;

    /// Should the search prune the search for `state`.
    fn prune(&self, state: &Self::State, depth_remaining: usize) -> (b: bool)
        requires
            self.wf(),
            self.valid(*state),
        ensures
            b == self.pruned(*state, depth_remaining as nat),
    ;

    /// A quarter turn leads from a valid state to a valid state.
    proof fn lemma_next_valid(&self, state: Self::State, m: int)
        requires
            self.wf(),
            self.valid(state),
            0 <= m < 7,
        ensures
            self.valid(self.next(state, m)),
    ;
}

/// The move-redundancy filter: whether the search leaves out `m` after the
/// moves of `solution`. It does so when the last move turned the same thing,
/// and when `m` turns a face that the move before the last turned while the
/// last move turned a face on the same axis.
pub open spec fn skip(m: Move, solution: Seq<Move>) -> bool {
    let len = solution.len() as int;
    len > 0 && (m.same_movement(solution[len - 1]) || (len > 1 && (match (
        m,
        solution[len - 2],
        solution[len - 1],
    ) {
        (Move::Face(f, _), Move::Face(f1, _), Move::Face(f2, _)) => f1.same_axis(f2) && f1 == f,
        _ => false,
    })))
}

/// The state after `a` quarter turns of generator `g`.
pub open spec fn turned_state<I: IDDFSInfo>(info: &I, state: I::State, g: int, a: nat) -> I::State
    decreases a,
{
    if a == 0 {
        state
    } else {
        info.next(turned_state(info, state, g, (a - 1) as nat), g)
    }
}

/// What the search returns: `path` followed by the first solution of
/// `depth` moves in the order of the search, where there is one.
pub open spec fn search<I: IDDFSInfo>(
    info: &I,
    state: I::State,
    depth: nat,
    path: Seq<Move>,
) -> Option<Seq<Move>>
    decreases depth, 8int, 0int,
{
    if depth == 0 {
        if info.solved(state) {
            Some(path)
        } else {
            None
        }
    } else {
        search_from(info, state, depth, path, 0)
    }
}

/// What the search returns when it is left to try the generators from `g`
/// on.
pub open spec fn search_from<I: IDDFSInfo>(
    info: &I,
    state: I::State,
    depth: nat,
    path: Seq<Move>,
    g: int,
) -> Option<Seq<Move>>
    decreases depth, 7 - g, 4int,
{
    if depth == 0 || g < 0 || g >= 7 {
        None
    } else if skip(generator(g), path) {
        search_from(info, state, depth, path, g + 1)
    } else {
        match search_turns(info, state, depth, path, g, 1) {
            Some(p) => Some(p),
            None => search_from(info, state, depth, path, g + 1),
        }
    }
}

/// What the search returns of generator `g` when it is left to try the
/// amounts from `a` on.
pub open spec fn search_turns<I: IDDFSInfo>(
    info: &I,
    state: I::State,
    depth: nat,
    path: Seq<Move>,
    g: int,
    a: int,
) -> Option<Seq<Move>>
    decreases depth, 7 - g, 4 - a,
{
    if depth == 0 || g < 0 || g >= 7 || a < 1 || a > 3 {
        None
    } else {
        let next = turned_state(info, state, g, a as nat);
        if info.pruned(next, (depth - 1) as nat) {
            search_turns(info, state, depth, path, g, a + 1)
        } else {
            match search(
                info,
                next,
                (depth - 1) as nat,
                path.push(generator(g).spec_with_amount(a as u8)),
            ) {
                Some(p) => Some(p),
                None => search_turns(info, state, depth, path, g, a + 1),
            }
        }
    }
}

/// Any number of quarter turns leads from a valid state to a valid state.
pub proof fn lemma_turned_state_valid<I: IDDFSInfo>(info: &I, state: I::State, g: int, a: nat)
    requires
        info.wf(),
        info.valid(state),
        0 <= g < 7,
    ensures
        info.valid(turned_state(info, state, g, a)),
    decreases a,
{
    if a > 0 {
        lemma_turned_state_valid(info, state, g, (a - 1) as nat);
        info.lemma_next_valid(turned_state(info, state, g, (a - 1) as nat), g);
    }
}

/// Depth-limited search, the step of iterative deepening: looks for
/// `depth_remaining` moves that solve `state`, trying the generators in
/// their order and the amounts 1, 2, 3. Where it finds them it returns true
/// with the moves added to `solution`; where there are none it returns
/// false and leaves `solution` as it was.
pub fn iddfs<I: IDDFSInfo>(
    state: I::State,
    info: &I,
    depth_remaining: usize,
    solution: &mut Vec<Move>,
) -> (found: bool) where I::State: Copy
    requires
        info.wf(),
        info.valid(state),
    ensures
        found == search(info, state, depth_remaining as nat, old(solution)@) is Some,
        found ==> Some(final(solution)@) == search(
            info,
            state,
            depth_remaining as nat,
            old(solution)@,
        ),
        !found ==> final(solution)@ == old(solution)@,
    decreases depth_remaining,
{
    if depth_remaining == 0 {
        return info.is_solved(&state);
    }
    let ghost path = solution@;
    let ghost depth = depth_remaining as nat;
    let moves = generators();
    let mut i: usize = 0;
    while i < 7
        invariant
            info.wf(),
            info.valid(state),
            i <= 7,
            depth == depth_remaining,
            depth > 0,
            solution@ == path,
            path == old(solution)@,
            forall|g: int| 0 <= g < 7 ==> #[trigger] moves@[g] == generator(g),
            search(info, state, depth, path) == search_from(info, state, depth, path, i as int),
        decreases 7 - i,
    {
        let m = moves[i];
        if !skip_face(m, solution.as_slice()) {
            let mut next = state;
            let mut n: u8 = 1;
            while n < 4
                invariant
                    info.wf(),
                    info.valid(state),
                    info.valid(next),
                    i < 7,
                    1 <= n <= 4,
                    depth == depth_remaining,
                    depth > 0,
                    solution@ == path,
                    path == old(solution)@,
                    m == generator(i as int),
                    !skip(m, path),
                    next == turned_state(info, state, i as int, (n - 1) as nat),
                    search_turns(info, state, depth, path, i as int, 1) == search_turns(
                        info,
                        state,
                        depth,
                        path,
                        i as int,
                        n as int,
                    ),
                    search(info, state, depth, path) == search_from(
                        info,
                        state,
                        depth,
                        path,
                        i as int,
                    ),
                decreases 4 - n,
            {
                next = info.transition(&next, i);
                if !info.prune(&next, depth_remaining - 1) {
                    solution.push(m.with_amount(n));
                    if iddfs::<I>(next, info, depth_remaining - 1, solution) {
                        return true;
                    }
                    solution.pop();
                    assert(solution@ =~= path);
                }
                n = n + 1;
            }
        }
        i = i + 1;
    }
    false
}

/// What iterative deepening returns when it is left to try the depths from
/// `depth` on: the first solution of the least depth below `max_depth` that
/// has one.
pub open spec fn deepen<I: IDDFSInfo>(
    info: &I,
    state: I::State,
    depth: nat,
    max_depth: nat,
) -> Option<Seq<Move>>
    decreases max_depth - depth,
{
    if depth >= max_depth {
        None
    } else {
        match search(info, state, depth, Seq::empty()) {
            Some(p) => Some(p),
            None => deepen(info, state, depth + 1, max_depth),
        }
    }
}

/// Iterative deepening: searches with the depths 0, 1, 2 and so on below
/// `max_depth`, and returns the first solution that it finds.
pub fn iterative_deepening<I: IDDFSInfo>(state: I::State, info: &I, max_depth: usize) -> (r:
    Option<Vec<Move>>) where I::State: Copy
    requires
        info.wf(),
        info.valid(state),
    ensures
        match r {
            Some(solution) => deepen(info, state, 0, max_depth as nat) == Some(solution@),
            None => deepen(info, state, 0, max_depth as nat) is None,
        },
{
    let mut solution: Vec<Move> = Vec::new();
    let mut i: usize = 0;
    while i < max_depth
        invariant
            info.wf(),
            info.valid(state),
            i <= max_depth,
            solution@ == Seq::<Move>::empty(),
            deepen(info, state, 0, max_depth as nat) == deepen(
                info,
                state,
                i as nat,
                max_depth as nat,
            ),
        decreases max_depth - i,
    {
        if iddfs(state, info, i, &mut solution) {
            return Some(solution);
        }
        i = i + 1;
    }
    None
}

/// Should the `Move` `m` be skipped.
pub fn skip_face(m: Move, solution: &[Move]) -> (b: bool)
    ensures
        b == skip(m, solution@),
{
    let len = solution.len();
    if len > 0 {
        // Check for A A.
        let prev_move = solution[len - 1];
        if m.is_same_movement(&prev_move) {
            return true;
        }
        if len > 1 {
            // Check for A B A where A and B are opposite faces.
            match (m, solution[len - 2], solution[len - 1]) {
                (Move::Face(f, _), Move::Face(f1, _), Move::Face(f2, _)) => {
                    if f1.is_opposite(f2) && f1 == f {
                        return true;
                    }
                },
                _ => (),
            }
        }
    }
    false
}

} // verus!
