//! The simulator: the board after a prefix of a recorded solution, with its cost before and after.
use vstd::prelude::*;

use crate::cost::{compute_cost, cost, cost_of_permutation_fits, LARGEST_SAFE_SIDE};
use crate::puzzle::{
    is_permutation, rows_of, Move, MoveSequence, Puzzle, PuzzleDefinition, Recording,
};
use crate::replay::{
    after_moves, replay_keeps_the_board, replay_resumes, stays_inside,
    without_swaps_board_is_unchanged, Board, Replay, SimulationError,
};
use crate::score::score_of;

verus! {

/// What a simulation yields: the board after the replayed moves, and the
/// cost of the board before the first move and after the last replayed one.
#[derive(Debug, PartialEq, Eq)]
pub struct SimulationResult {
    pub grid: Vec<Vec<i64>>,
    pub initial_cost: i64,
    pub final_cost: i64,
}

/// The mathematical content of a [`SimulationResult`].
pub struct Outcome {
    pub grid: Seq<Seq<i64>>,
    pub initial_cost: int,
    pub final_cost: int,
}

impl View for SimulationResult {
    type V = Outcome;

    open spec fn view(&self) -> Outcome {
        Outcome {
            grid: rows_of(self.grid@),
            initial_cost: self.initial_cost as int,
            final_cost: self.final_cost as int,
        }
    }
}

/// The state in which the replay of `rec` on the puzzle `p` starts.
pub open spec fn opening(p: Puzzle, rec: Recording) -> Board {
    Board { grid: p.a, t: rec.t_start, a: rec.a_start }
}

/// The most moves a recorded solution for a board of side `n` may have.
pub open spec fn move_limit(n: nat) -> nat {
    4 * n * n
}

/// What the simulation of the first `steps` moves of `rec` on the puzzle `p` yields.
///
/// The sequence must not be longer than [`move_limit`] allows, `steps` must
/// be a number of moves that it has, the markers must stay on the board from
/// their start to the last replayed move, and both costs must fit in an
/// `i64`. The first of these that fails decides the error.
pub open spec fn simulation(p: Puzzle, rec: Recording, steps: int) -> Result<
    Outcome,
    SimulationError,
> {
    let played = rec.moves.take(steps);
    let end = after_moves(opening(p, rec), played);
    if rec.moves.len() > move_limit(p.n) {
        Err(SimulationError::TooManyMoves)
    } else if steps < 0 || steps > rec.moves.len() {
        Err(SimulationError::StepOutOfRange)
    } else if cost(p.a, p.vs, p.hs) > i64::MAX {
        Err(SimulationError::CostOverflow)
    } else if !stays_inside(opening(p, rec), played, p.n) {
        Err(SimulationError::MarkerOutOfGrid)
    } else if cost(end.grid, p.vs, p.hs) > i64::MAX {
        Err(SimulationError::CostOverflow)
    } else {
        Ok(
            Outcome {
                grid: end.grid,
                initial_cost: cost(p.a, p.vs, p.hs),
                final_cost: cost(end.grid, p.vs, p.hs),
            },
        )
    }
}

/// A simulation of no steps returns the board of the puzzle as it is, with
/// the same cost before and after, and so scores 1. It succeeds whenever the
/// sequence is not too long, both markers start on the board, and the cost
/// of the board fits in an `i64`.
pub proof fn simulation_of_no_steps(p: Puzzle, rec: Recording, scaled_log_ratio: int)
    ensures
        match simulation(p, rec, 0) {
            Ok(o) => {
                &&& o.grid == p.a
                &&& o.initial_cost == o.final_cost
                &&& score_of(o.initial_cost, o.final_cost, scaled_log_ratio) == 1
            },
            Err(_) => true,
        },
        rec.moves.len() <= move_limit(p.n) && rec.t_start.inside(p.n) && rec.a_start.inside(p.n)
            && cost(p.a, p.vs, p.hs) <= i64::MAX ==> simulation(p, rec, 0) is Ok,
{
    let none = rec.moves.take(0);
    assert(none =~= Seq::<Move>::empty());
    assert forall|k: int| 0 <= k <= none.len() implies #[trigger] after_moves(
        opening(p, rec),
        none.take(k),
    ) == opening(p, rec) by {
        assert(none.take(k) =~= Seq::<Move>::empty());
    }
}

/// A simulation of a sequence that never exchanges values returns the board
/// of the puzzle as it is, however the markers move, with the same cost
/// before and after, and so scores 1.
pub proof fn simulation_without_swaps(
    p: Puzzle,
    rec: Recording,
    steps: int,
    scaled_log_ratio: int,
)
    requires
        forall|i: int| 0 <= i < rec.moves.len() ==> !(#[trigger] rec.moves[i]).swap,
    ensures
        match simulation(p, rec, steps) {
            Ok(o) => {
                &&& o.grid == p.a
                &&& o.initial_cost == o.final_cost
                &&& score_of(o.initial_cost, o.final_cost, scaled_log_ratio) == 1
            },
            Err(_) => true,
        },
{
    if 0 <= steps <= rec.moves.len() {
        without_swaps_board_is_unchanged(opening(p, rec), rec.moves.take(steps));
    }
}

/// A simulation of `m` steps is the simulation of `k <= m` steps carried on
/// for the moves `k..m`: where both succeed, the board of the longer one is
/// the board that these moves make from the state the shorter one reached.
pub proof fn simulation_resumes(p: Puzzle, rec: Recording, k: int, m: int)
    requires
        0 <= k <= m,
    ensures
        match (simulation(p, rec, k), simulation(p, rec, m)) {
            (Ok(short), Ok(long)) => {
                let reached = after_moves(opening(p, rec), rec.moves.take(k));
                &&& reached.grid == short.grid
                &&& long.grid == after_moves(reached, rec.moves.subrange(k, m)).grid
                &&& long.initial_cost == short.initial_cost
            },
            _ => true,
        },
{
    if m <= rec.moves.len() {
        replay_resumes(opening(p, rec), rec.moves, k, m, p.n);
        assert(rec.moves.take(k) =~= rec.moves.subrange(0, k));
        assert(rec.moves.take(m) =~= rec.moves.subrange(0, m));
    }
}

/// On a puzzle that holds a permutation of `0..n * n` and is no larger than
/// [`LARGEST_SAFE_SIDE`], no simulation fails for the size of a cost: it
/// succeeds whenever the sequence is not too long, has `steps` moves, and
/// keeps the markers on the board as far as it is replayed.
pub proof fn simulation_of_permutation_never_overflows(p: Puzzle, rec: Recording, steps: int)
    requires
        p.wf(),
        is_permutation(p.a, p.n),
        p.n <= LARGEST_SAFE_SIDE,
    ensures
        simulation(p, rec, steps) != Err::<Outcome, SimulationError>(SimulationError::CostOverflow),
        rec.moves.len() <= move_limit(p.n) && 0 <= steps <= rec.moves.len() && stays_inside(
            opening(p, rec),
            rec.moves.take(steps),
            p.n,
        ) ==> simulation(p, rec, steps) is Ok,
{
    let played = rec.moves.take(steps);
    cost_of_permutation_fits(p.a, p.vs, p.hs, p.n);
    if stays_inside(opening(p, rec), played, p.n) {
        replay_keeps_the_board(opening(p, rec), played, p.n);
        cost_of_permutation_fits(after_moves(opening(p, rec), played).grid, p.vs, p.hs, p.n);
    }
}

/// Tells whether a sequence of `len` moves is too long for a board of side `n`.
pub(crate) fn exceeds_move_limit(len: usize, n: usize) -> (r: bool)
    ensures
        r == (len > move_limit(n as nat)),
{
    assert(move_limit(n as nat) == 4 * (n * n)) by (nonlinear_arith)
        requires
            move_limit(n as nat) == 4 * (n as nat) * (n as nat),
    ;
    match n.checked_mul(n) {
        Some(sq) => match sq.checked_mul(4) {
            Some(limit) => len > limit,
            None => false,
        },
        None => false,
    }
}

/// Replays the first `steps` moves of `seq` on a copy of the board of `def`
/// and measures the board before and after.
///
/// `def` is left as it is. The result is the one that [`simulation`] names,
/// error for error.
pub fn simulate(def: &PuzzleDefinition, seq: &MoveSequence, steps: usize) -> (r: Result<
    SimulationResult,
    SimulationError,
>)
    ensures
        def@.wf(),
        match r {
            Ok(s) => simulation(def@, seq@, steps as int) == Ok::<Outcome, SimulationError>(s@),
            Err(e) => simulation(def@, seq@, steps as int) == Err::<Outcome, SimulationError>(e),
        },
{
    let n = def.size();
    if exceeds_move_limit(seq.moves.len(), n) {
        return Err(SimulationError::TooManyMoves);
    }
    if steps > seq.moves.len() {
        return Err(SimulationError::StepOutOfRange);
    }
    let ghost played = seq@.moves.take(steps as int);
    assert(played =~= seq.moves@.subrange(0, steps as int));
    let initial_cost = match compute_cost(def.grid(), def.vertical_walls(), def.horizontal_walls()) {
        Some(c) => c,
        None => {
            return Err(SimulationError::CostOverflow);
        },
    };
    let replay = match Replay::begin(def, seq) {
        Some(s) => s,
        None => {
            assert(!stays_inside(opening(def@, seq@), played, def@.n)) by {
                assert(played.take(0) =~= Seq::<Move>::empty());
                let s = after_moves(opening(def@, seq@), played.take(0));
                assert(!(s.t.inside(def@.n) && s.a.inside(def@.n)));
            }
            return Err(SimulationError::MarkerOutOfGrid);
        },
    };
    let replay = match replay.advance(&seq.moves, 0, steps) {
        Ok(s) => s,
        Err(e) => {
            return Err(e);
        },
    };
    let _ = replay.size();
    let grid = replay.into_grid();
    let final_cost = match compute_cost(&grid, def.vertical_walls(), def.horizontal_walls()) {
        Some(c) => c,
        None => {
            return Err(SimulationError::CostOverflow);
        },
    };
    Ok(SimulationResult { grid, initial_cost, final_cost })
}

} // verus!
