//! Replay of recorded moves on a board.
//!
//! A move first exchanges the values under the two markers, if it says so,
//! and then lets each marker take one step. The markers must stay on the
//! board; a sequence that leads one of them off it is refused.
use vstd::prelude::*;

use crate::puzzle::{
    is_permutation, is_square, rows_of, Cell, Direction, Marker, Move, MoveSequence,
    PuzzleDefinition,
};

verus! {

/// The state of a replay: the values on the board and the places of the two markers.
pub struct Board {
    pub grid: Seq<Seq<i64>>,
    pub t: Cell,
    pub a: Cell,
}

/// The unit offset of a direction: up and down change the row, left and right the column.
pub open spec fn step_of(d: Direction) -> Cell {
    match d {
        Direction::Up => Cell { x: 0, y: -1 },
        Direction::Down => Cell { x: 0, y: 1 },
        Direction::Left => Cell { x: -1, y: 0 },
        Direction::Right => Cell { x: 1, y: 0 },
    }
}

/// The board `g` with the values at `p` and `q` exchanged.
pub open spec fn exchanged(g: Seq<Seq<i64>>, p: Cell, q: Cell) -> Seq<Seq<i64>> {
    let g1 = g.update(p.y, g[p.y].update(p.x, g[q.y][q.x]));
    g1.update(q.y, g1[q.y].update(q.x, g[p.y][p.x]))
}

/// The state after one move: the exchange comes first, then both markers step.
pub open spec fn after_move(b: Board, m: Move) -> Board {
    Board {
        grid: if m.swap {
            exchanged(b.grid, b.t, b.a)
        } else {
            b.grid
        },
        t: b.t.plus(step_of(m.t_dir)),
        a: b.a.plus(step_of(m.a_dir)),
    }
}

/// The state after the moves `ms`, made in order from the state `b`.
pub open spec fn after_moves(b: Board, ms: Seq<Move>) -> Board
    decreases ms.len(),
{
    if ms.len() == 0 {
        b
    } else {
        after_move(after_moves(b, ms.drop_last()), ms.last())
    }
}

/// Both markers are on the board of side `n` at the start and after each of the moves `ms`.
pub open spec fn stays_inside(b: Board, ms: Seq<Move>, n: nat) -> bool {
    forall|k: int|
        0 <= k <= ms.len() ==> {
            let s = #[trigger] after_moves(b, ms.take(k));
            s.t.inside(n) && s.a.inside(n)
        }
}

/// Replaying one move more is one move after replaying the moves before it.
pub proof fn after_moves_unfolds(b: Board, ms: Seq<Move>, j: int)
    requires
        0 <= j < ms.len(),
    ensures
        after_moves(b, ms.take(j + 1)) == after_move(after_moves(b, ms.take(j)), ms[j]),
{
    assert(ms.take(j + 1).drop_last() =~= ms.take(j));
}

/// Replaying `xs` and then `ys` is replaying the two in one go.
pub proof fn after_moves_of_concat(b: Board, xs: Seq<Move>, ys: Seq<Move>)
    ensures
        after_moves(b, xs + ys) == after_moves(after_moves(b, xs), ys),
    decreases ys.len(),
{
    if ys.len() == 0 {
        assert(xs + ys =~= xs);
    } else {
        assert((xs + ys).drop_last() =~= xs + ys.drop_last());
        after_moves_of_concat(b, xs, ys.drop_last());
    }
}

/// A replay can be resumed: replaying the first `k` moves and then the moves
/// `k..m` from the state reached gives the state that replaying the first `m`
/// moves gives, and the markers stay on the board in one way exactly when
/// they do in the other.
pub proof fn replay_resumes(b: Board, ms: Seq<Move>, k: int, m: int, n: nat)
    requires
        0 <= k <= m <= ms.len(),
    ensures
        after_moves(after_moves(b, ms.subrange(0, k)), ms.subrange(k, m)) == after_moves(
            b,
            ms.subrange(0, m),
        ),
        stays_inside(b, ms.subrange(0, m), n) <==> stays_inside(b, ms.subrange(0, k), n)
            && stays_inside(after_moves(b, ms.subrange(0, k)), ms.subrange(k, m), n),
{
    let head = ms.subrange(0, k);
    let tail = ms.subrange(k, m);
    let whole = ms.subrange(0, m);
    assert(whole =~= head + tail);
    after_moves_of_concat(b, head, tail);
    let mid = after_moves(b, head);
    if stays_inside(b, whole, n) {
        assert forall|j: int| 0 <= j <= head.len() implies {
            let s = #[trigger] after_moves(b, head.take(j));
            s.t.inside(n) && s.a.inside(n)
        } by {
            assert(head.take(j) =~= whole.take(j));
        }
        assert forall|j: int| 0 <= j <= tail.len() implies {
            let s = #[trigger] after_moves(mid, tail.take(j));
            s.t.inside(n) && s.a.inside(n)
        } by {
            assert(whole.take(k + j) =~= head + tail.take(j));
            after_moves_of_concat(b, head, tail.take(j));
        }
    }
    if stays_inside(b, head, n) && stays_inside(mid, tail, n) {
        assert forall|j: int| 0 <= j <= whole.len() implies {
            let s = #[trigger] after_moves(b, whole.take(j));
            s.t.inside(n) && s.a.inside(n)
        } by {
            if j <= k {
                assert(whole.take(j) =~= head.take(j));
            } else {
                assert(whole.take(j) =~= head + tail.take(j - k));
                after_moves_of_concat(b, head, tail.take(j - k));
            }
        }
    }
}

/// The sum of the unit offsets of the directions `ds`.
pub open spec fn total_offset(ds: Seq<Direction>) -> Cell
    decreases ds.len(),
{
    if ds.len() == 0 {
        Cell { x: 0, y: 0 }
    } else {
        total_offset(ds.drop_last()).plus(step_of(ds.last()))
    }
}

/// The directions that the moves `ms` give to marker T.
pub open spec fn t_dirs(ms: Seq<Move>) -> Seq<Direction> {
    Seq::new(ms.len(), |i: int| ms[i].t_dir)
}

/// The directions that the moves `ms` give to marker A.
pub open spec fn a_dirs(ms: Seq<Move>) -> Seq<Direction> {
    Seq::new(ms.len(), |i: int| ms[i].a_dir)
}

/// A direction moves a marker by one cell along exactly one axis.
pub proof fn step_is_unit(d: Direction)
    ensures
        step_of(d).x == 0 && (step_of(d).y == 1 || step_of(d).y == -1) || step_of(d).y == 0 && (
        step_of(d).x == 1 || step_of(d).x == -1),
{
}

/// After the moves `ms` each marker stands where it started, displaced by
/// the sum of the unit offsets of its directions.
pub proof fn markers_follow_directions(b: Board, ms: Seq<Move>)
    ensures
        after_moves(b, ms).t == b.t.plus(total_offset(t_dirs(ms))),
        after_moves(b, ms).a == b.a.plus(total_offset(a_dirs(ms))),
    decreases ms.len(),
{
    if ms.len() > 0 {
        markers_follow_directions(b, ms.drop_last());
        assert(t_dirs(ms).drop_last() =~= t_dirs(ms.drop_last()));
        assert(a_dirs(ms).drop_last() =~= a_dirs(ms.drop_last()));
    }
}

/// Moves that exchange nothing leave every value where it was, wherever the markers go.
pub proof fn without_swaps_board_is_unchanged(b: Board, ms: Seq<Move>)
    requires
        forall|i: int| 0 <= i < ms.len() ==> !(#[trigger] ms[i]).swap,
    ensures
        after_moves(b, ms).grid == b.grid,
    decreases ms.len(),
{
    if ms.len() > 0 {
        without_swaps_board_is_unchanged(b, ms.drop_last());
    }
}

/// An exchange between two cells of a square board leaves it square, and
/// leaves it a permutation if it was one.
pub proof fn exchange_keeps_the_board(g: Seq<Seq<i64>>, p: Cell, q: Cell, n: nat)
    requires
        is_square(g, n),
        p.inside(n),
        q.inside(n),
    ensures
        is_square(exchanged(g, p, q), n),
        is_permutation(g, n) ==> is_permutation(exchanged(g, p, q), n),
{
    let e = exchanged(g, p, q);
    assert forall|y: int, x: int| 0 <= y < n && 0 <= x < n implies #[trigger] e[y][x] == (if y
        == q.y && x == q.x {
        g[p.y][p.x]
    } else if y == p.y && x == p.x {
        g[q.y][q.x]
    } else {
        g[y][x]
    }) by {}
}

/// Moves that keep the markers on a square board leave it square, and leave
/// it a permutation if it was one: the values are only ever rearranged.
pub proof fn replay_keeps_the_board(b: Board, ms: Seq<Move>, n: nat)
    requires
        is_square(b.grid, n),
        stays_inside(b, ms, n),
    ensures
        is_square(after_moves(b, ms).grid, n),
        is_permutation(b.grid, n) ==> is_permutation(after_moves(b, ms).grid, n),
    decreases ms.len(),
{
    if ms.len() > 0 {
        let front = ms.drop_last();
        assert forall|k: int| 0 <= k <= front.len() implies {
            let s = #[trigger] after_moves(b, front.take(k));
            s.t.inside(n) && s.a.inside(n)
        } by {
            assert(front.take(k) =~= ms.take(k));
        }
        replay_keeps_the_board(b, front, n);
        let before = after_moves(b, front);
        assert(front.take(front.len() as int) =~= front);
        assert(before == after_moves(b, ms.take(front.len() as int))) by {
            assert(ms.take(front.len() as int) =~= front);
        }
        exchange_keeps_the_board(before.grid, before.t, before.a, n);
    }
}

/// Why a replay was refused.
#[derive(Clone, Copy, Debug, PartialEq, Eq, Structural)]
pub enum SimulationError {
    /// The sequence has more than `4 * n * n` moves.
    TooManyMoves,
    /// More steps were asked for than the sequence has moves.
    StepOutOfRange,
    /// A marker starts off the board, or a replayed move leads one off it.
    MarkerOutOfGrid,
    /// The cost of the board before or after the replay does not fit in an `i64`.
    CostOverflow,
}

/// A replay in progress: the working copy of the board and the two markers.
///
/// The board is square and both markers stand on it.
#[derive(Debug)]
pub struct Replay {
    grid: Vec<Vec<i64>>,
    t: Marker,
    a: Marker,
}

impl View for Replay {
    type V = Board;

    closed spec fn view(&self) -> Board {
        Board { grid: rows_of(self.grid@), t: self.t@, a: self.a@ }
    }
}

/// Copies a board.
fn copy_grid(g: &Vec<Vec<i64>>) -> (r: Vec<Vec<i64>>)
    ensures
        rows_of(r@) == rows_of(g@),
{
    let mut out: Vec<Vec<i64>> = Vec::new();
    let mut y: usize = 0;
    while y < g.len()
        invariant
            y <= g.len(),
            out.len() == y,
            forall|i: int| 0 <= i < y ==> (#[trigger] out[i])@ == g[i]@,
        decreases g.len() - y,
    {
        let mut row: Vec<i64> = Vec::new();
        let mut x: usize = 0;
        while x < g[y].len()
            invariant
                y < g.len(),
                x <= g[y as int].len(),
                row@ == g[y as int]@.take(x as int),
            decreases g[y as int].len() - x,
        {
            row.push(g[y][x]);
            assert(row@ =~= g[y as int]@.take(x + 1));
            x += 1;
        }
        assert(row@ =~= g[y as int]@);
        out.push(row);
        y += 1;
    }
    assert(rows_of(out@) =~= rows_of(g@));
    out
}

/// The marker one step from `m` in direction `d`, if that is on the board of side `n`.
fn stepped(m: Marker, d: Direction, n: usize) -> (r: Option<Marker>)
    requires
        m@.inside(n as nat),
    ensures
        match r {
            Some(p) => p@ == m@.plus(step_of(d)) && p@.inside(n as nat),
            None => !m@.plus(step_of(d)).inside(n as nat),
        },
{
    match d {
        Direction::Up => if m.y == 0 {
            None
        } else {
            Some(Marker { x: m.x, y: m.y - 1 })
        },
        Direction::Down => if m.y + 1 >= n {
            None
        } else {
            Some(Marker { x: m.x, y: m.y + 1 })
        },
        Direction::Left => if m.x == 0 {
            None
        } else {
            Some(Marker { x: m.x - 1, y: m.y })
        },
        Direction::Right => if m.x + 1 >= n {
            None
        } else {
            Some(Marker { x: m.x + 1, y: m.y })
        },
    }
}

impl Replay {
    #[verifier::type_invariant]
    spec fn well_formed(&self) -> bool {
        &&& is_square(rows_of(self.grid@), self.grid.len() as nat)
        &&& self.t@.inside(self.grid.len() as nat)
        &&& self.a@.inside(self.grid.len() as nat)
    }

    /// Sets up the replay of `seq` on a copy of the board of `def`: nothing is
    /// replayed yet and the markers are where `seq` lets them start.
    ///
    /// Returns `None` exactly when a marker would start off the board.
    pub fn begin(def: &PuzzleDefinition, seq: &MoveSequence) -> (r: Option<Replay>)
        ensures
            def@.wf(),
            match r {
                Some(s) => s@ == (Board { grid: def@.a, t: seq@.t_start, a: seq@.a_start }),
                None => !(seq@.t_start.inside(def@.n) && seq@.a_start.inside(def@.n)),
            },
            r.is_some() ==> seq@.t_start.inside(def@.n) && seq@.a_start.inside(def@.n),
    {
        let n = def.size();
        let t = seq.t_start;
        let a = seq.a_start;
        if t.x < n && t.y < n && a.x < n && a.y < n {
            let grid = copy_grid(def.grid());
            Some(Replay { grid, t, a })
        } else {
            None
        }
    }

    /// The side of the board.
    pub fn size(&self) -> (n: usize)
        ensures
            n == self@.grid.len(),
            is_square(self@.grid, n as nat),
            self@.t.inside(n as nat),
            self@.a.inside(n as nat),
    {
        proof {
            use_type_invariant(self);
        }
        self.grid.len()
    }

    /// The values on the board as they stand.
    pub fn grid(&self) -> (g: &Vec<Vec<i64>>)
        ensures
            rows_of(g@) == self@.grid,
    {
        &self.grid
    }

    /// Ends the replay and hands out the board.
    pub fn into_grid(self) -> (g: Vec<Vec<i64>>)
        ensures
            rows_of(g@) == self@.grid,
    {
        self.grid
    }

    /// Where marker T stands.
    pub fn t(&self) -> (m: Marker)
        ensures
            m@ == self@.t,
    {
        self.t
    }

    /// Where marker A stands.
    pub fn a(&self) -> (m: Marker)
        ensures
            m@ == self@.a,
    {
        self.a
    }

    /// Replays the moves `moves[from..to]` from the present state.
    ///
    /// Fails with `StepOutOfRange` exactly when `from..to` is no range of
    /// `moves`, and otherwise with `MarkerOutOfGrid` exactly when one of
    /// these moves leads a marker off the board.
    pub fn advance(self, moves: &Vec<Move>, from: usize, to: usize) -> (r: Result<
        Replay,
        SimulationError,
    >)
        ensures
            match r {
                Ok(s) => {
                    &&& from <= to <= moves.len()
                    &&& stays_inside(
                        self@,
                        moves@.subrange(from as int, to as int),
                        self@.grid.len(),
                    )
                    &&& s@ == after_moves(self@, moves@.subrange(from as int, to as int))
                    &&& s@.grid.len() == self@.grid.len()
                },
                Err(e) => if from <= to <= moves.len() {
                    &&& e == SimulationError::MarkerOutOfGrid
                    &&& !stays_inside(
                        self@,
                        moves@.subrange(from as int, to as int),
                        self@.grid.len(),
                    )
                } else {
                    e == SimulationError::StepOutOfRange
                },
            },
    {
        proof {
            use_type_invariant(&self);
        }
        if from > to || to > moves.len() {
            return Err(SimulationError::StepOutOfRange);
        }
        let ghost start = self@;
        let ghost ms = moves@.subrange(from as int, to as int);
        let n = self.grid.len();
        let mut grid = self.grid;
        let mut t = self.t;
        let mut a = self.a;
        let mut i: usize = from;
        assert(ms.take(0) =~= Seq::<Move>::empty());
        while i < to
            invariant
                from <= i <= to <= moves.len(),
                start == self@,
                ms == moves@.subrange(from as int, to as int),
                n == grid.len(),
                start.grid.len() == n,
                is_square(rows_of(grid@), n as nat),
                t@.inside(n as nat),
                a@.inside(n as nat),
                (Board { grid: rows_of(grid@), t: t@, a: a@ }) == after_moves(
                    start,
                    ms.take(i - from),
                ),
                forall|k: int|
                    0 <= k <= i - from ==> {
                        let s = #[trigger] after_moves(start, ms.take(k));
                        s.t.inside(n as nat) && s.a.inside(n as nat)
                    },
            decreases to - i,
        {
            let m = moves[i];
            proof {
                after_moves_unfolds(start, ms, i - from);
            }
            let ghost before = rows_of(grid@);
            if m.swap {
                let tv = grid[t.y][t.x];
                let av = grid[a.y][a.x];
                grid[t.y][t.x] = av;
                grid[a.y][a.x] = tv;
                assert(rows_of(grid@) =~= exchanged(before, t@, a@));
            }
            match (stepped(t, m.t_dir, n), stepped(a, m.a_dir, n)) {
                (Some(t1), Some(a1)) => {
                    t = t1;
                    a = a1;
                },
                _ => {
                    assert(!stays_inside(start, ms, n as nat)) by {
                        let s = after_moves(start, ms.take(i - from + 1));
                        assert(!(s.t.inside(n as nat) && s.a.inside(n as nat)));
                    }
                    return Err(SimulationError::MarkerOutOfGrid);
                },
            }
            i += 1;
        }
        assert(ms.take(to - from) =~= ms);
        Ok(Replay { grid, t, a })
    }
}

} // verus!
