//! The data of a puzzle: the board with its walls, and a recorded sequence of moves.
use vstd::prelude::*;

verus! {

/// The rows of a nested vector as a sequence of sequences.
pub open spec fn rows_of<T>(v: Seq<Vec<T>>) -> Seq<Seq<T>> {
    Seq::new(v.len(), |y: int| v[y]@)
}

/// `g` has `h` rows of `w` entries.
pub open spec fn has_shape<T>(g: Seq<Seq<T>>, h: int, w: int) -> bool {
    &&& g.len() == h
    &&& forall|y: int| 0 <= y < h ==> (#[trigger] g[y]).len() == w
}

/// `g` has `n` rows of `n` entries.
pub open spec fn is_square<T>(g: Seq<Seq<T>>, n: nat) -> bool {
    has_shape(g, n as int, n as int)
}

/// Every value of the board `g` of side `n` lies in `0..n * n`, and no two cells hold the same value.
pub open spec fn is_permutation(g: Seq<Seq<i64>>, n: nat) -> bool {
    &&& forall|y: int, x: int| 0 <= y < n && 0 <= x < n ==> 0 <= #[trigger] g[y][x] < n * n
    &&& forall|y1: int, x1: int, y2: int, x2: int|
        0 <= y1 < n && 0 <= x1 < n && 0 <= y2 < n && 0 <= x2 < n && (y1 != y2 || x1 != x2)
            ==> #[trigger] g[y1][x1] != #[trigger] g[y2][x2]
}

/// `vs` and `hs` hold one flag for every inner edge of a board of side `n`:
/// `vs[y][x]` for the edge between `(y, x)` and `(y, x + 1)`, and
/// `hs[y][x]` for the edge between `(y, x)` and `(y + 1, x)`.
pub open spec fn walls_fit(vs: Seq<Seq<bool>>, hs: Seq<Seq<bool>>, n: nat) -> bool {
    &&& n >= 1
    &&& has_shape(vs, n as int, n - 1)
    &&& has_shape(hs, n - 1, n as int)
}

/// One of the four directions in which a marker steps.
#[derive(Clone, Copy, Debug, PartialEq, Eq, Structural)]
pub enum Direction {
    Up,
    Down,
    Left,
    Right,
}

/// One recorded move: whether the values under the two markers are exchanged
/// first, and the direction in which each marker then steps.
#[derive(Clone, Copy, Debug, PartialEq, Eq, Structural)]
pub struct Move {
    pub swap: bool,
    pub t_dir: Direction,
    pub a_dir: Direction,
}

/// The cell a marker stands on: column `x` of row `y`.
#[derive(Clone, Copy, Debug, PartialEq, Eq, Structural)]
pub struct Marker {
    pub x: usize,
    pub y: usize,
}

/// A position on the unbounded integer plane, column `x` of row `y`.
pub struct Cell {
    pub x: int,
    pub y: int,
}

impl Cell {
    /// The position reached from `self` by the offset `by`.
    pub open spec fn plus(self, by: Cell) -> Cell {
        Cell { x: self.x + by.x, y: self.y + by.y }
    }

    /// `self` lies on a board of side `n`.
    pub open spec fn inside(self, n: nat) -> bool {
        0 <= self.x < n && 0 <= self.y < n
    }
}

impl View for Marker {
    type V = Cell;

    open spec fn view(&self) -> Cell {
        Cell { x: self.x as int, y: self.y as int }
    }
}

/// A recorded solution: where the markers T and A start, and the moves in order.
#[derive(Debug, PartialEq, Eq)]
pub struct MoveSequence {
    pub t_start: Marker,
    pub a_start: Marker,
    pub moves: Vec<Move>,
}

/// The mathematical content of a [`MoveSequence`].
pub struct Recording {
    pub t_start: Cell,
    pub a_start: Cell,
    pub moves: Seq<Move>,
}

impl View for MoveSequence {
    type V = Recording;

    open spec fn view(&self) -> Recording {
        Recording { t_start: self.t_start@, a_start: self.a_start@, moves: self.moves@ }
    }
}

/// The mathematical content of a [`PuzzleDefinition`].
pub struct Puzzle {
    /// The turn budget.
    pub t: nat,
    /// The side of the board.
    pub n: nat,
    /// `vs[y][x]` tells whether a wall separates `(y, x)` from `(y, x + 1)`.
    pub vs: Seq<Seq<bool>>,
    /// `hs[y][x]` tells whether a wall separates `(y, x)` from `(y + 1, x)`.
    pub hs: Seq<Seq<bool>>,
    /// `a[y][x]` is the value in column `x` of row `y`.
    pub a: Seq<Seq<i64>>,
}

impl Puzzle {
    /// The board is square and not empty, and the walls cover exactly its inner edges.
    pub open spec fn wf(self) -> bool {
        &&& is_square(self.a, self.n)
        &&& walls_fit(self.vs, self.hs, self.n)
    }
}

/// A puzzle: a board of `n` by `n` values, the walls between its cells, and a turn budget.
///
/// A value of this type always has the shape that [`Puzzle::wf`] describes.
/// Nothing changes it once it is made.
#[derive(Debug)]
pub struct PuzzleDefinition {
    t: usize,
    n: usize,
    vs: Vec<Vec<bool>>,
    hs: Vec<Vec<bool>>,
    a: Vec<Vec<i64>>,
}

impl View for PuzzleDefinition {
    type V = Puzzle;

    closed spec fn view(&self) -> Puzzle {
        Puzzle {
            t: self.t as nat,
            n: self.n as nat,
            vs: rows_of(self.vs@),
            hs: rows_of(self.hs@),
            a: rows_of(self.a@),
        }
    }
}

/// Tells whether `g` has `h` rows of `w` entries.
pub(crate) fn shape_is<T>(g: &Vec<Vec<T>>, h: usize, w: usize) -> (ok: bool)
    ensures
        ok == has_shape(rows_of(g@), h as int, w as int),
{
    if g.len() != h {
        return false;
    }
    let mut y: usize = 0;
    while y < h
        invariant
            g.len() == h,
            y <= h,
            forall|i: int| 0 <= i < y ==> (#[trigger] rows_of(g@)[i]).len() == w,
        decreases h - y,
    {
        if g[y].len() != w {
            assert(rows_of(g@)[y as int].len() != w);
            return false;
        }
        y += 1;
    }
    true
}

impl PuzzleDefinition {
    #[verifier::type_invariant]
    spec fn well_formed(&self) -> bool {
        self@.wf()
    }

    /// Makes a puzzle of side `n` from its parts, if they have the right shape:
    /// `a` of `n` rows of `n` values, `vs` of `n` rows of `n - 1` flags,
    /// `hs` of `n - 1` rows of `n` flags, and `n` at least 1.
    pub fn new(
        t: usize,
        n: usize,
        vs: Vec<Vec<bool>>,
        hs: Vec<Vec<bool>>,
        a: Vec<Vec<i64>>,
    ) -> (r: Option<PuzzleDefinition>)
        ensures
            match r {
                Some(d) => d@.wf() && d@ == (Puzzle {
                    t: t as nat,
                    n: n as nat,
                    vs: rows_of(vs@),
                    hs: rows_of(hs@),
                    a: rows_of(a@),
                }),
                None => !(Puzzle {
                    t: t as nat,
                    n: n as nat,
                    vs: rows_of(vs@),
                    hs: rows_of(hs@),
                    a: rows_of(a@),
                }).wf(),
            },
    {
        if n == 0 {
            return None;
        }
        if shape_is(&a, n, n) && shape_is(&vs, n, n - 1) && shape_is(&hs, n - 1, n) {
            Some(PuzzleDefinition { t, n, vs, hs, a })
        } else {
            None
        }
    }

    /// The turn budget.
    pub fn turn_budget(&self) -> (t: usize)
        ensures
            t == self@.t,
    {
        self.t
    }

    /// The side of the board.
    pub fn size(&self) -> (n: usize)
        ensures
            n == self@.n,
            n >= 1,
            self@.wf(),
    {
        proof {
            use_type_invariant(self);
        }
        self.n
    }

    /// The values on the board, row by row.
    pub fn grid(&self) -> (a: &Vec<Vec<i64>>)
        ensures
            rows_of(a@) == self@.a,
            self@.wf(),
    {
        proof {
            use_type_invariant(self);
        }
        &self.a
    }

    /// The walls between horizontal neighbours, row by row.
    pub fn vertical_walls(&self) -> (vs: &Vec<Vec<bool>>)
        ensures
            rows_of(vs@) == self@.vs,
            self@.wf(),
    {
        proof {
            use_type_invariant(self);
        }
        &self.vs
    }

    /// The walls between vertical neighbours, row by row.
    pub fn horizontal_walls(&self) -> (hs: &Vec<Vec<bool>>)
        ensures
            rows_of(hs@) == self@.hs,
            self@.wf(),
    {
        proof {
            use_type_invariant(self);
        }
        &self.hs
    }
}

} // verus!
