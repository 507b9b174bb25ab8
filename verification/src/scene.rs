//! What there is to draw of a board, in the order in which it is drawn:
//! the cells, the walls, and a frame round the board.
//!
//! Nothing here knows the size of the canvas. A cell is named by its column
//! and row, and a wall runs between corners of cells: corner `(x, y)` is the
//! upper left corner of the cell in column `x` of row `y`, so both of its
//! coordinates run from 0 to `n`.
use vstd::prelude::*;

use crate::puzzle::{is_square, rows_of, shape_is, Puzzle, PuzzleDefinition};

verus! {

/// A straight line from the corner `(x1, y1)` to the corner `(x2, y2)`.
#[derive(Clone, Copy, Debug, PartialEq, Eq, Structural)]
pub struct Segment {
    pub x1: usize,
    pub y1: usize,
    pub x2: usize,
    pub y2: usize,
}

/// The lower edge of the cell in column `x` of row `y`.
pub open spec fn edge_below(y: int, x: int) -> Segment {
    Segment { x1: x as usize, y1: (y + 1) as usize, x2: (x + 1) as usize, y2: (y + 1) as usize }
}

/// The right edge of the cell in column `x` of row `y`.
pub open spec fn edge_right(y: int, x: int) -> Segment {
    Segment { x1: (x + 1) as usize, y1: y as usize, x2: (x + 1) as usize, y2: (y + 1) as usize }
}

/// The edge that the flag in column `x` of row `y` stands for: the lower
/// edge of the cell if `below`, and its right edge otherwise.
pub open spec fn edge_of(below: bool, y: int, x: int) -> Segment {
    if below {
        edge_below(y, x)
    } else {
        edge_right(y, x)
    }
}

/// The edges of the first `w` flags of `row`, which is row `y`, that are set, from left to right.
pub open spec fn walls_in_row(row: Seq<bool>, below: bool, y: int, w: nat) -> Seq<Segment>
    decreases w,
{
    if w == 0 {
        Seq::empty()
    } else {
        let before = walls_in_row(row, below, y, (w - 1) as nat);
        if row[w - 1] {
            before.push(edge_of(below, y, w - 1))
        } else {
            before
        }
    }
}

/// The edges of the flags in the first `h` rows of `flags` that are set, row by row.
pub open spec fn walls_in_rows(flags: Seq<Seq<bool>>, below: bool, h: nat) -> Seq<Segment>
    decreases h,
{
    if h == 0 {
        Seq::empty()
    } else {
        walls_in_rows(flags, below, (h - 1) as nat) + walls_in_row(
            flags[h - 1],
            below,
            h - 1,
            flags[h - 1].len(),
        )
    }
}

/// The walls of the puzzle `p` as segments: first those between vertical
/// neighbours, then those between horizontal neighbours, each kind row by
/// row and from left to right.
pub open spec fn wall_segments_of(p: Puzzle) -> Seq<Segment> {
    walls_in_rows(p.hs, true, p.hs.len()) + walls_in_rows(p.vs, false, p.vs.len())
}

/// A segment is among the walls of a row exactly when it is the edge of one of its set flags.
pub proof fn row_walls_are_the_set_flags(row: Seq<bool>, below: bool, y: int, w: nat, seg: Segment)
    ensures
        walls_in_row(row, below, y, w).contains(seg) <==> exists|x: int|
            0 <= x < w && row[x] && seg == #[trigger] edge_of(below, y, x),
    decreases w,
{
    if w > 0 {
        let before = walls_in_row(row, below, y, (w - 1) as nat);
        let all = walls_in_row(row, below, y, w);
        row_walls_are_the_set_flags(row, below, y, (w - 1) as nat, seg);
        if all.contains(seg) {
            let i = choose|i: int| 0 <= i < all.len() && all[i] == seg;
            if row[w - 1] && i == all.len() - 1 {
                assert(seg == edge_of(below, y, w - 1));
            } else {
                assert(before[i] == seg);
                assert(before.contains(seg));
            }
        }
        if exists|x: int| 0 <= x < w && row[x] && seg == #[trigger] edge_of(below, y, x) {
            let x = choose|x: int| 0 <= x < w && row[x] && seg == #[trigger] edge_of(below, y, x);
            if x == w - 1 {
                assert(all[all.len() - 1] == seg);
            } else {
                assert(before.contains(seg));
                let i = choose|i: int| 0 <= i < before.len() && before[i] == seg;
                assert(all[i] == seg);
            }
        }
    }
}

/// A segment is among the walls of some rows exactly when it is the edge of a set flag in one of them.
pub proof fn walls_are_the_set_flags(flags: Seq<Seq<bool>>, below: bool, h: nat, seg: Segment)
    ensures
        walls_in_rows(flags, below, h).contains(seg) <==> exists|y: int, x: int|
            0 <= y < h && 0 <= x < flags[y].len() && flags[y][x] && seg == #[trigger] edge_of(
                below,
                y,
                x,
            ),
    decreases h,
{
    if h > 0 {
        let before = walls_in_rows(flags, below, (h - 1) as nat);
        let row = walls_in_row(flags[h - 1], below, h - 1, flags[h - 1].len());
        let all = walls_in_rows(flags, below, h);
        walls_are_the_set_flags(flags, below, (h - 1) as nat, seg);
        row_walls_are_the_set_flags(flags[h - 1], below, h - 1, flags[h - 1].len(), seg);
        if all.contains(seg) {
            let i = choose|i: int| 0 <= i < all.len() && all[i] == seg;
            if i < before.len() {
                assert(before[i] == seg);
                assert(before.contains(seg));
            } else {
                assert(row[i - before.len()] == seg);
                assert(row.contains(seg));
                let x = choose|x: int|
                    0 <= x < flags[h - 1].len() && flags[h - 1][x] && seg == #[trigger] edge_of(
                        below,
                        h - 1,
                        x,
                    );
                assert(0 <= h - 1 < h && 0 <= x < flags[h - 1].len() && flags[h - 1][x] && seg
                    == edge_of(below, h - 1, x));
            }
        }
        if exists|y: int, x: int|
            0 <= y < h && 0 <= x < flags[y].len() && flags[y][x] && seg == #[trigger] edge_of(
                below,
                y,
                x,
            ) {
            let (y, x) = choose|y: int, x: int|
                0 <= y < h && 0 <= x < flags[y].len() && flags[y][x] && seg == #[trigger] edge_of(
                    below,
                    y,
                    x,
                );
            if y == h - 1 {
                assert(row.contains(seg));
                let i = choose|i: int| 0 <= i < row.len() && row[i] == seg;
                assert(all[before.len() + i] == seg);
            } else {
                assert(before.contains(seg));
                let i = choose|i: int| 0 <= i < before.len() && before[i] == seg;
                assert(all[i] == seg);
            }
        }
    }
}

/// The segments of a puzzle are the edges on which it has a wall, and no others:
/// the lower edge of each cell with a wall below it, and the right edge of
/// each cell with a wall to its right.
pub proof fn segments_are_the_walls(p: Puzzle, seg: Segment)
    requires
        p.wf(),
    ensures
        wall_segments_of(p).contains(seg) <==> (exists|y: int, x: int|
            0 <= y < p.n - 1 && 0 <= x < p.n && p.hs[y][x] && seg == #[trigger] edge_below(y, x))
            || (exists|y: int, x: int|
            0 <= y < p.n && 0 <= x < p.n - 1 && p.vs[y][x] && seg == #[trigger] edge_right(y, x)),
{
    let below = walls_in_rows(p.hs, true, p.hs.len());
    let right = walls_in_rows(p.vs, false, p.vs.len());
    let all = wall_segments_of(p);
    walls_are_the_set_flags(p.hs, true, p.hs.len(), seg);
    walls_are_the_set_flags(p.vs, false, p.vs.len(), seg);
    if all.contains(seg) {
        let i = choose|i: int| 0 <= i < all.len() && all[i] == seg;
        if i < below.len() {
            assert(below[i] == seg);
            assert(below.contains(seg));
            let (y, x) = choose|y: int, x: int|
                0 <= y < p.hs.len() && 0 <= x < p.hs[y].len() && p.hs[y][x] && seg
                    == #[trigger] edge_of(true, y, x);
            assert(0 <= y < p.n - 1 && 0 <= x < p.n && p.hs[y][x] && seg == edge_below(y, x));
        } else {
            assert(right[i - below.len()] == seg);
            assert(right.contains(seg));
            let (y, x) = choose|y: int, x: int|
                0 <= y < p.vs.len() && 0 <= x < p.vs[y].len() && p.vs[y][x] && seg
                    == #[trigger] edge_of(false, y, x);
            assert(0 <= y < p.n && 0 <= x < p.n - 1 && p.vs[y][x] && seg == edge_right(y, x));
        }
    }
    if exists|y: int, x: int|
        0 <= y < p.n - 1 && 0 <= x < p.n && p.hs[y][x] && seg == #[trigger] edge_below(y, x) {
        let (y, x) = choose|y: int, x: int|
            0 <= y < p.n - 1 && 0 <= x < p.n && p.hs[y][x] && seg == #[trigger] edge_below(y, x);
        assert(0 <= y < p.hs.len() && 0 <= x < p.hs[y].len() && p.hs[y][x] && seg == edge_of(
            true,
            y,
            x,
        ));
        assert(below.contains(seg));
        let i = choose|i: int| 0 <= i < below.len() && below[i] == seg;
        assert(all[i] == seg);
    }
    if exists|y: int, x: int|
        0 <= y < p.n && 0 <= x < p.n - 1 && p.vs[y][x] && seg == #[trigger] edge_right(y, x) {
        let (y, x) = choose|y: int, x: int|
            0 <= y < p.n && 0 <= x < p.n - 1 && p.vs[y][x] && seg == #[trigger] edge_right(y, x);
        assert(0 <= y < p.vs.len() && 0 <= x < p.vs[y].len() && p.vs[y][x] && seg == edge_of(
            false,
            y,
            x,
        ));
        assert(right.contains(seg));
        let i = choose|i: int| 0 <= i < right.len() && right[i] == seg;
        assert(all[below.len() + i] == seg);
    }
}

/// Appends to `out` the edges of the flags of `flags` that are set, on a board of side `n`.
fn push_walls(out: &mut Vec<Segment>, flags: &Vec<Vec<bool>>, below: bool, n: usize)
    requires
        forall|y: int| 0 <= y < flags.len() ==> (#[trigger] flags@[y]).len() <= n,
        flags.len() <= n,
    ensures
        final(out)@ == old(out)@ + walls_in_rows(rows_of(flags@), below, flags.len() as nat),
{
    let ghost f = rows_of(flags@);
    let ghost start = out@;
    let mut y: usize = 0;
    assert(out@ =~= start + walls_in_rows(f, below, 0));
    while y < flags.len()
        invariant
            f == rows_of(flags@),
            forall|y: int| 0 <= y < flags.len() ==> (#[trigger] flags@[y]).len() <= n,
            flags.len() <= n,
            y <= flags.len(),
            out@ == start + walls_in_rows(f, below, y as nat),
        decreases flags.len() - y,
    {
        let ghost till_row = out@;
        let mut x: usize = 0;
        assert(out@ =~= till_row + walls_in_row(f[y as int], below, y as int, 0));
        while x < flags[y].len()
            invariant
                f == rows_of(flags@),
                y < flags.len() <= n,
                flags@[y as int].len() <= n,
                x <= flags@[y as int].len(),
                out@ == till_row + walls_in_row(f[y as int], below, y as int, x as nat),
            decreases flags@[y as int].len() - x,
        {
            assert(f[y as int] == flags@[y as int]@);
            if flags[y][x] {
                let edge = if below {
                    Segment { x1: x, y1: y + 1, x2: x + 1, y2: y + 1 }
                } else {
                    Segment { x1: x + 1, y1: y, x2: x + 1, y2: y + 1 }
                };
                assert(edge == edge_of(below, y as int, x as int));
                out.push(edge);
                assert(out@ =~= till_row + walls_in_row(
                    f[y as int],
                    below,
                    y as int,
                    (x + 1) as nat,
                ));
            }
            x += 1;
        }
        assert(f[y as int].len() == flags@[y as int].len());
        assert(out@ =~= start + walls_in_rows(f, below, (y + 1) as nat));
        y += 1;
    }
}

/// Lists the walls of `def` as segments between corners of cells, in the
/// order in which they are drawn.
pub fn wall_segments(def: &PuzzleDefinition) -> (r: Vec<Segment>)
    ensures
        r@ == wall_segments_of(def@),
{
    let mut out: Vec<Segment> = Vec::new();
    let n = def.size();
    let hs = def.horizontal_walls();
    let vs = def.vertical_walls();
    assert(forall|y: int| 0 <= y < hs.len() ==> (#[trigger] hs@[y])@ == rows_of(hs@)[y]);
    assert(forall|y: int| 0 <= y < vs.len() ==> (#[trigger] vs@[y])@ == rows_of(vs@)[y]);
    push_walls(&mut out, hs, true, n);
    push_walls(&mut out, vs, false, n);
    out
}

/// A side of the frame round the board.
#[derive(Clone, Copy, Debug, PartialEq, Eq, Structural)]
pub enum Side {
    Top,
    Bottom,
    Left,
    Right,
}

/// One thing to draw.
#[derive(Clone, Copy, Debug, PartialEq, Eq, Structural)]
pub enum Shape {
    /// The cell in column `x` of row `y`, to be coloured and labelled by `value`.
    Cell { x: usize, y: usize, value: i64 },
    /// A wall between two cells.
    Wall(Segment),
    /// A side of the frame.
    Frame(Side),
}

/// The first `h` cells of column `x` of the board `g`, from the top.
pub open spec fn cells_in_column(g: Seq<Seq<i64>>, x: int, h: nat) -> Seq<Shape> {
    Seq::new(h, |y: int| Shape::Cell { x: x as usize, y: y as usize, value: g[y][x] })
}

/// The cells of the first `w` columns of the board `g`, column by column.
pub open spec fn cells_in_columns(g: Seq<Seq<i64>>, w: nat) -> Seq<Shape>
    decreases w,
{
    if w == 0 {
        Seq::empty()
    } else {
        cells_in_columns(g, (w - 1) as nat) + cells_in_column(g, w - 1, g.len())
    }
}

/// The segments `segs` as walls to draw.
pub open spec fn as_walls(segs: Seq<Segment>) -> Seq<Shape> {
    Seq::new(segs.len(), |i: int| Shape::Wall(segs[i]))
}

/// The four sides of the frame.
pub open spec fn frame() -> Seq<Shape> {
    seq![
        Shape::Frame(Side::Top),
        Shape::Frame(Side::Bottom),
        Shape::Frame(Side::Left),
        Shape::Frame(Side::Right),
    ]
}

/// What there is to draw of the board `g` with the walls of the puzzle `p`:
/// every cell, column by column, then the walls, then the frame, which is
/// there whatever the walls are.
pub open spec fn scene_of(p: Puzzle, g: Seq<Seq<i64>>) -> Seq<Shape> {
    cells_in_columns(g, p.n) + as_walls(wall_segments_of(p)) + frame()
}

/// Lists what there is to draw of the board `grid` with the walls of `def`.
///
/// Returns `None` exactly when `grid` is not a board of the side of `def`.
pub fn scene(def: &PuzzleDefinition, grid: &Vec<Vec<i64>>) -> (r: Option<Vec<Shape>>)
    ensures
        match r {
            Some(shapes) => is_square(rows_of(grid@), def@.n) && shapes@ == scene_of(
                def@,
                rows_of(grid@),
            ),
            None => !is_square(rows_of(grid@), def@.n),
        },
{
    let n = def.size();
    if !shape_is(grid, n, n) {
        return None;
    }
    let ghost g = rows_of(grid@);
    let mut out: Vec<Shape> = Vec::new();
    let mut x: usize = 0;
    while x < n
        invariant
            g == rows_of(grid@),
            is_square(g, n as nat),
            x <= n,
            out@ == cells_in_columns(g, x as nat),
        decreases n - x,
    {
        let ghost till_column = out@;
        let mut y: usize = 0;
        assert(out@ =~= till_column + cells_in_column(g, x as int, 0));
        while y < n
            invariant
                g == rows_of(grid@),
                is_square(g, n as nat),
                x < n,
                y <= n,
                out@ == till_column + cells_in_column(g, x as int, y as nat),
            decreases n - y,
        {
            assert(g[y as int] == grid@[y as int]@);
            out.push(Shape::Cell { x, y, value: grid[y][x] });
            assert(out@ =~= till_column + cells_in_column(g, x as int, (y + 1) as nat));
            y += 1;
        }
        x += 1;
    }
    let walls = wall_segments(def);
    let ghost cells = out@;
    let mut i: usize = 0;
    assert(out@ =~= cells + as_walls(walls@.take(0)));
    while i < walls.len()
        invariant
            i <= walls.len(),
            out@ == cells + as_walls(walls@.take(i as int)),
        decreases walls.len() - i,
    {
        out.push(Shape::Wall(walls[i]));
        assert(out@ =~= cells + as_walls(walls@.take(i + 1)));
        i += 1;
    }
    assert(walls@.take(walls.len() as int) =~= walls@);
    let ghost drawn = out@;
    out.push(Shape::Frame(Side::Top));
    out.push(Shape::Frame(Side::Bottom));
    out.push(Shape::Frame(Side::Left));
    out.push(Shape::Frame(Side::Right));
    assert(out@ =~= drawn + frame());
    Some(out)
}

} // verus!
