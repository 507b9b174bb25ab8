//! The cost of a board: the squared differences across its open edges.
use vstd::prelude::*;

use crate::puzzle::{is_permutation, is_square, rows_of, walls_fit};

verus! {

/// The square of the difference of two values.
pub open spec fn sq_diff(a: int, b: int) -> int {
    (a - b) * (a - b)
}

/// What the open edge from `(y, x)` to its right neighbour adds to the cost.
pub open spec fn right_edge(g: Seq<Seq<i64>>, vs: Seq<Seq<bool>>, y: int, x: int) -> int {
    if x + 1 < g[y].len() && !vs[y][x] {
        sq_diff(g[y][x] as int, g[y][x + 1] as int)
    } else {
        0
    }
}

/// What the open edge from `(y, x)` to the neighbour below adds to the cost.
pub open spec fn down_edge(g: Seq<Seq<i64>>, hs: Seq<Seq<bool>>, y: int, x: int) -> int {
    if y + 1 < g.len() && !hs[y][x] {
        sq_diff(g[y][x] as int, g[y + 1][x] as int)
    } else {
        0
    }
}

/// The cost of the edges that leave the first `w` cells of row `y` to the right and downwards.
pub open spec fn row_cost(
    g: Seq<Seq<i64>>,
    vs: Seq<Seq<bool>>,
    hs: Seq<Seq<bool>>,
    y: int,
    w: nat,
) -> int
    decreases w,
{
    if w == 0 {
        0
    } else {
        row_cost(g, vs, hs, y, (w - 1) as nat) + right_edge(g, vs, y, w - 1) + down_edge(
            g,
            hs,
            y,
            w - 1,
        )
    }
}

/// The cost of the edges that leave the cells of the first `h` rows to the right and downwards.
pub open spec fn rows_cost(g: Seq<Seq<i64>>, vs: Seq<Seq<bool>>, hs: Seq<Seq<bool>>, h: nat) -> int
    decreases h,
{
    if h == 0 {
        0
    } else {
        rows_cost(g, vs, hs, (h - 1) as nat) + row_cost(g, vs, hs, h - 1, g[h - 1].len())
    }
}

/// The cost of a board: over every pair of neighbouring cells with no wall
/// between them, the sum of the squared difference of their values.
pub open spec fn cost(g: Seq<Seq<i64>>, vs: Seq<Seq<bool>>, hs: Seq<Seq<bool>>) -> int {
    rows_cost(g, vs, hs, g.len())
}

/// The largest difference whose square still fits in an `i64`.
pub const MAX_DIFF: i128 = 3037000499;

/// No edge adds a negative amount.
pub proof fn edges_not_negative(
    g: Seq<Seq<i64>>,
    vs: Seq<Seq<bool>>,
    hs: Seq<Seq<bool>>,
    y: int,
    x: int,
)
    ensures
        0 <= right_edge(g, vs, y, x),
        0 <= down_edge(g, hs, y, x),
{
    let c = g[y][x] as int;
    let r = g[y][x + 1] as int;
    let d = g[y + 1][x] as int;
    assert(0 <= (c - r) * (c - r)) by (nonlinear_arith);
    assert(0 <= (c - d) * (c - d)) by (nonlinear_arith);
}

/// A longer part of a row costs no less than a shorter one, and none costs less than nothing.
pub proof fn row_cost_grows(
    g: Seq<Seq<i64>>,
    vs: Seq<Seq<bool>>,
    hs: Seq<Seq<bool>>,
    y: int,
    w1: nat,
    w2: nat,
)
    requires
        w1 <= w2,
    ensures
        0 <= row_cost(g, vs, hs, y, w1) <= row_cost(g, vs, hs, y, w2),
    decreases w2,
{
    if w2 > 0 {
        edges_not_negative(g, vs, hs, y, w2 - 1);
        if w1 < w2 {
            row_cost_grows(g, vs, hs, y, w1, (w2 - 1) as nat);
        } else {
            row_cost_grows(g, vs, hs, y, 0, (w2 - 1) as nat);
        }
    }
}

/// More rows cost no less than fewer.
pub proof fn rows_cost_grows(
    g: Seq<Seq<i64>>,
    vs: Seq<Seq<bool>>,
    hs: Seq<Seq<bool>>,
    h1: nat,
    h2: nat,
)
    requires
        h1 <= h2,
    ensures
        0 <= rows_cost(g, vs, hs, h1) <= rows_cost(g, vs, hs, h2),
    decreases h2,
{
    if h2 > 0 {
        row_cost_grows(g, vs, hs, h2 - 1, 0, g[h2 - 1].len());
        if h1 < h2 {
            rows_cost_grows(g, vs, hs, h1, (h2 - 1) as nat);
        } else {
            rows_cost_grows(g, vs, hs, 0, (h2 - 1) as nat);
        }
    }
}

/// The edges counted up to and including cell `(y, x)`, row by row, cost no more than the board.
pub proof fn counted_so_far_is_within_cost(
    g: Seq<Seq<i64>>,
    vs: Seq<Seq<bool>>,
    hs: Seq<Seq<bool>>,
    y: int,
    x: int,
)
    requires
        0 <= y < g.len(),
        0 <= x < g[y].len(),
    ensures
        0 <= right_edge(g, vs, y, x),
        0 <= down_edge(g, hs, y, x),
        0 <= rows_cost(g, vs, hs, y as nat),
        0 <= row_cost(g, vs, hs, y, x as nat),
        rows_cost(g, vs, hs, y as nat) + row_cost(g, vs, hs, y, x as nat) + right_edge(g, vs, y, x)
            + down_edge(g, hs, y, x) <= cost(g, vs, hs),
{
    edges_not_negative(g, vs, hs, y, x);
    rows_cost_grows(g, vs, hs, 0, y as nat);
    row_cost_grows(g, vs, hs, y, 0, x as nat);
    row_cost_grows(g, vs, hs, y, (x + 1) as nat, g[y].len());
    rows_cost_grows(g, vs, hs, (y + 1) as nat, g.len());
}

/// The largest side of a board whose cost fits in an `i64` whatever
/// permutation of `0..n * n` it holds.
pub const LARGEST_SAFE_SIDE: usize = 1290;

/// The square of the difference of two values in `0..m` is at most `m * m`.
proof fn sq_diff_is_bounded(a: int, b: int, m: int)
    requires
        0 <= a < m,
        0 <= b < m,
    ensures
        sq_diff(a, b) <= m * m,
{
    assert((a - b) * (a - b) <= m * m) by (nonlinear_arith)
        requires
            -m < a - b < m,
    ;
}

/// Of a board of side `n` with values in `0..n * n`, the first `w` cells of
/// a row add at most `2 * w` squares of `n * n`.
proof fn row_cost_is_bounded(
    g: Seq<Seq<i64>>,
    vs: Seq<Seq<bool>>,
    hs: Seq<Seq<bool>>,
    n: nat,
    y: int,
    w: nat,
)
    requires
        is_square(g, n),
        is_permutation(g, n),
        0 <= y < n,
        w <= n,
    ensures
        row_cost(g, vs, hs, y, w) <= 2 * w * ((n * n) * (n * n)),
    decreases w,
{
    let b = (n * n) * (n * n);
    if w > 0 {
        let x = w - 1;
        row_cost_is_bounded(g, vs, hs, n, y, (w - 1) as nat);
        if x + 1 < n {
            sq_diff_is_bounded(g[y][x] as int, g[y][x + 1] as int, (n * n) as int);
        }
        if y + 1 < n {
            sq_diff_is_bounded(g[y][x] as int, g[y + 1][x] as int, (n * n) as int);
        }
        assert(0 <= b) by (nonlinear_arith)
            requires
                b == (n * n) * (n * n),
        ;
        assert(2 * (w - 1) * b + 2 * b == 2 * w * b) by (nonlinear_arith);
    }
}

/// A board of side `n` that holds a permutation of `0..n * n` costs at most
/// `2 * n^6`, which fits in an `i64` up to the side [`LARGEST_SAFE_SIDE`].
pub proof fn cost_of_permutation_fits(
    g: Seq<Seq<i64>>,
    vs: Seq<Seq<bool>>,
    hs: Seq<Seq<bool>>,
    n: nat,
)
    requires
        is_square(g, n),
        is_permutation(g, n),
    ensures
        cost(g, vs, hs) <= 2 * (n * n) * ((n * n) * (n * n)),
        n <= LARGEST_SAFE_SIDE ==> cost(g, vs, hs) <= i64::MAX,
{
    let b = (n * n) * (n * n);
    rows_cost_is_bounded(g, vs, hs, n, n);
    assert(2 * n * n * b == 2 * (n * n) * b) by (nonlinear_arith);
    if n <= LARGEST_SAFE_SIDE {
        let sq = n * n;
        assert(sq <= 1664100) by (nonlinear_arith)
            requires
                sq == n * n,
                n <= 1290,
        ;
        assert(b <= 2769228810000) by (nonlinear_arith)
            requires
                b == sq * sq,
                0 <= sq <= 1664100,
        ;
        assert(2 * sq * b <= 9216547325442000000) by (nonlinear_arith)
            requires
                0 <= sq <= 1664100,
                0 <= b <= 2769228810000,
        ;
    }
}

/// Of a board of side `n` with values in `0..n * n`, the first `h` rows add
/// at most `2 * h * n` squares of `n * n`.
proof fn rows_cost_is_bounded(
    g: Seq<Seq<i64>>,
    vs: Seq<Seq<bool>>,
    hs: Seq<Seq<bool>>,
    n: nat,
    h: nat,
)
    requires
        is_square(g, n),
        is_permutation(g, n),
        h <= n,
    ensures
        rows_cost(g, vs, hs, h) <= 2 * h * n * ((n * n) * (n * n)),
    decreases h,
{
    let b = (n * n) * (n * n);
    if h > 0 {
        rows_cost_is_bounded(g, vs, hs, n, (h - 1) as nat);
        row_cost_is_bounded(g, vs, hs, n, h - 1, n);
        assert(g[h - 1].len() == n);
        assert(2 * (h - 1) * n * b + 2 * n * b == 2 * h * n * b) by (nonlinear_arith);
    }
}

/// Adds the squared difference of `a` and `b` to `acc`, or reports that the sum leaves `i64`.
fn add_sq_diff(acc: i64, a: i64, b: i64) -> (r: Option<i64>)
    requires
        0 <= acc,
    ensures
        match r {
            Some(s) => s == acc + sq_diff(a as int, b as int),
            None => acc + sq_diff(a as int, b as int) > i64::MAX,
        },
        0 <= sq_diff(a as int, b as int),
{
    let d: i128 = a as i128 - b as i128;
    if d > MAX_DIFF || d < -MAX_DIFF {
        assert(d * d > i64::MAX) by (nonlinear_arith)
            requires
                d > 3037000499 || d < -3037000499,
        ;
        None
    } else {
        assert(0 <= d * d <= 3037000499 * 3037000499) by (nonlinear_arith)
            requires
                -3037000499 <= d <= 3037000499,
        ;
        let sum: i128 = acc as i128 + d * d;
        if sum > i64::MAX as i128 {
            None
        } else {
            Some(sum as i64)
        }
    }
}

/// Computes the cost of the board `grid` under the walls `vs` and `hs`.
///
/// Returns `None` exactly when the cost is too large for an `i64`.
pub fn compute_cost(grid: &Vec<Vec<i64>>, vs: &Vec<Vec<bool>>, hs: &Vec<Vec<bool>>) -> (r: Option<
    i64,
>)
    requires
        is_square(rows_of(grid@), grid.len() as nat),
        walls_fit(rows_of(vs@), rows_of(hs@), grid.len() as nat),
    ensures
        match r {
            Some(c) => c == cost(rows_of(grid@), rows_of(vs@), rows_of(hs@)),
            None => cost(rows_of(grid@), rows_of(vs@), rows_of(hs@)) > i64::MAX,
        },
{
    let n = grid.len();
    let ghost g = rows_of(grid@);
    let ghost v = rows_of(vs@);
    let ghost h = rows_of(hs@);
    let mut total: i64 = 0;
    let mut y: usize = 0;
    while y < n
        invariant
            n == grid.len(),
            g == rows_of(grid@),
            v == rows_of(vs@),
            h == rows_of(hs@),
            is_square(g, n as nat),
            walls_fit(v, h, n as nat),
            y <= n,
            0 <= total,
            total == rows_cost(g, v, h, y as nat),
        decreases n - y,
    {
        let mut x: usize = 0;
        while x < n
            invariant
                n == grid.len(),
                g == rows_of(grid@),
                v == rows_of(vs@),
                h == rows_of(hs@),
                is_square(g, n as nat),
                walls_fit(v, h, n as nat),
                y < n,
                x <= n,
                0 <= total,
                total == rows_cost(g, v, h, y as nat) + row_cost(g, v, h, y as int, x as nat),
            decreases n - x,
        {
            proof {
                assert(g[y as int].len() == n);
                counted_so_far_is_within_cost(g, v, h, y as int, x as int);
            }
            let ghost before = total as int;
            if x + 1 < n && !vs[y][x] {
                match add_sq_diff(total, grid[y][x], grid[y][x + 1]) {
                    Some(t) => {
                        total = t;
                    },
                    None => {
                        return None;
                    },
                }
            }
            assert(total == before + right_edge(g, v, y as int, x as int));
            if y + 1 < n && !hs[y][x] {
                match add_sq_diff(total, grid[y][x], grid[y + 1][x]) {
                    Some(t) => {
                        total = t;
                    },
                    None => {
                        return None;
                    },
                }
            }
            x += 1;
        }
        proof {
            assert(g[y as int].len() == n);
        }
        y += 1;
    }
    Some(total)
}

} // verus!
