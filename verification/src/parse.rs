//! The two text formats: a puzzle definition and a recorded move sequence.
//!
//! Both are streams of words separated by white space; line breaks count as
//! any other white space.
//!
//! A puzzle definition is the turn budget `t` and the side `n`, then `n` rows
//! of walls between horizontal neighbours, then `n - 1` rows of walls between
//! vertical neighbours, then the `n * n` values row by row. A row of walls is
//! one word of the characters `0` and `1`, also where the board has no use
//! for any flag of it. It may be longer than the `n - 1` or `n` flags that
//! the board has a use for: the rest is dropped. Words after the last value
//! are not read.
//!
//! A move sequence is the start of marker T as `x y`, the start of marker A
//! as `x y`, and then three words per move: the swap flag `0` or `1`, the
//! direction of T and the direction of A, each one of `U`, `D`, `L`, `R`.
use vstd::pervasive::unreached;
use vstd::prelude::*;

use crate::puzzle::{
    rows_of, Cell, Direction, Marker, Move, MoveSequence, Puzzle, PuzzleDefinition, Recording,
};
use crate::text::{i64_of, read_i64, read_usize, split_words, usize_of, words};

verus! {

/// Why a text was refused.
#[derive(Clone, Copy, Debug, PartialEq, Eq, Structural)]
pub enum ParseError {
    /// The text ends before everything was read.
    UnexpectedEnd,
    /// A word that should be a number is none, or the number is out of range.
    InvalidNumber,
    /// The side of the board is 0.
    EmptyBoard,
    /// A row of walls is too short or holds a character other than `0` and `1`.
    InvalidWallRow,
    /// A swap flag is neither `0` nor `1`.
    InvalidFlag,
    /// A direction is none of `U`, `D`, `L`, `R`.
    InvalidDirection,
}

/// The swap flag that the word `w` writes.
pub open spec fn flag_of(w: Seq<char>) -> Option<bool> {
    if w.len() == 1 && w[0] == '0' {
        Some(false)
    } else if w.len() == 1 && w[0] == '1' {
        Some(true)
    } else {
        None
    }
}

/// The direction that the word `w` writes.
pub open spec fn direction_of(w: Seq<char>) -> Option<Direction> {
    if w.len() != 1 {
        None
    } else if w[0] == 'U' {
        Some(Direction::Up)
    } else if w[0] == 'D' {
        Some(Direction::Down)
    } else if w[0] == 'L' {
        Some(Direction::Left)
    } else if w[0] == 'R' {
        Some(Direction::Right)
    } else {
        None
    }
}

/// The moves that the words `ws` write, three words to a move. The first
/// word that does not fit decides the error.
pub open spec fn moves_of(ws: Seq<Seq<char>>) -> Result<Seq<Move>, ParseError>
    decreases ws.len(),
{
    if ws.len() == 0 {
        Ok(Seq::empty())
    } else {
        match flag_of(ws[0]) {
            None => Err(ParseError::InvalidFlag),
            Some(swap) => if ws.len() < 3 {
                Err(ParseError::UnexpectedEnd)
            } else {
                match (direction_of(ws[1]), direction_of(ws[2])) {
                    (Some(t_dir), Some(a_dir)) => after(
                        seq![Move { swap, t_dir, a_dir }],
                        moves_of(ws.skip(3)),
                    ),
                    _ => Err(ParseError::InvalidDirection),
                }
            },
        }
    }
}

/// The moves `first` followed by the moves that `rest` holds, or the error of `rest`.
pub open spec fn after(first: Seq<Move>, rest: Result<Seq<Move>, ParseError>) -> Result<
    Seq<Move>,
    ParseError,
> {
    match rest {
        Ok(ms) => Ok(first + ms),
        Err(e) => Err(e),
    }
}

/// The recorded solution that the words `ws` write.
pub open spec fn recording_of(ws: Seq<Seq<char>>) -> Result<Recording, ParseError> {
    if ws.len() < 4 {
        Err(ParseError::UnexpectedEnd)
    } else {
        match (usize_of(ws[0]), usize_of(ws[1]), usize_of(ws[2]), usize_of(ws[3])) {
            (Some(tx), Some(ty), Some(ax), Some(ay)) => match moves_of(ws.skip(4)) {
                Ok(moves) => Ok(
                    Recording {
                        t_start: Cell { x: tx as int, y: ty as int },
                        a_start: Cell { x: ax as int, y: ay as int },
                        moves,
                    },
                ),
                Err(e) => Err(e),
            },
            _ => Err(ParseError::InvalidNumber),
        }
    }
}

/// The word `w` can serve as a row of `need` walls: it has at least `need`
/// characters, and all of them are `0` or `1`.
pub open spec fn wall_row_ok(w: Seq<char>, need: int) -> bool {
    &&& w.len() >= need
    &&& forall|i: int| 0 <= i < w.len() ==> #[trigger] w[i] == '0' || w[i] == '1'
}

/// The `rows` rows of `cols` walls that the words from `ws[first]` on write.
pub open spec fn walls_of(ws: Seq<Seq<char>>, first: int, rows: int, cols: int) -> Seq<Seq<bool>> {
    Seq::new(rows as nat, |y: int| Seq::new(cols as nat, |x: int| ws[first + y][x] == '1'))
}

/// The `n` rows of `n` values that the words from `ws[first]` on write.
pub open spec fn values_of(ws: Seq<Seq<char>>, first: int, n: int) -> Seq<Seq<i64>> {
    Seq::new(n as nat, |y: int| Seq::new(n as nat, |x: int| i64_of(ws[first + y * n + x]).unwrap()))
}

/// The puzzle that the words `ws` write.
///
/// The header is judged first, then the number of words, then the rows of
/// walls, then the values.
pub open spec fn puzzle_of(ws: Seq<Seq<char>>) -> Result<Puzzle, ParseError> {
    if ws.len() < 2 {
        Err(ParseError::UnexpectedEnd)
    } else {
        match (usize_of(ws[0]), usize_of(ws[1])) {
            (Some(t), Some(side)) => {
                let n = side as int;
                let hs_at = 2 + n;
                let a_at = 2 + n + (n - 1);
                if n == 0 {
                    Err(ParseError::EmptyBoard)
                } else if ws.len() < a_at + n * n {
                    Err(ParseError::UnexpectedEnd)
                } else if !(forall|i: int| 2 <= i < hs_at ==> wall_row_ok(#[trigger] ws[i], n - 1))
                    || !(forall|i: int| hs_at <= i < a_at ==> wall_row_ok(#[trigger] ws[i], n)) {
                    Err(ParseError::InvalidWallRow)
                } else if !(forall|i: int|
                    a_at <= i < a_at + n * n ==> i64_of(#[trigger] ws[i]).is_some()) {
                    Err(ParseError::InvalidNumber)
                } else {
                    Ok(
                        Puzzle {
                            t: t as nat,
                            n: n as nat,
                            vs: walls_of(ws, 2, n, n - 1),
                            hs: walls_of(ws, hs_at, n - 1, n),
                            a: values_of(ws, a_at, n),
                        },
                    )
                }
            },
            _ => Err(ParseError::InvalidNumber),
        }
    }
}

/// Reads the word `w` as a swap flag.
fn read_flag(w: &Vec<char>) -> (r: Option<bool>)
    ensures
        r == flag_of(w@),
{
    if w.len() != 1 {
        None
    } else if w[0] == '0' {
        Some(false)
    } else if w[0] == '1' {
        Some(true)
    } else {
        None
    }
}

/// Reads the word `w` as a direction.
fn read_direction(w: &Vec<char>) -> (r: Option<Direction>)
    ensures
        r == direction_of(w@),
{
    if w.len() != 1 {
        None
    } else if w[0] == 'U' {
        Some(Direction::Up)
    } else if w[0] == 'D' {
        Some(Direction::Down)
    } else if w[0] == 'L' {
        Some(Direction::Left)
    } else if w[0] == 'R' {
        Some(Direction::Right)
    } else {
        None
    }
}

/// Reads the first `need` walls of the word `w`.
fn read_wall_row(w: &Vec<char>, need: usize) -> (r: Option<Vec<bool>>)
    ensures
        match r {
            Some(row) => wall_row_ok(w@, need as int) && row@ == Seq::new(
                need as nat,
                |x: int| w@[x] == '1',
            ),
            None => !wall_row_ok(w@, need as int),
        },
{
    if w.len() < need {
        return None;
    }
    let mut row: Vec<bool> = Vec::new();
    let mut x: usize = 0;
    while x < w.len()
        invariant
            need <= w.len(),
            x <= w.len(),
            row.len() == (if x < need {
                x
            } else {
                need
            }),
            forall|i: int| 0 <= i < x ==> #[trigger] w@[i] == '0' || w@[i] == '1',
            forall|i: int| 0 <= i < row.len() ==> #[trigger] row@[i] == (w@[i] == '1'),
        decreases w.len() - x,
    {
        let c = w[x];
        if c != '0' && c != '1' {
            return None;
        }
        if x < need {
            row.push(c == '1');
        }
        x += 1;
    }
    assert(row@ =~= Seq::new(need as nat, |x: int| w@[x] == '1'));
    Some(row)
}

/// Reads `rows` rows of `cols` walls from the words `ws[first..]`.
fn read_walls(ws: &Vec<Vec<char>>, first: usize, rows: usize, cols: usize) -> (r: Option<
    Vec<Vec<bool>>,
>)
    requires
        first + rows <= ws.len(),
    ensures
        match r {
            Some(v) => {
                &&& forall|i: int|
                    first <= i < first + rows ==> wall_row_ok(
                        #[trigger] rows_of(ws@)[i],
                        cols as int,
                    )
                &&& rows_of(v@) == walls_of(rows_of(ws@), first as int, rows as int, cols as int)
            },
            None => !(forall|i: int|
                first <= i < first + rows ==> wall_row_ok(#[trigger] rows_of(ws@)[i], cols as int)),
        },
{
    let ghost w = rows_of(ws@);
    let mut out: Vec<Vec<bool>> = Vec::new();
    let mut y: usize = 0;
    while y < rows
        invariant
            first + rows <= ws.len(),
            w == rows_of(ws@),
            y <= rows,
            out.len() == y,
            forall|i: int| first <= i < first + y ==> wall_row_ok(#[trigger] w[i], cols as int),
            forall|i: int|
                0 <= i < y ==> (#[trigger] out@[i])@ == Seq::new(
                    cols as nat,
                    |x: int| w[first + i][x] == '1',
                ),
        decreases rows - y,
    {
        assert(w[first + y] == ws@[first + y]@);
        match read_wall_row(&ws[first + y], cols) {
            Some(row) => {
                out.push(row);
            },
            None => {
                return None;
            },
        }
        y += 1;
    }
    assert(rows_of(out@) =~= walls_of(w, first as int, rows as int, cols as int));
    Some(out)
}

/// Reads `n` rows of `n` values from the words `ws[first..]`.
fn read_values(ws: &Vec<Vec<char>>, first: usize, n: usize) -> (r: Option<Vec<Vec<i64>>>)
    requires
        first + n * n <= ws.len(),
    ensures
        match r {
            Some(v) => {
                &&& forall|i: int|
                    first <= i < first + n * n ==> i64_of(#[trigger] rows_of(ws@)[i]).is_some()
                &&& rows_of(v@) == values_of(rows_of(ws@), first as int, n as int)
            },
            None => !(forall|i: int|
                first <= i < first + n * n ==> i64_of(#[trigger] rows_of(ws@)[i]).is_some()),
        },
{
    let ghost w = rows_of(ws@);
    let mut out: Vec<Vec<i64>> = Vec::new();
    let mut pos: usize = first;
    let mut y: usize = 0;
    while y < n
        invariant
            first + n * n <= ws.len(),
            w == rows_of(ws@),
            y <= n,
            out.len() == y,
            pos == first + y * n,
            forall|i: int| first <= i < pos ==> i64_of(#[trigger] w[i]).is_some(),
            forall|i: int|
                0 <= i < y ==> (#[trigger] out@[i])@ == Seq::new(
                    n as nat,
                    |x: int| i64_of(w[first + i * n + x]).unwrap(),
                ),
        decreases n - y,
    {
        let mut row: Vec<i64> = Vec::new();
        let mut x: usize = 0;
        while x < n
            invariant
                first + n * n <= ws.len(),
                w == rows_of(ws@),
                y < n,
                x <= n,
                row.len() == x,
                pos == first + y * n + x,
                forall|i: int| first <= i < pos ==> i64_of(#[trigger] w[i]).is_some(),
                forall|i: int|
                    0 <= i < x ==> #[trigger] row@[i] == i64_of(w[first + y * n + i]).unwrap(),
            decreases n - x,
        {
            assert(y * n + x < n * n) by (nonlinear_arith)
                requires
                    0 <= y < n,
                    0 <= x < n,
            ;
            assert(w[pos as int] == ws@[pos as int]@);
            match read_i64(&ws[pos]) {
                Some(v) => {
                    row.push(v);
                },
                None => {
                    return None;
                },
            }
            pos += 1;
            x += 1;
        }
        assert(y * n + n == (y + 1) * n) by (nonlinear_arith);
        assert(row@ =~= Seq::new(n as nat, |x: int| i64_of(w[first + y * n + x]).unwrap()));
        out.push(row);
        y += 1;
    }
    assert(rows_of(out@) =~= values_of(w, first as int, n as int));
    Some(out)
}

/// The number of words that a puzzle of side `n` takes, if it fits in a `usize`.
fn words_needed(n: usize) -> (r: Option<usize>)
    requires
        n >= 1,
    ensures
        match r {
            Some(k) => k == 2 + n + (n - 1) + n * n,
            None => 2 + n + (n - 1) + n * n > usize::MAX,
        },
{
    let sq = match n.checked_mul(n) {
        Some(v) => v,
        None => {
            return None;
        },
    };
    let with_rows = match sq.checked_add(n) {
        Some(v) => v,
        None => {
            return None;
        },
    };
    let with_header = match with_rows.checked_add(n) {
        Some(v) => v,
        None => {
            return None;
        },
    };
    with_header.checked_add(1)
}

/// Reads a puzzle definition.
///
/// The result is the one that [`puzzle_of`] names for the words of `text`,
/// error for error.
pub fn parse_definition(text: &str) -> (r: Result<PuzzleDefinition, ParseError>)
    ensures
        match r {
            Ok(d) => d@.wf() && puzzle_of(words(text@)) == Ok::<Puzzle, ParseError>(d@),
            Err(e) => puzzle_of(words(text@)) == Err::<Puzzle, ParseError>(e),
        },
{
    let ws = split_words(text);
    if ws.len() < 2 {
        return Err(ParseError::UnexpectedEnd);
    }
    let ghost w = rows_of(ws@);
    assert(w[0] == ws@[0]@ && w[1] == ws@[1]@);
    let (t, n) = match (read_usize(&ws[0]), read_usize(&ws[1])) {
        (Some(t), Some(n)) => (t, n),
        _ => {
            return Err(ParseError::InvalidNumber);
        },
    };
    if n == 0 {
        return Err(ParseError::EmptyBoard);
    }
    match words_needed(n) {
        Some(k) => if ws.len() < k {
            return Err(ParseError::UnexpectedEnd);
        },
        None => {
            return Err(ParseError::UnexpectedEnd);
        },
    }
    let hs_at = 2 + n;
    let a_at = hs_at + (n - 1);
    let vs = match read_walls(&ws, 2, n, n - 1) {
        Some(v) => v,
        None => {
            return Err(ParseError::InvalidWallRow);
        },
    };
    let hs = match read_walls(&ws, hs_at, n - 1, n) {
        Some(v) => v,
        None => {
            return Err(ParseError::InvalidWallRow);
        },
    };
    let a = match read_values(&ws, a_at, n) {
        Some(v) => v,
        None => {
            return Err(ParseError::InvalidNumber);
        },
    };
    match PuzzleDefinition::new(t, n, vs, hs, a) {
        Some(d) => Ok(d),
        None => unreached(),
    }
}

/// Reads a recorded move sequence from its words.
fn read_moves(ws: &Vec<Vec<char>>) -> (r: Result<Vec<Move>, ParseError>)
    requires
        ws.len() >= 4,
    ensures
        match r {
            Ok(ms) => moves_of(rows_of(ws@).skip(4)) == Ok::<Seq<Move>, ParseError>(ms@),
            Err(e) => moves_of(rows_of(ws@).skip(4)) == Err::<Seq<Move>, ParseError>(e),
        },
{
    let ghost body = rows_of(ws@).skip(4);
    let mut moves: Vec<Move> = Vec::new();
    let mut i: usize = 4;
    assert(body.skip(0) =~= body);
    assert(after(moves@, moves_of(body)) == moves_of(body)) by {
        match moves_of(body) {
            Ok(ms) => {
                assert(moves@ + ms =~= ms);
            },
            Err(_) => {},
        }
    }
    while i < ws.len()
        invariant
            4 <= i <= ws.len(),
            body == rows_of(ws@).skip(4),
            moves_of(body) == after(moves@, moves_of(body.skip(i - 4))),
        decreases ws.len() - i,
    {
        let ghost rest = body.skip(i - 4);
        assert(rest.len() == ws.len() - i);
        assert(rest[0] == ws@[i as int]@);
        let swap = match read_flag(&ws[i]) {
            Some(f) => f,
            None => {
                return Err(ParseError::InvalidFlag);
            },
        };
        if ws.len() - i < 3 {
            return Err(ParseError::UnexpectedEnd);
        }
        assert(rest[1] == ws@[i + 1]@);
        assert(rest[2] == ws@[i + 2]@);
        let t_dir = match read_direction(&ws[i + 1]) {
            Some(d) => d,
            None => {
                return Err(ParseError::InvalidDirection);
            },
        };
        let a_dir = match read_direction(&ws[i + 2]) {
            Some(d) => d,
            None => {
                return Err(ParseError::InvalidDirection);
            },
        };
        let m = Move { swap, t_dir, a_dir };
        proof {
            assert(rest.skip(3) =~= body.skip(i + 3 - 4));
            match moves_of(rest.skip(3)) {
                Ok(ms) => {
                    assert(moves@ + (seq![m] + ms) =~= moves@.push(m) + ms);
                },
                Err(_) => {},
            }
        }
        moves.push(m);
        i += 3;
    }
    proof {
        assert(body.skip(i - 4).len() == 0);
        assert(moves@ + Seq::<Move>::empty() =~= moves@);
    }
    Ok(moves)
}

/// Reads a recorded move sequence.
///
/// The result is the one that [`recording_of`] names for the words of
/// `text`, error for error.
pub fn parse_moves(text: &str) -> (r: Result<MoveSequence, ParseError>)
    ensures
        match r {
            Ok(seq) => recording_of(words(text@)) == Ok::<Recording, ParseError>(seq@),
            Err(e) => recording_of(words(text@)) == Err::<Recording, ParseError>(e),
        },
{
    let ws = split_words(text);
    if ws.len() < 4 {
        return Err(ParseError::UnexpectedEnd);
    }
    let ghost w = rows_of(ws@);
    assert(w[0] == ws@[0]@ && w[1] == ws@[1]@ && w[2] == ws@[2]@ && w[3] == ws@[3]@);
    match (read_usize(&ws[0]), read_usize(&ws[1]), read_usize(&ws[2]), read_usize(&ws[3])) {
        (Some(tx), Some(ty), Some(ax), Some(ay)) => match read_moves(&ws) {
            Ok(moves) => Ok(
                MoveSequence {
                    t_start: Marker { x: tx, y: ty },
                    a_start: Marker { x: ax, y: ay },
                    moves,
                },
            ),
            Err(e) => Err(e),
        },
        _ => Err(ParseError::InvalidNumber),
    }
}

} // verus!
