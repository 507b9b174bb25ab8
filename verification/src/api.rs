//! The entry points for a viewer: from the two texts and a step count to the
//! board to draw.
use vstd::prelude::*;

use crate::parse::{parse_definition, parse_moves, puzzle_of, recording_of, ParseError};
use crate::puzzle::{Puzzle, PuzzleDefinition};
use crate::replay::SimulationError;
use crate::simulate::{exceeds_move_limit, simulate, simulation, Outcome, SimulationResult};
use crate::text::words;

verus! {

/// The options of the viewer. There are none so far.
#[derive(Clone, Copy, Debug, PartialEq, Eq, Structural)]
pub struct VisOption {}

impl VisOption {
    /// Makes the options.
    pub fn new() -> (r: VisOption)
        ensures
            r == (VisOption {  }),
    {
        VisOption {  }
    }
}

/// Generates the text of a puzzle. Nothing is generated: the text is empty.
pub fn rust_gen() -> (r: String)
    ensures
        r@ == Seq::<char>::empty(),
{
    String::new()
}

/// The largest step count that can be asked for with the move sequence
/// `output`, as far as an `i32` can hold it: the number of its moves.
pub open spec fn max_turn_of(output: Seq<char>) -> Result<i32, ParseError> {
    match recording_of(words(output)) {
        Ok(rec) => Ok(
            if rec.moves.len() <= i32::MAX {
                rec.moves.len() as i32
            } else {
                i32::MAX
            },
        ),
        Err(e) => Err(e),
    }
}

/// Reads the move sequence `output` and tells the largest step count that
/// it allows. The puzzle definition is not looked at.
pub fn get_max_turn(_input: String, output: String) -> (r: Result<i32, ParseError>)
    ensures
        r == max_turn_of(output@),
{
    match parse_moves(output.as_str()) {
        Ok(seq) => {
            let len = seq.moves.len();
            if len <= i32::MAX as usize {
                Ok(len as i32)
            } else {
                Ok(i32::MAX)
            }
        },
        Err(e) => Err(e),
    }
}

/// Why no frame could be made.
#[derive(Clone, Copy, Debug, PartialEq, Eq, Structural)]
pub enum VisualizeError {
    /// The puzzle definition was refused.
    Input(ParseError),
    /// The move sequence was refused.
    Output(ParseError),
    /// The replay was refused.
    Simulation(SimulationError),
}

/// What there is to draw and to score: the puzzle as it was defined, for its
/// walls, and the result of the replay, for the values and the two costs.
#[derive(Debug)]
pub struct Frame {
    pub definition: PuzzleDefinition,
    pub result: SimulationResult,
}

/// The frame for the puzzle definition `input` and the move sequence
/// `output` after `turn` steps. The definition is read first, then the
/// moves, then the replay is made; the first of these that fails decides the error.
pub open spec fn frame_of(input: Seq<char>, output: Seq<char>, turn: int) -> Result<
    (Puzzle, Outcome),
    VisualizeError,
> {
    match puzzle_of(words(input)) {
        Err(e) => Err(VisualizeError::Input(e)),
        Ok(p) => match recording_of(words(output)) {
            Err(e) => Err(VisualizeError::Output(e)),
            Ok(rec) => match simulation(p, rec, turn) {
                Err(e) => Err(VisualizeError::Simulation(e)),
                Ok(o) => Ok((p, o)),
            },
        },
    }
}

/// Reads the puzzle definition `input` and the move sequence `output`, and
/// replays the first `turn` moves.
///
/// The result is the one that [`frame_of`] names, error for error.
pub fn frame_at(input: &str, output: &str, turn: i32) -> (r: Result<Frame, VisualizeError>)
    ensures
        match r {
            Ok(f) => f.definition@.wf() && frame_of(input@, output@, turn as int) == Ok::<
                (Puzzle, Outcome),
                VisualizeError,
            >((f.definition@, f.result@)),
            Err(e) => frame_of(input@, output@, turn as int) == Err::<
                (Puzzle, Outcome),
                VisualizeError,
            >(e),
        },
{
    let definition = match parse_definition(input) {
        Ok(d) => d,
        Err(e) => {
            return Err(VisualizeError::Input(e));
        },
    };
    let seq = match parse_moves(output) {
        Ok(s) => s,
        Err(e) => {
            return Err(VisualizeError::Output(e));
        },
    };
    if turn < 0 {
        if exceeds_move_limit(seq.moves.len(), definition.size()) {
            return Err(VisualizeError::Simulation(SimulationError::TooManyMoves));
        }
        return Err(VisualizeError::Simulation(SimulationError::StepOutOfRange));
    }
    match simulate(&definition, &seq, turn as usize) {
        Ok(result) => Ok(Frame { definition, result }),
        Err(e) => Err(VisualizeError::Simulation(e)),
    }
}

} // verus!
