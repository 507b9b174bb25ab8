//! Replay and scoring of recorded solutions to a two-marker grid-shuffling puzzle.
//!
//! A puzzle is a square board of numbered cells with walls on some of the edges
//! between neighbouring cells. Two markers walk over the board, one step each
//! per move, and a move may first exchange the values under them. The crate
//! reads the two text formats, replays a prefix of a recorded move sequence,
//! and measures the board before and after.
pub mod api;
pub mod cost;
pub mod parse;
pub mod puzzle;
pub mod replay;
pub mod scene;
pub mod score;
pub mod simulate;
pub mod text;

pub use crate::api::{frame_at, get_max_turn, rust_gen, Frame, VisOption, VisualizeError};
pub use crate::cost::compute_cost;
pub use crate::parse::{parse_definition, parse_moves, ParseError};
pub use crate::puzzle::{Direction, Marker, Move, MoveSequence, PuzzleDefinition};
pub use crate::replay::{Replay, SimulationError};
pub use crate::scene::{scene, wall_segments, Segment, Shape, Side};
pub use crate::score::score;
pub use crate::simulate::{simulate, SimulationResult};
