//! Judge for the successor-pair automaton problem.
//!
//! A contestant names two successors for each of `n` positions. Replaying
//! the resulting automaton for `l` steps counts the visits to each
//! position, and the score says how close the counts come to the targets
//! of the instance. This crate holds the text formats, the validation of a
//! contestant's output, the replay, the score, and the interactive judging
//! protocol as a state machine.

pub mod decimal;
pub mod error;
pub mod generate;
pub mod input;
pub mod minmax;
pub mod output;
pub mod score;
pub mod session;
pub mod simulate;
pub mod text;
pub mod verdict;

pub use error::JudgeError;
pub use generate::gen;
pub use input::{parse_input, try_parse_input, Input};
pub use minmax::SetMinMax;
pub use output::{parse_output, parse_pair, read, Output};
pub use score::{compute_score, compute_score_details, fits_score_range};
pub use session::{Action, Event, Session};
pub use simulate::{is_valid_table, simulate, SimulationResult};
pub use verdict::{judge, JudgeVerdict};
