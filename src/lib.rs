//! An interpreter for the eight-instruction tape language: a bracket
//! resolver that builds the jump table, and an engine that runs a program
//! over a fixed, wrapping byte tape.
pub mod brackets;
pub mod engine;
pub mod error;
pub mod machine;
pub mod text;

pub use brackets::create_bracket_map;
pub use engine::{run, run_with_limit, step, State, Transfer};
