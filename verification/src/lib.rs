//! A Brainfuck interpreter: a parser with a peephole optimiser that turns
//! source text into a checked instruction stream, and an engine that executes
//! that stream one instruction at a time.
pub mod error;
pub mod paint;
pub mod machine;
pub mod text;

pub use error::{Error, Result};

pub use machine::engine::{Engine, ExecutionContext, Tick};
pub use machine::instruction::{Instruction, Opcode, Position};

pub use machine::limb::{parse_limb, LimbSpec};
pub use machine::program::Program;
