pub mod instruction;
pub mod program;
pub mod engine;
pub mod passes;
pub mod loops;
pub mod limb;
pub mod balance;
pub mod semantics;
pub mod positions;
