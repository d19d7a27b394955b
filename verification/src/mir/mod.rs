pub mod builder;
pub mod check;
pub mod cleanup;
pub mod declarations;
pub mod expressions;
pub mod laws;
pub mod mir;
pub mod statements;

pub use mir::{MirBlock, MirFunction, MirInstr, MirProgram};
pub mod text;
