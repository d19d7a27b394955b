pub mod ast;
pub mod parser;
pub use parser::Parser;
