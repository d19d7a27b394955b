pub mod chars;
pub mod lexer;
pub mod spec;
pub mod token;
pub mod laws;
pub mod names;
