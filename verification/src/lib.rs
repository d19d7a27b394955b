pub mod analyzer;
pub mod compiler;
pub mod diagnostics;
pub mod lexar;
pub mod mir;
pub mod parser;
pub mod search;
pub mod text;

pub use analyzer::SemanticAnalyzer;
pub use lexar::lexer::lex;
pub use lexar::token::{Token, TokenType};
pub use parser::ast::AstNode;
pub use parser::Parser;
