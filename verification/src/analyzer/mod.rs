pub mod analyzer;
pub mod expressions;
pub mod table;
pub mod types;
pub mod statements;
pub mod declarations;
pub mod laws;
pub use analyzer::SemanticAnalyzer;
