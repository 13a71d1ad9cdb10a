//! An interpreter for a small numeric scripting language: a lexer, a
//! precedence-climbing parser, and a tree-walking evaluator generic over its
//! scalar type (broadcasting, scopes, substitution-based function calls,
//! statement execution), with the scalar arithmetic handed in as closures.
pub mod interpreter;
pub mod lexer;
pub mod parser;
pub mod eval;
pub mod exec;
pub mod table;
