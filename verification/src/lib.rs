//! Front end of a tree-walking interpreter for a small C-like expression
//! language: a token model, a Pratt (operator-precedence) parser over a
//! closed token-kind set, a syntax-tree data model with a canonical
//! renderer, and a recursive evaluator for literal and operator
//! expressions.

pub mod ast;
pub mod code;
pub mod digits;
pub mod eval;
pub mod lexer;
pub mod object;
pub mod parser;
pub mod text;
pub mod token;
