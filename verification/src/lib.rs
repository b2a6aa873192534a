//! A verified source-to-source compiler for a small imperative language:
//! lexical analysis, recursive-descent parsing, static scope and arity
//! checking, and C text emission. Each stage's executable code is proved
//! equal to a mathematical description of the stage, and the stated laws
//! (scope isolation, arity checking, recursion visibility, balanced braces
//! of the emitted text) are proved from those descriptions.
pub mod lexer;
pub mod parser;
pub mod semantic;
pub mod codegen;
