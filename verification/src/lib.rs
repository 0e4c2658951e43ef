//! A tree-walking interpreter for a small dynamically typed expression
//! language: identifiers, integers, strings, booleans, prefix and infix
//! operators, `if`, function literals with closures, calls, `let` and
//! `return`. A Pratt parser builds the syntax tree, and the evaluator
//! walks it against a chain of lexical scopes; the meaning of every
//! construct is pinned down by a spec-level definitional interpreter that
//! the executable one is proved to follow exactly.

pub mod strutil;
pub mod token;
pub mod lexer;
pub mod ast;
pub mod object;
pub mod environment;
pub mod evaluator;
pub mod builtin;
pub mod parser;
pub mod repl;
