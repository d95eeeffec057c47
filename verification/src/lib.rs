//! Pal: a small language, parsed with a backtracking parser-combinator
//! engine.
//!
//! [`parser`] is the engine: an ordered error model, a generic parser type
//! with its algebra, and the lexical parsers built from it. [`grammar`] and
//! [`program`] write the two forms of the language with it, and [`codegen`]
//! holds what the code generator decides about a parsed module.

pub mod parser;
pub mod grammar;
pub mod program;
pub mod codegen;
