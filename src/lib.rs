//! A tree-walking interpreter for a small dynamically typed scripting language:
//! source text is scanned into tokens, parsed by precedence into statements, and
//! evaluated against one flat scope of variables. Numbers are exact rationals.
pub mod number;
pub mod text;
pub mod token;
pub mod report;
pub mod scanner;
pub mod ast;
pub mod parser;
pub mod value;
pub mod environment;
pub mod interpreter;
pub mod session;
