//! Front end of a small Lox-like scripting language: a scanner from source
//! text to tokens, a recursive-descent parser for arithmetic expressions, and
//! a printer that renders the resulting tree in a canonical prefix form.

pub mod args;
pub mod ast_printer;
pub mod errors;
pub mod expression;
pub mod parser;
pub mod scanner;
pub mod token;
