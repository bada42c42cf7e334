//! Front end and evaluation core of a small dynamically typed scripting
//! language: a scanner from source text to tokens, a recursive-descent parser
//! from tokens to an expression tree, and a tree-walking evaluator from that
//! tree to a value.
//!
//! Numbers are IEEE-754 binary64 values, held as their bit patterns. The
//! library orders, equates and negates them itself; reading a decimal
//! literal, the four arithmetic operations and decimal rendering are supplied
//! by the caller as functions, and every contract that depends on them is
//! stated over what those functions promise.

pub mod astprinter;
pub mod environment;
pub mod error;
pub mod expr;
pub mod interpreter;
pub mod number;
pub mod parser;
pub mod grammar;
pub mod round_trip;
pub mod sapphire;
pub mod scanner;
pub mod text;
pub mod token;
pub mod token_type;
pub mod value;
