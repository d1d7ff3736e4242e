//! A bytecode interpreter for a small dynamically typed scripting language:
//! a single-pass Pratt compiler emits chunks of opcodes that a stack-based
//! virtual machine executes.
//!
//! Numbers are IEEE-754 binary64 values carried as their bit patterns, and
//! they print in a round-trippable decimal form: an integer prints without
//! a decimal point up to three trailing zeros (`10000` prints as `1.0E+4`),
//! fractions with no exact binary representation print with enough digits
//! to round-trip (which can be more than the shortest form), and extreme
//! magnitudes print in scientific notation.

pub mod chunk;
pub mod compiler;
pub mod num;
pub mod object;
pub mod scanner;
pub mod table;
pub mod value;
pub mod vm;
