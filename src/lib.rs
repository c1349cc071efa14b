//! Sum a stream of whitespace-separated decimal numbers.
//!
//! The library holds the parts that decide: the scanner that cuts a byte
//! stream into tokens and classifies each one, the grammar that a token must
//! follow to be a number, and the choice of input source from a command-line
//! argument.

pub mod literal;
pub mod scanner;
pub mod input_stream;
pub mod laws;
