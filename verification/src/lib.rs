//! Printing of SMT-LIB 2 commands for a solver, and parsing of its answers.
//!
//! The library writes the text of every command into the solver's pending
//! output; the caller forwards that text to the solver process.

pub mod common;
pub mod conf;
pub mod parse;
pub mod solver;
pub mod text;
